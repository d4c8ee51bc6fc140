//! The archived form of a field value: a fixed layout that is read back from a byte offset
//! without reading anything that precedes it.
//!
//! | value                      | layout                                                   |
//! |----------------------------|----------------------------------------------------------|
//! | boolean                    | one byte, 0 or 1                                         |
//! | integer or float of n bytes| its n bytes, least significant first                     |
//! | text                       | the byte length as 8 bytes, then the text in UTF-8       |
//! | optional                   | one byte, 0 for none or 1 for some, then the value if any|
//! | sequence                   | the item count as 8 bytes, then the items in order       |
use crate::value::{conforms, lemma_conforms_sequence, models, Datum, FieldType, Value};
use vstd::bytes::{
    lemma_auto_spec_u16_to_from_le_bytes, lemma_auto_spec_u32_to_from_le_bytes,
    lemma_auto_spec_u64_to_from_le_bytes, spec_u16_from_le_bytes, spec_u16_to_le_bytes,
    spec_u32_from_le_bytes, spec_u32_to_le_bytes, spec_u64_from_le_bytes, spec_u64_to_le_bytes,
    u16_from_le_bytes, u16_to_le_bytes, u32_from_le_bytes, u32_to_le_bytes, u64_from_le_bytes,
    u64_to_le_bytes,
};
use vstd::prelude::*;
use vstd::slice::slice_subrange;
use vstd::string::StrSliceExecFns;
use vstd::utf8::{
    decode_utf8, encode_utf8, encode_utf8_decode_utf8, encode_utf8_valid_utf8, valid_utf8,
};

verus! {

/// The archived form of `datum`.
pub open spec fn encode_value(datum: Datum) -> Seq<u8>
    decreases datum,
{
    match datum {
        Datum::Bool(b) => seq![if b { 1u8 } else { 0u8 }],
        Datum::U8(x) => seq![x],
        Datum::I8(x) => seq![x as u8],
        Datum::U16(x) => spec_u16_to_le_bytes(x),
        Datum::I16(x) => spec_u16_to_le_bytes(x as u16),
        Datum::U32(x) => spec_u32_to_le_bytes(x),
        Datum::I32(x) => spec_u32_to_le_bytes(x as u32),
        Datum::Float32(x) => spec_u32_to_le_bytes(x),
        Datum::U64(x) => spec_u64_to_le_bytes(x),
        Datum::I64(x) => spec_u64_to_le_bytes(x as u64),
        Datum::Float64(x) => spec_u64_to_le_bytes(x),
        Datum::Text(text) => spec_u64_to_le_bytes(encode_utf8(text).len() as u64) + encode_utf8(
            text,
        ),
        Datum::Optional(None) => seq![0u8],
        Datum::Optional(Some(inner)) => seq![1u8] + encode_value(*inner),
        Datum::Sequence(items) => spec_u64_to_le_bytes(items.len() as u64) + encode_items(items),
    }
}

/// The archived forms of `items`, one after the other.
pub open spec fn encode_items(items: Seq<Datum>) -> Seq<u8>
    decreases items,
{
    if items.len() == 0 {
        Seq::empty()
    } else {
        encode_items(items.drop_last()) + encode_value(items.last())
    }
}

/// The `width` bytes of `bytes` from offset `at` on, if there are that many.
pub open spec fn window(bytes: Seq<u8>, at: int, width: int) -> Option<Seq<u8>> {
    if 0 <= at && 0 <= width && at + width <= bytes.len() {
        Some(bytes.subrange(at, at + width))
    } else {
        None
    }
}

/// Reading a value of type `ty` from offset `at` of `bytes`: the value and the offset just
/// behind it, or nothing where the bytes there are not the archived form of such a value.
pub open spec fn decode_value(bytes: Seq<u8>, at: int, ty: FieldType) -> Option<(Datum, int)>
    decreases ty, 0nat,
{
    match ty {
        FieldType::Bool => match window(bytes, at, 1) {
            Some(w) => if w[0] == 0 {
                Some((Datum::Bool(false), at + 1))
            } else if w[0] == 1 {
                Some((Datum::Bool(true), at + 1))
            } else {
                None
            },
            None => None,
        },
        FieldType::U8 => match window(bytes, at, 1) {
            Some(w) => Some((Datum::U8(w[0]), at + 1)),
            None => None,
        },
        FieldType::I8 => match window(bytes, at, 1) {
            Some(w) => Some((Datum::I8(w[0] as i8), at + 1)),
            None => None,
        },
        FieldType::U16 => match window(bytes, at, 2) {
            Some(w) => Some((Datum::U16(spec_u16_from_le_bytes(w)), at + 2)),
            None => None,
        },
        FieldType::I16 => match window(bytes, at, 2) {
            Some(w) => Some((Datum::I16(spec_u16_from_le_bytes(w) as i16), at + 2)),
            None => None,
        },
        FieldType::U32 => match window(bytes, at, 4) {
            Some(w) => Some((Datum::U32(spec_u32_from_le_bytes(w)), at + 4)),
            None => None,
        },
        FieldType::I32 => match window(bytes, at, 4) {
            Some(w) => Some((Datum::I32(spec_u32_from_le_bytes(w) as i32), at + 4)),
            None => None,
        },
        FieldType::Float32 => match window(bytes, at, 4) {
            Some(w) => Some((Datum::Float32(spec_u32_from_le_bytes(w)), at + 4)),
            None => None,
        },
        FieldType::U64 => match window(bytes, at, 8) {
            Some(w) => Some((Datum::U64(spec_u64_from_le_bytes(w)), at + 8)),
            None => None,
        },
        FieldType::I64 => match window(bytes, at, 8) {
            Some(w) => Some((Datum::I64(spec_u64_from_le_bytes(w) as i64), at + 8)),
            None => None,
        },
        FieldType::Float64 => match window(bytes, at, 8) {
            Some(w) => Some((Datum::Float64(spec_u64_from_le_bytes(w)), at + 8)),
            None => None,
        },
        FieldType::Text => match window(bytes, at, 8) {
            Some(w) => match window(bytes, at + 8, spec_u64_from_le_bytes(w) as int) {
                Some(raw) => if valid_utf8(raw) {
                    Some((Datum::Text(decode_utf8(raw)), at + 8 + raw.len()))
                } else {
                    None
                },
                None => None,
            },
            None => None,
        },
        FieldType::Optional(of) => match window(bytes, at, 1) {
            Some(w) => if w[0] == 0 {
                Some((Datum::Optional(None), at + 1))
            } else if w[0] == 1 {
                match decode_value(bytes, at + 1, *of) {
                    Some((inner, end)) => Some((Datum::Optional(Some(Box::new(inner))), end)),
                    None => None,
                }
            } else {
                None
            },
            None => None,
        },
        FieldType::Sequence(of) => match window(bytes, at, 8) {
            Some(w) => match decode_items(bytes, at + 8, *of, spec_u64_from_le_bytes(w) as nat) {
                Some((items, end)) => Some((Datum::Sequence(items), end)),
                None => None,
            },
            None => None,
        },
    }
}

/// Reading `count` values of type `of`, one after the other, from offset `at` of `bytes`.
pub open spec fn decode_items(bytes: Seq<u8>, at: int, of: FieldType, count: nat) -> Option<
    (Seq<Datum>, int),
>
    decreases of, count + 1,
{
    if count == 0 {
        Some((Seq::empty(), at))
    } else {
        match decode_value(bytes, at, of) {
            Some((first, next)) => match decode_items(bytes, next, of, (count - 1) as nat) {
                Some((rest, end)) => Some((seq![first] + rest, end)),
                None => None,
            },
            None => None,
        }
    }
}

/// Text from its UTF-8 bytes.
///
/// Calls `String::from_utf8` of the standard library, which returns the text that the bytes
/// encode, and fails exactly when the bytes are not valid UTF-8.
#[verifier::external_body]
fn text_from_utf8(raw: &[u8]) -> (r: Option<String>)
    ensures
        r is Some <==> valid_utf8(raw@),
        r matches Some(text) ==> text@ == decode_utf8(raw@),
{
    String::from_utf8(raw.to_vec()).ok()
}

/// The `width` bytes of `bytes` from offset `at` on, if there are that many.
fn take(bytes: &[u8], at: usize, width: usize) -> (r: Option<&[u8]>)
    ensures
        match window(bytes@, at as int, width as int) {
            Some(w) => r matches Some(slice) && slice@ == w,
            None => r is None,
        },
        r matches Some(slice) ==> at + width <= bytes.len() && slice@.len() == width,
{
    if at <= bytes.len() && width <= bytes.len() - at {
        Some(slice_subrange(bytes, at, at + width))
    } else {
        None
    }
}

/// Appends the archived form of `value` to `out`.
pub fn write_value(out: &mut Vec<u8>, value: &Value)
    ensures
        final(out)@ == old(out)@ + encode_value(value@),
    decreases value,
{
    match value {
        Value::Bool(b) => {
            out.push(if *b { 1u8 } else { 0u8 });
            assert(out@ =~= old(out)@ + encode_value(value@));
        },
        Value::U8(x) => {
            out.push(*x);
            assert(out@ =~= old(out)@ + encode_value(value@));
        },
        Value::I8(x) => {
            out.push(#[verifier::truncate] (*x as u8));
            assert(out@ =~= old(out)@ + encode_value(value@));
        },
        Value::U16(x) => {
            let mut piece = u16_to_le_bytes(*x);
            out.append(&mut piece);
        },
        Value::I16(x) => {
            let mut piece = u16_to_le_bytes(#[verifier::truncate] (*x as u16));
            out.append(&mut piece);
        },
        Value::U32(x) => {
            let mut piece = u32_to_le_bytes(*x);
            out.append(&mut piece);
        },
        Value::I32(x) => {
            let mut piece = u32_to_le_bytes(#[verifier::truncate] (*x as u32));
            out.append(&mut piece);
        },
        Value::Float32(x) => {
            let mut piece = u32_to_le_bytes(*x);
            out.append(&mut piece);
        },
        Value::U64(x) => {
            let mut piece = u64_to_le_bytes(*x);
            out.append(&mut piece);
        },
        Value::I64(x) => {
            let mut piece = u64_to_le_bytes(#[verifier::truncate] (*x as u64));
            out.append(&mut piece);
        },
        Value::Float64(x) => {
            let mut piece = u64_to_le_bytes(*x);
            out.append(&mut piece);
        },
        Value::Text(text) => {
            let mut raw = text.as_str().as_bytes_vec();
            let mut prefix = u64_to_le_bytes(raw.len() as u64);
            out.append(&mut prefix);
            out.append(&mut raw);
            assert(out@ =~= old(out)@ + encode_value(value@));
        },
        Value::Optional(None) => {
            out.push(0u8);
            assert(out@ =~= old(out)@ + encode_value(value@));
        },
        Value::Optional(Some(inner)) => {
            out.push(1u8);
            write_value(out, inner);
            assert(out@ =~= old(out)@ + encode_value(value@));
        },
        Value::Sequence(items) => {
            let ghost data = value@->Sequence_0;
            let mut prefix = u64_to_le_bytes(items.len() as u64);
            out.append(&mut prefix);
            let ghost head = out@;
            let mut i: usize = 0;
            while i < items.len()
                invariant
                    i <= items.len(),
                    value is Sequence,
                    value->Sequence_0 == *items,
                    data.len() == items.len(),
                    forall|j: int|
                        0 <= j < items.len() ==> #[trigger] data[j] == items[j].model(),
                    out@ == head + encode_items(data.take(i as int)),
                decreases items.len() - i,
            {
                write_value(out, &items[i]);
                proof {
                    let next = data.take(i + 1);
                    assert(next.drop_last() =~= data.take(i as int));
                    assert(next.last() == items[i as int].model());
                    assert(out@ =~= head + encode_items(next));
                }
                i += 1;
            }
            assert(data.take(items.len() as int) =~= data);
            assert(out@ =~= old(out)@ + encode_value(value@));
        },
    }
}

/// Reads a value of type `ty` from offset `at` of `bytes`: the value and the offset just
/// behind it.
pub fn read_value(bytes: &[u8], at: usize, ty: &FieldType) -> (r: Option<(Value, usize)>)
    ensures
        match decode_value(bytes@, at as int, *ty) {
            Some((datum, end)) => r matches Some((value, stop)) && value@ == datum && stop == end,
            None => r is None,
        },
    decreases ty,
{
    match ty {
        FieldType::Bool => match take(bytes, at, 1) {
            Some(w) => if w[0] == 0 {
                Some((Value::Bool(false), at + 1))
            } else if w[0] == 1 {
                Some((Value::Bool(true), at + 1))
            } else {
                None
            },
            None => None,
        },
        FieldType::U8 => match take(bytes, at, 1) {
            Some(w) => Some((Value::U8(w[0]), at + 1)),
            None => None,
        },
        FieldType::I8 => match take(bytes, at, 1) {
            Some(w) => Some((Value::I8(#[verifier::truncate] (w[0] as i8)), at + 1)),
            None => None,
        },
        FieldType::U16 => match take(bytes, at, 2) {
            Some(w) => Some((Value::U16(u16_from_le_bytes(w)), at + 2)),
            None => None,
        },
        FieldType::I16 => match take(bytes, at, 2) {
            Some(w) => Some(
                (Value::I16(#[verifier::truncate] (u16_from_le_bytes(w) as i16)), at + 2),
            ),
            None => None,
        },
        FieldType::U32 => match take(bytes, at, 4) {
            Some(w) => Some((Value::U32(u32_from_le_bytes(w)), at + 4)),
            None => None,
        },
        FieldType::I32 => match take(bytes, at, 4) {
            Some(w) => Some(
                (Value::I32(#[verifier::truncate] (u32_from_le_bytes(w) as i32)), at + 4),
            ),
            None => None,
        },
        FieldType::Float32 => match take(bytes, at, 4) {
            Some(w) => Some((Value::Float32(u32_from_le_bytes(w)), at + 4)),
            None => None,
        },
        FieldType::U64 => match take(bytes, at, 8) {
            Some(w) => Some((Value::U64(u64_from_le_bytes(w)), at + 8)),
            None => None,
        },
        FieldType::I64 => match take(bytes, at, 8) {
            Some(w) => Some(
                (Value::I64(#[verifier::truncate] (u64_from_le_bytes(w) as i64)), at + 8),
            ),
            None => None,
        },
        FieldType::Float64 => match take(bytes, at, 8) {
            Some(w) => Some((Value::Float64(u64_from_le_bytes(w)), at + 8)),
            None => None,
        },
        FieldType::Text => match take(bytes, at, 8) {
            Some(w) => {
                let length = u64_from_le_bytes(w);
                if length > (bytes.len() - at - 8) as u64 {
                    return None;
                }
                let width = length as usize;
                match take(bytes, at + 8, width) {
                    Some(raw) => match text_from_utf8(raw) {
                        Some(text) => Some((Value::Text(text), at + 8 + width)),
                        None => None,
                    },
                    None => None,
                }
            },
            None => None,
        },
        FieldType::Optional(of) => match take(bytes, at, 1) {
            Some(w) => if w[0] == 0 {
                Some((Value::Optional(None), at + 1))
            } else if w[0] == 1 {
                match read_value(bytes, at + 1, of) {
                    Some((inner, end)) => Some((Value::Optional(Some(Box::new(inner))), end)),
                    None => None,
                }
            } else {
                None
            },
            None => None,
        },
        FieldType::Sequence(of) => match take(bytes, at, 8) {
            Some(w) => {
                let count = u64_from_le_bytes(w);
                let ghost whole = decode_items(bytes@, at + 8, **of, count as nat);
                let mut items: Vec<Value> = Vec::new();
                let mut cursor: usize = at + 8;
                let mut i: u64 = 0;
                while i < count
                    invariant
                        i <= count,
                        cursor <= bytes.len(),
                        ty is Sequence,
                        ty->Sequence_0 == *of,
                        decode_value(bytes@, at as int, *ty) == match whole {
                            Some((data, end)) => Some((Datum::Sequence(data), end)),
                            None => None,
                        },
                        whole == match decode_items(
                            bytes@,
                            cursor as int,
                            **of,
                            (count - i) as nat,
                        ) {
                            Some((rest, end)) => Some((models(items@) + rest, end)),
                            None => None,
                        },
                    decreases count - i,
                {
                    match read_value(bytes, cursor, of) {
                        Some((item, next)) => {
                            proof {
                                lemma_decode_bounds(bytes@, cursor as int, **of);
                                let before = models(items@);
                                let after = models(items@.push(item));
                                assert(after =~= before + seq![item@]);
                                let left = (count - i - 1) as nat;
                                match decode_items(bytes@, next as int, **of, left) {
                                    Some((rest, end)) => {
                                        assert(after + rest =~= before + (seq![item@] + rest));
                                    },
                                    None => {},
                                }
                            }
                            items.push(item);
                            cursor = next;
                        },
                        None => {
                            return None;
                        },
                    }
                    i += 1;
                }
                proof {
                    assert(models(items@) + Seq::<Datum>::empty() =~= models(items@));
                    assert(Value::Sequence(items)@->Sequence_0 =~= models(items@));
                }
                Some((Value::Sequence(items), cursor))
            },
            None => None,
        },
    }
}

/// A value that is read lies within the bytes and is not empty.
proof fn lemma_decode_bounds(bytes: Seq<u8>, at: int, ty: FieldType)
    ensures
        decode_value(bytes, at, ty) matches Some((_, end)) ==> 0 <= at < end <= bytes.len(),
    decreases ty, 0nat,
{
    match ty {
        FieldType::Optional(of) => {
            lemma_decode_bounds(bytes, at + 1, *of);
        },
        FieldType::Sequence(of) => {
            if let Some(w) = window(bytes, at, 8) {
                lemma_decode_items_bounds(bytes, at + 8, *of, spec_u64_from_le_bytes(w) as nat);
            }
        },
        _ => {},
    }
}

/// Values that are read one after the other lie within the bytes.
proof fn lemma_decode_items_bounds(bytes: Seq<u8>, at: int, of: FieldType, count: nat)
    requires
        0 <= at <= bytes.len(),
    ensures
        decode_items(bytes, at, of, count) matches Some((items, end)) ==> at <= end <= bytes.len()
            && items.len() == count,
    decreases of, count + 1,
{
    if count > 0 {
        lemma_decode_bounds(bytes, at, of);
        if let Some((first, next)) = decode_value(bytes, at, of) {
            lemma_decode_items_bounds(bytes, next, of, (count - 1) as nat);
        }
    }
}

/// A value that is read is of the type that was asked for.
pub proof fn lemma_decode_conforms(bytes: Seq<u8>, at: int, ty: FieldType)
    ensures
        decode_value(bytes, at, ty) matches Some((datum, _)) ==> conforms(datum, ty),
    decreases ty, 0nat,
{
    match ty {
        FieldType::Optional(of) => {
            lemma_decode_conforms(bytes, at + 1, *of);
        },
        FieldType::Sequence(of) => {
            if let Some(w) = window(bytes, at, 8) {
                let count = spec_u64_from_le_bytes(w) as nat;
                lemma_decode_items_conform(bytes, at + 8, *of, count);
                if let Some((items, _)) = decode_items(bytes, at + 8, *of, count) {
                    lemma_conforms_sequence(items, *of);
                }
            }
        },
        _ => {},
    }
}

/// Values that are read one after the other are each of the type that was asked for.
proof fn lemma_decode_items_conform(bytes: Seq<u8>, at: int, of: FieldType, count: nat)
    ensures
        decode_items(bytes, at, of, count) matches Some((items, _)) ==> forall|i: int|
            0 <= i < items.len() ==> conforms(#[trigger] items[i], of),
    decreases of, count + 1,
{
    if count > 0 {
        lemma_decode_conforms(bytes, at, of);
        if let Some((first, next)) = decode_value(bytes, at, of) {
            lemma_decode_items_conform(bytes, next, of, (count - 1) as nat);
        }
    }
}

/// The archived form of a value has at least one byte.
pub proof fn lemma_encoded_not_empty(datum: Datum)
    ensures
        encode_value(datum).len() >= 1,
{
    lemma_auto_spec_u16_to_from_le_bytes();
    lemma_auto_spec_u32_to_from_le_bytes();
    lemma_auto_spec_u64_to_from_le_bytes();
}

/// The archived form of two runs of items is the archived form of the first followed by that
/// of the second.
pub proof fn lemma_encode_items_concat(front: Seq<Datum>, back: Seq<Datum>)
    ensures
        encode_items(front + back) == encode_items(front) + encode_items(back),
    decreases back.len(),
{
    if back.len() == 0 {
        assert(front + back =~= front);
        assert(encode_items(front) + encode_items(back) =~= encode_items(front));
    } else {
        let whole = front + back;
        assert(whole.drop_last() =~= front + back.drop_last());
        assert(whole.last() == back.last());
        lemma_encode_items_concat(front, back.drop_last());
        assert(encode_items(whole) =~= encode_items(front) + encode_items(back));
    }
}

/// The archived form of a run of items has at least one byte for each item.
proof fn lemma_encoded_items_len(items: Seq<Datum>)
    ensures
        encode_items(items).len() >= items.len(),
    decreases items.len(),
{
    if items.len() > 0 {
        lemma_encoded_items_len(items.drop_last());
        lemma_encoded_not_empty(items.last());
    }
}

/// Where `front` followed by `back` stands at offset `at` of `bytes`, `front` stands at `at`
/// and `back` stands just behind it.
proof fn lemma_window_split(bytes: Seq<u8>, at: int, front: Seq<u8>, back: Seq<u8>)
    requires
        window(bytes, at, (front + back).len() as int) == Some(front + back),
    ensures
        window(bytes, at, front.len() as int) == Some(front),
        window(bytes, at + front.len(), back.len() as int) == Some(back),
{
    let whole = front + back;
    let found = bytes.subrange(at, at + whole.len());
    assert forall|i: int| 0 <= i < front.len() implies bytes[at + i] == front[i] by {
        assert(found[i] == whole[i]);
    }
    assert forall|i: int| 0 <= i < back.len() implies bytes[at + front.len() + i] == back[i] by {
        assert(found[front.len() + i] == whole[front.len() + i]);
    }
    assert(bytes.subrange(at, at + front.len()) =~= front);
    assert(bytes.subrange(at + front.len(), at + front.len() + back.len()) =~= back);
}

/// Reading gives back what was written: where the archived form of a value of type `ty`
/// stands at offset `at` of `bytes`, whatever follows it, reading a value of that type there
/// yields that value and the offset just behind its archived form.
pub proof fn lemma_decode_encoded(datum: Datum, ty: FieldType, bytes: Seq<u8>, at: int)
    requires
        conforms(datum, ty),
        bytes.len() <= u64::MAX,
        window(bytes, at, encode_value(datum).len() as int) == Some(encode_value(datum)),
    ensures
        decode_value(bytes, at, ty) == Some((datum, at + encode_value(datum).len())),
    decreases datum,
{
    lemma_auto_spec_u16_to_from_le_bytes();
    lemma_auto_spec_u32_to_from_le_bytes();
    lemma_auto_spec_u64_to_from_le_bytes();
    let encoded = encode_value(datum);
    match datum {
        Datum::Bool(b) => {
            assert(bytes.subrange(at, at + 1)[0] == encoded[0]);
        },
        Datum::U8(x) => {
            assert(bytes.subrange(at, at + 1)[0] == encoded[0]);
        },
        Datum::I8(x) => {
            assert(bytes.subrange(at, at + 1)[0] == encoded[0]);
            assert((x as u8) as i8 == x) by (bit_vector);
        },
        Datum::U16(x) => {},
        Datum::I16(x) => {
            assert((x as u16) as i16 == x) by (bit_vector);
        },
        Datum::U32(x) => {},
        Datum::I32(x) => {
            assert((x as u32) as i32 == x) by (bit_vector);
        },
        Datum::Float32(x) => {},
        Datum::U64(x) => {},
        Datum::I64(x) => {
            assert((x as u64) as i64 == x) by (bit_vector);
        },
        Datum::Float64(x) => {},
        Datum::Text(text) => {
            let raw = encode_utf8(text);
            let prefix = spec_u64_to_le_bytes(raw.len() as u64);
            assert(encoded == prefix + raw);
            lemma_window_split(bytes, at, prefix, raw);
            encode_utf8_valid_utf8(text);
            encode_utf8_decode_utf8(text);
        },
        Datum::Optional(None) => {
            assert(bytes.subrange(at, at + 1)[0] == encoded[0]);
        },
        Datum::Optional(Some(inner)) => {
            let rest = encode_value(*inner);
            assert(encoded == seq![1u8] + rest);
            assert(bytes.subrange(at, at + 1)[0] == encoded[0]);
            lemma_window_split(bytes, at, seq![1u8], rest);
            lemma_decode_encoded(*inner, *ty->Optional_0, bytes, at + 1);
        },
        Datum::Sequence(items) => {
            let of = *ty->Sequence_0;
            let body = encode_items(items);
            let prefix = spec_u64_to_le_bytes(items.len() as u64);
            assert(encoded == prefix + body);
            lemma_encoded_items_len(items);
            lemma_window_split(bytes, at, prefix, body);
            lemma_conforms_sequence(items, of);
            lemma_decode_encoded_items(items, of, bytes, at + 8);
        },
    }
}

/// Reading gives back a run of items that was written.
proof fn lemma_decode_encoded_items(items: Seq<Datum>, of: FieldType, bytes: Seq<u8>, at: int)
    requires
        forall|i: int| 0 <= i < items.len() ==> conforms(#[trigger] items[i], of),
        bytes.len() <= u64::MAX,
        window(bytes, at, encode_items(items).len() as int) == Some(encode_items(items)),
    ensures
        decode_items(bytes, at, of, items.len()) == Some((items, at + encode_items(items).len())),
    decreases items,
{
    if items.len() == 0 {
        assert(items =~= Seq::<Datum>::empty());
    } else {
        let first = items[0];
        let rest = items.subrange(1, items.len() as int);
        assert(items =~= seq![first] + rest);
        lemma_encode_items_concat(seq![first], rest);
        assert(seq![first].drop_last() =~= Seq::<Datum>::empty());
        assert(encode_items(Seq::<Datum>::empty()) =~= Seq::<u8>::empty());
        assert(encode_items(seq![first]) =~= encode_value(first));
        let head = encode_value(first);
        let tail = encode_items(rest);
        assert(encode_items(items) == head + tail);
        lemma_window_split(bytes, at, head, tail);
        lemma_decode_encoded(first, of, bytes, at);
        assert forall|i: int| 0 <= i < rest.len() implies conforms(#[trigger] rest[i], of) by {
            assert(rest[i] == items[i + 1]);
        }
        lemma_decode_encoded_items(rest, of, bytes, at + head.len());
        assert(seq![first] + rest =~= items);
    }
}

} // verus!
