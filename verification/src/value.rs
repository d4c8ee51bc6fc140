//! Field types and field values.
//!
//! A record field has a declared type drawn from a closed set: booleans, fixed-width
//! integers, floating-point numbers, text, an optional of a type and a sequence of a type.
//! [`Value`] is the tagged union of the values of those types, and [`Datum`] is its
//! mathematical model, which every contract of this crate speaks of.
use vstd::prelude::*;

verus! {

/// The declared type of a record field.
#[derive(Debug)]
pub enum FieldType {
    Bool,
    U8,
    U16,
    U32,
    U64,
    I8,
    I16,
    I32,
    I64,
    /// A 32-bit floating-point number, carried by its IEEE 754 bit pattern.
    Float32,
    /// A 64-bit floating-point number, carried by its IEEE 754 bit pattern.
    Float64,
    Text,
    Optional(Box<FieldType>),
    Sequence(Box<FieldType>),
}

/// A field value.
///
/// Floating-point numbers are held as their bit patterns, so that two of them are equal
/// exactly when their bits are.
#[derive(Debug)]
pub enum Value {
    Bool(bool),
    U8(u8),
    U16(u16),
    U32(u32),
    U64(u64),
    I8(i8),
    I16(i16),
    I32(i32),
    I64(i64),
    Float32(u32),
    Float64(u64),
    Text(String),
    Optional(Option<Box<Value>>),
    Sequence(Vec<Value>),
}

/// The mathematical model of a [`Value`]: text is a sequence of characters and a sequence
/// value is a sequence of models.
pub enum Datum {
    Bool(bool),
    U8(u8),
    U16(u16),
    U32(u32),
    U64(u64),
    I8(i8),
    I16(i16),
    I32(i32),
    I64(i64),
    Float32(u32),
    Float64(u64),
    Text(Seq<char>),
    Optional(Option<Box<Datum>>),
    Sequence(Seq<Datum>),
}

impl Value {
    /// The model of this value.
    pub open spec fn model(self) -> Datum
        decreases self,
    {
        match self {
            Value::Bool(b) => Datum::Bool(b),
            Value::U8(x) => Datum::U8(x),
            Value::U16(x) => Datum::U16(x),
            Value::U32(x) => Datum::U32(x),
            Value::U64(x) => Datum::U64(x),
            Value::I8(x) => Datum::I8(x),
            Value::I16(x) => Datum::I16(x),
            Value::I32(x) => Datum::I32(x),
            Value::I64(x) => Datum::I64(x),
            Value::Float32(x) => Datum::Float32(x),
            Value::Float64(x) => Datum::Float64(x),
            Value::Text(s) => Datum::Text(s@),
            Value::Optional(None) => Datum::Optional(None),
            Value::Optional(Some(inner)) => Datum::Optional(Some(Box::new((*inner).model()))),
            Value::Sequence(items) => Datum::Sequence(
                Seq::new(
                    items.len() as nat,
                    |i: int|
                        if 0 <= i < items.len() {
                            items[i].model()
                        } else {
                            Datum::Optional(None)
                        },
                ),
            ),
        }
    }
}

impl View for Value {
    type V = Datum;

    open spec fn view(&self) -> Datum {
        self.model()
    }
}

/// The models of a sequence of values.
pub open spec fn models(values: Seq<Value>) -> Seq<Datum> {
    Seq::new(values.len(), |i: int| values[i]@)
}

/// Whether `datum` is a value of the type `ty`.
pub open spec fn conforms(datum: Datum, ty: FieldType) -> bool
    decreases datum,
{
    match datum {
        Datum::Bool(_) => ty is Bool,
        Datum::U8(_) => ty is U8,
        Datum::U16(_) => ty is U16,
        Datum::U32(_) => ty is U32,
        Datum::U64(_) => ty is U64,
        Datum::I8(_) => ty is I8,
        Datum::I16(_) => ty is I16,
        Datum::I32(_) => ty is I32,
        Datum::I64(_) => ty is I64,
        Datum::Float32(_) => ty is Float32,
        Datum::Float64(_) => ty is Float64,
        Datum::Text(_) => ty is Text,
        Datum::Optional(None) => ty is Optional,
        Datum::Optional(Some(inner)) => ty matches FieldType::Optional(of) && conforms(*inner, *of),
        Datum::Sequence(items) => ty matches FieldType::Sequence(of) && forall|i: int|
            0 <= i < items.len() ==> conforms(#[trigger] items[i], *of),
    }
}

/// A sequence value is of a sequence type exactly when each of its items is of the item
/// type.
pub proof fn lemma_conforms_sequence(items: Seq<Datum>, of: FieldType)
    ensures
        conforms(Datum::Sequence(items), FieldType::Sequence(Box::new(of))) <==> (forall|i: int|
            0 <= i < items.len() ==> conforms(#[trigger] items[i], of)),
{
    let datum = Datum::Sequence(items);
    let ty = FieldType::Sequence(Box::new(of));
    if conforms(datum, ty) {
        assert forall|i: int| 0 <= i < items.len() implies conforms(#[trigger] items[i], of) by {
            assert(conforms(datum->Sequence_0[i], of));
        }
    }
    if forall|i: int| 0 <= i < items.len() ==> conforms(#[trigger] items[i], of) {
        assert forall|i: int| 0 <= i < datum->Sequence_0.len() implies conforms(
            #[trigger] datum->Sequence_0[i],
            of,
        ) by {
            assert(conforms(items[i], of));
        }
    }
}

impl Value {
    /// Whether this value is of the type `ty`.
    pub fn conforms_to(&self, ty: &FieldType) -> (r: bool)
        ensures
            r == conforms(self@, *ty),
        decreases self,
    {
        match (self, ty) {
            (Value::Bool(_), FieldType::Bool) => true,
            (Value::U8(_), FieldType::U8) => true,
            (Value::U16(_), FieldType::U16) => true,
            (Value::U32(_), FieldType::U32) => true,
            (Value::U64(_), FieldType::U64) => true,
            (Value::I8(_), FieldType::I8) => true,
            (Value::I16(_), FieldType::I16) => true,
            (Value::I32(_), FieldType::I32) => true,
            (Value::I64(_), FieldType::I64) => true,
            (Value::Float32(_), FieldType::Float32) => true,
            (Value::Float64(_), FieldType::Float64) => true,
            (Value::Text(_), FieldType::Text) => true,
            (Value::Optional(None), FieldType::Optional(_)) => true,
            (Value::Optional(Some(inner)), FieldType::Optional(of)) => inner.conforms_to(of),
            (Value::Sequence(items), FieldType::Sequence(of)) => {
                let ghost data = self@->Sequence_0;
                let mut i: usize = 0;
                while i < items.len()
                    invariant
                        i <= items.len(),
                        self@ == Datum::Sequence(data),
                        data.len() == items.len(),
                        forall|j: int| 0 <= j < items.len() ==> #[trigger] data[j] == items[j]@,
                        forall|j: int| 0 <= j < i ==> conforms(#[trigger] data[j], **of),
                        *self == Value::Sequence(*items),
                        *ty == FieldType::Sequence(*of),
                    decreases items.len() - i,
                {
                    if !items[i].conforms_to(of) {
                        proof {
                            lemma_conforms_sequence(data, **of);
                            assert(!conforms(data[i as int], **of));
                        }
                        return false;
                    }
                    i += 1;
                }
                proof {
                    lemma_conforms_sequence(data, **of);
                }
                true
            },
            _ => false,
        }
    }
}

impl FieldType {
    /// Whether the two types are the same type.
    pub fn same(&self, other: &FieldType) -> (r: bool)
        ensures
            r == (*self == *other),
        decreases self,
    {
        match (self, other) {
            (FieldType::Bool, FieldType::Bool) => true,
            (FieldType::U8, FieldType::U8) => true,
            (FieldType::U16, FieldType::U16) => true,
            (FieldType::U32, FieldType::U32) => true,
            (FieldType::U64, FieldType::U64) => true,
            (FieldType::I8, FieldType::I8) => true,
            (FieldType::I16, FieldType::I16) => true,
            (FieldType::I32, FieldType::I32) => true,
            (FieldType::I64, FieldType::I64) => true,
            (FieldType::Float32, FieldType::Float32) => true,
            (FieldType::Float64, FieldType::Float64) => true,
            (FieldType::Text, FieldType::Text) => true,
            (FieldType::Optional(a), FieldType::Optional(b)) => a.same(b),
            (FieldType::Sequence(a), FieldType::Sequence(b)) => a.same(b),
            _ => false,
        }
    }

    /// A copy of this type.
    pub fn duplicate(&self) -> (r: FieldType)
        ensures
            r == *self,
        decreases self,
    {
        match self {
            FieldType::Bool => FieldType::Bool,
            FieldType::U8 => FieldType::U8,
            FieldType::U16 => FieldType::U16,
            FieldType::U32 => FieldType::U32,
            FieldType::U64 => FieldType::U64,
            FieldType::I8 => FieldType::I8,
            FieldType::I16 => FieldType::I16,
            FieldType::I32 => FieldType::I32,
            FieldType::I64 => FieldType::I64,
            FieldType::Float32 => FieldType::Float32,
            FieldType::Float64 => FieldType::Float64,
            FieldType::Text => FieldType::Text,
            FieldType::Optional(of) => FieldType::Optional(Box::new(of.duplicate())),
            FieldType::Sequence(of) => FieldType::Sequence(Box::new(of.duplicate())),
        }
    }
}

impl Clone for FieldType {
    fn clone(&self) -> (r: FieldType)
        ensures
            r == *self,
    {
        self.duplicate()
    }
}

impl PartialEq for FieldType {
    fn eq(&self, other: &FieldType) -> (r: bool) {
        self.same(other)
    }
}

impl vstd::std_specs::cmp::PartialEqSpecImpl for FieldType {
    open spec fn obeys_eq_spec() -> bool {
        true
    }

    open spec fn eq_spec(&self, other: &FieldType) -> bool {
        *self == *other
    }
}

impl Value {
    /// Whether the two values are equal: of the same kind and with equal contents.
    pub fn same(&self, other: &Value) -> (r: bool)
        ensures
            r == (self@ == other@),
        decreases self,
    {
        match (self, other) {
            (Value::Bool(a), Value::Bool(b)) => *a == *b,
            (Value::U8(a), Value::U8(b)) => *a == *b,
            (Value::U16(a), Value::U16(b)) => *a == *b,
            (Value::U32(a), Value::U32(b)) => *a == *b,
            (Value::U64(a), Value::U64(b)) => *a == *b,
            (Value::I8(a), Value::I8(b)) => *a == *b,
            (Value::I16(a), Value::I16(b)) => *a == *b,
            (Value::I32(a), Value::I32(b)) => *a == *b,
            (Value::I64(a), Value::I64(b)) => *a == *b,
            (Value::Float32(a), Value::Float32(b)) => *a == *b,
            (Value::Float64(a), Value::Float64(b)) => *a == *b,
            (Value::Text(a), Value::Text(b)) => *a == *b,
            (Value::Optional(None), Value::Optional(None)) => true,
            (Value::Optional(Some(a)), Value::Optional(Some(b))) => a.same(b),
            (Value::Sequence(a), Value::Sequence(b)) => {
                let ghost ma = self@->Sequence_0;
                let ghost mb = other@->Sequence_0;
                if a.len() != b.len() {
                    assert(ma.len() != mb.len());
                    return false;
                }
                let mut i: usize = 0;
                while i < a.len()
                    invariant
                        i <= a.len(),
                        a.len() == b.len(),
                        *self == Value::Sequence(*a),
                        *other == Value::Sequence(*b),
                        self@ == Datum::Sequence(ma),
                        other@ == Datum::Sequence(mb),
                        ma.len() == a.len(),
                        mb.len() == b.len(),
                        forall|j: int| 0 <= j < a.len() ==> #[trigger] ma[j] == a[j].model(),
                        forall|j: int| 0 <= j < b.len() ==> #[trigger] mb[j] == b[j].model(),
                        forall|j: int| 0 <= j < i ==> ma[j] == mb[j],
                    decreases a.len() - i,
                {
                    if !a[i].same(&b[i]) {
                        assert(ma[i as int] != mb[i as int]);
                        return false;
                    }
                    i += 1;
                }
                assert(ma =~= mb);
                true
            },
            _ => false,
        }
    }

    /// A copy of this value.
    pub fn duplicate(&self) -> (r: Value)
        ensures
            r@ == self@,
        decreases self,
    {
        match self {
            Value::Bool(b) => Value::Bool(*b),
            Value::U8(x) => Value::U8(*x),
            Value::U16(x) => Value::U16(*x),
            Value::U32(x) => Value::U32(*x),
            Value::U64(x) => Value::U64(*x),
            Value::I8(x) => Value::I8(*x),
            Value::I16(x) => Value::I16(*x),
            Value::I32(x) => Value::I32(*x),
            Value::I64(x) => Value::I64(*x),
            Value::Float32(x) => Value::Float32(*x),
            Value::Float64(x) => Value::Float64(*x),
            Value::Text(s) => Value::Text(s.clone()),
            Value::Optional(None) => Value::Optional(None),
            Value::Optional(Some(inner)) => Value::Optional(Some(Box::new(inner.duplicate()))),
            Value::Sequence(items) => {
                let ghost data = self@->Sequence_0;
                let mut copy: Vec<Value> = Vec::new();
                let mut i: usize = 0;
                while i < items.len()
                    invariant
                        i <= items.len(),
                        copy.len() == i,
                        *self == Value::Sequence(*items),
                        self@ == Datum::Sequence(data),
                        data.len() == items.len(),
                        forall|j: int|
                            0 <= j < items.len() ==> #[trigger] data[j] == items[j].model(),
                        forall|j: int| 0 <= j < i ==> copy[j].model() == #[trigger] data[j],
                    decreases items.len() - i,
                {
                    copy.push(items[i].duplicate());
                    i += 1;
                }
                let r = Value::Sequence(copy);
                assert(r@->Sequence_0 =~= data);
                r
            },
        }
    }
}

impl Clone for Value {
    fn clone(&self) -> (r: Value)
        ensures
            r@ == self@,
    {
        self.duplicate()
    }
}

impl PartialEq for Value {
    fn eq(&self, other: &Value) -> (r: bool) {
        self.same(other)
    }
}

impl vstd::std_specs::cmp::PartialEqSpecImpl for Value {
    open spec fn obeys_eq_spec() -> bool {
        true
    }

    open spec fn eq_spec(&self, other: &Value) -> bool {
        self@ == other@
    }
}

} // verus!
