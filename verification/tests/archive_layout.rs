use vhs_diff::{
    apply_rkyv_patch, ArchivablePatch, ArchivablePatchSeq, Diff, FieldAndPosition, Patch,
};
use vhs_diff::layout::{read_value, write_value};
use vhs_diff::model::DecodeError;
use vhs_diff::record::{Record, RecordError};
use vhs_diff::schema::{FieldSpec, Schema};
use vhs_diff::value::{FieldType, Value};

fn archived(value: &Value) -> Vec<u8> {
    let mut out = Vec::new();
    write_value(&mut out, value);
    out
}

fn optional(of: FieldType) -> FieldType {
    FieldType::Optional(Box::new(of))
}

fn sequence(of: FieldType) -> FieldType {
    FieldType::Sequence(Box::new(of))
}

fn some(value: Value) -> Value {
    Value::Optional(Some(Box::new(value)))
}

fn mixed_schema() -> Schema {
    Schema::new(vec![
        FieldSpec { name: "flag".to_string(), ty: FieldType::Bool },
        FieldSpec { name: "tiny".to_string(), ty: FieldType::I8 },
        FieldSpec { name: "wide".to_string(), ty: FieldType::U64 },
        FieldSpec { name: "odds".to_string(), ty: FieldType::Float64 },
        FieldSpec { name: "name".to_string(), ty: FieldType::Text },
        FieldSpec { name: "phase".to_string(), ty: optional(FieldType::I16) },
        FieldSpec { name: "bases".to_string(), ty: sequence(optional(FieldType::I64)) },
        FieldSpec { name: "runners".to_string(), ty: sequence(FieldType::Text) },
    ])
    .unwrap()
}

fn mixed_old() -> Record {
    Record::new(
        mixed_schema(),
        vec![
            Value::Bool(false),
            Value::I8(-3),
            Value::U64(u64::MAX),
            Value::Float64(0.5f64.to_bits()),
            Value::Text("home".to_string()),
            Value::Optional(None),
            Value::Sequence(vec![some(Value::I64(1)), Value::Optional(None)]),
            Value::Sequence(vec![]),
        ],
    )
    .unwrap()
}

fn mixed_new() -> Record {
    Record::new(
        mixed_schema(),
        vec![
            Value::Bool(true),
            Value::I8(-3),
            Value::U64(12),
            Value::Float64(1.25f64.to_bits()),
            Value::Text("h\u{f6}me".to_string()),
            some(Value::I16(-2)),
            Value::Sequence(vec![Value::Optional(None), some(Value::I64(-9))]),
            Value::Sequence(vec![Value::Text("a".to_string()), Value::Text("bc".to_string())]),
        ],
    )
    .unwrap()
}

#[test]
fn scalars_are_archived_least_significant_byte_first() {
    assert_eq!(archived(&Value::Bool(false)), vec![0]);
    assert_eq!(archived(&Value::Bool(true)), vec![1]);
    assert_eq!(archived(&Value::U8(200)), vec![200]);
    assert_eq!(archived(&Value::I8(-1)), vec![255]);
    assert_eq!(archived(&Value::U16(0x1234)), vec![0x34, 0x12]);
    assert_eq!(archived(&Value::I16(-2)), vec![0xfe, 0xff]);
    assert_eq!(archived(&Value::U32(1)), vec![1, 0, 0, 0]);
    assert_eq!(archived(&Value::I32(-1)), vec![255, 255, 255, 255]);
    assert_eq!(archived(&Value::Float32(1.0f32.to_bits())), vec![0, 0, 0x80, 0x3f]);
    assert_eq!(archived(&Value::U64(0x0102030405060708)), vec![8, 7, 6, 5, 4, 3, 2, 1]);
    assert_eq!(archived(&Value::I64(-1)), vec![255; 8]);
    assert_eq!(
        archived(&Value::Float64(1.0f64.to_bits())),
        vec![0, 0, 0, 0, 0, 0, 0xf0, 0x3f]
    );
}

#[test]
fn text_is_archived_with_its_byte_length() {
    assert_eq!(archived(&Value::Text(String::new())), vec![0, 0, 0, 0, 0, 0, 0, 0]);
    assert_eq!(
        archived(&Value::Text("h\u{f6}".to_string())),
        vec![3, 0, 0, 0, 0, 0, 0, 0, b'h', 0xc3, 0xb6]
    );
}

#[test]
fn optionals_and_sequences_are_archived_with_tag_and_count() {
    assert_eq!(archived(&Value::Optional(None)), vec![0]);
    assert_eq!(archived(&some(Value::U8(7))), vec![1, 7]);
    assert_eq!(
        archived(&Value::Sequence(vec![Value::U16(1), Value::U16(2)])),
        vec![2, 0, 0, 0, 0, 0, 0, 0, 1, 0, 2, 0]
    );
    assert_eq!(
        archived(&Value::Sequence(vec![some(Value::U8(1)), Value::Optional(None)])),
        vec![2, 0, 0, 0, 0, 0, 0, 0, 1, 1, 0]
    );
}

#[test]
fn a_value_is_read_back_from_its_offset() {
    let mut blob = vec![9, 9, 9];
    let value = Value::Sequence(vec![some(Value::Text("x".to_string())), Value::Optional(None)]);
    write_value(&mut blob, &value);
    let end = blob.len();
    blob.push(42);
    let ty = sequence(optional(FieldType::Text));
    assert_eq!(read_value(&blob, 3, &ty), Some((value, end)));
    assert_eq!(read_value(&blob, 3, &FieldType::U8), Some((Value::U8(2), 4)));
}

#[test]
fn bytes_that_are_no_value_of_the_type_are_rejected() {
    assert_eq!(read_value(&[2], 0, &FieldType::Bool), None);
    assert_eq!(read_value(&[1, 0], 1, &FieldType::U16), None);
    assert_eq!(read_value(&[1, 0], 2, &FieldType::U8), None);
    assert_eq!(read_value(&[1, 0], 3, &FieldType::U8), None);
    assert_eq!(read_value(&[2, 0], 0, &optional(FieldType::U8)), None);
    assert_eq!(read_value(&[1], 0, &optional(FieldType::U8)), None);
    assert_eq!(read_value(&[1, 0, 0, 0, 0, 0, 0, 0, 0xff], 0, &FieldType::Text), None);
    assert_eq!(read_value(&[2, 0, 0, 0, 0, 0, 0, 0, b'a'], 0, &FieldType::Text), None);
    assert_eq!(read_value(&[255; 8], 0, &FieldType::Text), None);
    assert_eq!(read_value(&[255; 9], 0, &sequence(FieldType::U8)), None);
    assert_eq!(
        read_value(&[1, 0, 0, 0, 0, 0, 0, 0, b'a'], 0, &FieldType::Text),
        Some((Value::Text("a".to_string()), 9))
    );
}

#[test]
fn values_of_every_type_round_trip_in_both_forms() {
    let old = mixed_old();
    let new = mixed_new();

    let patch = old.diff(new.clone());
    let changed: Vec<u8> = patch.0.iter().map(|command| command.index).collect();
    assert_eq!(changed, vec![0, 2, 3, 4, 5, 6, 7]);
    let mut streamed = old.clone();
    assert_eq!(vhs_diff::PatchDeserializer::apply(&mut streamed, &patch.serialize()), Ok(()));
    assert_eq!(streamed, new);

    let archive = old.diff_rkyv(new.clone()).unwrap();
    let indices: Vec<u8> = archive.field_positions.iter().map(|entry| entry.index).collect();
    assert_eq!(indices, vec![0, 2, 3, 4, 5, 6, 7]);
    let offsets: Vec<u32> = archive.field_positions.iter().map(|entry| entry.position).collect();
    assert_eq!(offsets, vec![0, 2, 10, 18, 31, 34, 52]);
    assert_eq!(archive.patch_bytes.len(), 79);
    let mut patched = old.clone();
    assert_eq!(apply_rkyv_patch(&mut patched, &archive), Ok(()));
    assert_eq!(patched, new);
}

#[test]
fn diff_of_a_record_against_itself_is_empty() {
    let record = mixed_new();
    let patch = record.diff(record.clone());
    assert!(patch.0.is_empty());
    assert!(patch.serialize().is_empty());
    let archive = record.diff_rkyv(record.clone()).unwrap();
    assert!(archive.field_positions.is_empty());
    let mut target = mixed_old();
    assert_eq!(apply_rkyv_patch(&mut target, &archive), Ok(()));
    assert_eq!(target, mixed_old());
}

#[test]
fn floats_are_compared_by_their_bits() {
    let schema = || {
        Schema::new(vec![FieldSpec { name: "x".to_string(), ty: FieldType::Float64 }]).unwrap()
    };
    let nan = Record::new(schema(), vec![Value::Float64(f64::NAN.to_bits())]).unwrap();
    assert!(nan.diff(nan.clone()).0.is_empty());
    let zero = Record::new(schema(), vec![Value::Float64(0.0f64.to_bits())]).unwrap();
    let minus_zero = Record::new(schema(), vec![Value::Float64((-0.0f64).to_bits())]).unwrap();
    assert_eq!(zero.diff(minus_zero).0.len(), 1);
}

#[test]
fn applying_an_archived_patch_twice_changes_nothing_more() {
    let archive = mixed_old().diff_rkyv(mixed_new()).unwrap();
    let mut target = mixed_old();
    assert_eq!(apply_rkyv_patch(&mut target, &archive), Ok(()));
    let once = target.clone();
    assert_eq!(apply_rkyv_patch(&mut target, &archive), Ok(()));
    assert_eq!(target, once);
}

#[test]
fn archived_patch_errors_name_the_field() {
    let blob = archived(&Value::I8(5));
    let patch = |index: u8, position: u32| ArchivablePatch {
        field_positions: vec![FieldAndPosition { index, position }],
        patch_bytes: blob.clone(),
    };
    let mut target = mixed_old();
    assert_eq!(
        apply_rkyv_patch(&mut target, &patch(8, 0)),
        Err(DecodeError::IndexOutOfRange { index: 8 })
    );
    assert_eq!(
        apply_rkyv_patch(&mut target, &patch(1, 1)),
        Err(DecodeError::OffsetOutOfBounds { index: 1 })
    );
    assert_eq!(
        apply_rkyv_patch(&mut target, &patch(2, 0)),
        Err(DecodeError::TypeMismatch { index: 2 })
    );
    assert_eq!(
        apply_rkyv_patch(&mut target, &patch(0, 0)),
        Err(DecodeError::TypeMismatch { index: 0 })
    );
    assert_eq!(target, mixed_old());
    assert_eq!(apply_rkyv_patch(&mut target, &patch(1, 0)), Ok(()));
    assert_eq!(target.get(1), Some(&Value::I8(5)));
    assert_eq!(
        target.do_patch_from_byteslice(1, 0, &[0x80]),
        Ok(())
    );
    assert_eq!(target.get(1), Some(&Value::I8(-128)));
}

#[test]
fn a_failed_archived_patch_keeps_what_was_assigned_before() {
    let mut blob = archived(&Value::I8(5));
    blob.extend(archived(&Value::Bool(true)));
    let patch = ArchivablePatch {
        field_positions: vec![
            FieldAndPosition { index: 1, position: 0 },
            FieldAndPosition { index: 2, position: 1 },
            FieldAndPosition { index: 0, position: 1 },
        ],
        patch_bytes: blob,
    };
    let mut target = mixed_old();
    assert_eq!(
        apply_rkyv_patch(&mut target, &patch),
        Err(DecodeError::TypeMismatch { index: 2 })
    );
    assert_eq!(target.get(1), Some(&Value::I8(5)));
    assert_eq!(target.get(0), Some(&Value::Bool(false)));
}

#[test]
fn a_record_holds_one_value_of_the_declared_type_for_each_field() {
    assert_eq!(
        Record::new(mixed_schema(), vec![Value::Bool(true)]).err(),
        Some(RecordError::FieldCount { expected: 8, found: 1 })
    );
    let mut values = vec![
        Value::Bool(false),
        Value::I8(0),
        Value::U64(0),
        Value::Float64(0),
        Value::Text(String::new()),
        Value::Optional(None),
        Value::Sequence(vec![some(Value::I64(1)), some(Value::I32(1))]),
        Value::Sequence(vec![]),
    ];
    assert_eq!(
        Record::new(mixed_schema(), values.clone()).err(),
        Some(RecordError::TypeMismatch { index: 6 })
    );
    values[6] = Value::Sequence(vec![]);
    values[3] = Value::Float32(0);
    assert_eq!(
        Record::new(mixed_schema(), values).err(),
        Some(RecordError::TypeMismatch { index: 3 })
    );
}

#[test]
fn records_of_different_schemas_are_told_apart() {
    let other = Record::new(
        Schema::new(vec![FieldSpec { name: "flag".to_string(), ty: FieldType::Bool }]).unwrap(),
        vec![Value::Bool(false)],
    )
    .unwrap();
    assert!(mixed_old().same_schema(&mixed_new()));
    assert!(!mixed_old().same_schema(&other));
    assert!(mixed_old() != mixed_new());
    assert!(mixed_old() == mixed_old().snapshot());
    assert_eq!(mixed_old().schema().field_name(4), Some(&"name".to_string()));
    assert_eq!(mixed_old().schema().field_type(5), Some(&optional(FieldType::I16)));
    assert_eq!(mixed_old().schema().index_of("nothing"), None);
    assert_eq!(mixed_old().get(8), None);
}

#[test]
fn a_patch_sequence_holds_its_base_and_patches() {
    let patch = mixed_old().diff_rkyv(mixed_new()).unwrap();
    let sequence = ArchivablePatchSeq::from_base_and_patches(vec![1, 2, 3], vec![patch.clone()]);
    assert_eq!(sequence.base, vec![1, 2, 3]);
    assert_eq!(sequence.patches, vec![patch]);
}
