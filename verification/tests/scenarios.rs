use vhs_diff::{
    apply_rkyv_patch, ArchivablePatch, Diff, FieldAndPosition, OwnedDiffCommand, OwnedPatch, Patch,
    PatchDeserializer,
};
use vhs_diff::model::DecodeError;
use vhs_diff::patch_seq::{ApplyPatches, PatchesToVec};
use vhs_diff::record::Record;
use vhs_diff::rkyv_seq::{ApplyRkyvPatches, RkyvPatchesToVec};
use vhs_diff::schema::{FieldSpec, Schema, SchemaError};
use vhs_diff::value::{FieldType, Value};

fn game_schema() -> Schema {
    Schema::new(vec![
        FieldSpec { name: "id".to_string(), ty: FieldType::Text },
        FieldSpec { name: "day".to_string(), ty: FieldType::I16 },
        FieldSpec { name: "season".to_string(), ty: FieldType::I16 },
        FieldSpec { name: "finalized".to_string(), ty: FieldType::Bool },
    ])
    .unwrap()
}

fn game(id: &str, day: i16, season: i16, finalized: bool) -> Record {
    Record::new(
        game_schema(),
        vec![
            Value::Text(id.to_string()),
            Value::I16(day),
            Value::I16(season),
            Value::Bool(finalized),
        ],
    )
    .unwrap()
}

fn day_patches() -> Vec<OwnedPatch> {
    let mut patches = Vec::new();
    let mut previous = game("1", 0, 0, false);
    for day in 1..=3 {
        let next = game("1", day, 0, false);
        patches.push(previous.diff(next.clone()));
        previous = next;
    }
    patches
}

fn day_archives() -> Vec<ArchivablePatch> {
    let mut patches = Vec::new();
    let mut previous = game("1", 0, 0, false);
    for day in 1..=3 {
        let next = game("1", day, 0, false);
        patches.push(previous.diff_rkyv(next.clone()).unwrap());
        previous = next;
    }
    patches
}

#[test]
fn diff_of_one_changed_field_has_one_entry() {
    let base = game("1", 0, 0, false);
    let new = game("1", 1, 0, false);
    assert_eq!(game_schema().index_of("day"), Some(1));
    let patch = base.diff(new);
    assert_eq!(patch, OwnedPatch(vec![OwnedDiffCommand { index: 1, value: Value::I16(1) }]));
    assert_eq!(patch.len(), 1);
    assert_eq!(patch.first().map(|command| command.index), Some(1));
}

#[test]
fn streaming_form_alternates_index_and_value() {
    let base = game("1", 0, 0, false);
    let patch = base.diff(game("1", 1, 0, false));
    let stream = patch.serialize();
    assert_eq!(stream.len(), 2);
    assert_eq!(stream, vec![Value::U8(1), Value::I16(1)]);
}

#[test]
fn applying_the_stream_gives_the_new_record() {
    let base = game("1", 0, 0, false);
    let stream = base.diff(game("1", 1, 0, false)).serialize();
    let mut target = base.clone();
    assert_eq!(PatchDeserializer::apply(&mut target, &stream), Ok(()));
    assert_eq!(target, game("1", 1, 0, false));
    assert_eq!(target.get(1), Some(&Value::I16(1)));
    assert_eq!(target.get(0), Some(&Value::Text("1".to_string())));
}

#[test]
fn bounded_apply_with_limit_two_gives_day_two() {
    let source: Vec<Vec<Value>> = day_patches().iter().map(|p| p.serialize()).collect();
    let mut target = game("1", 0, 0, false);
    assert_eq!(ApplyPatches::apply(&mut target, 2, &source), Ok(()));
    assert_eq!(target, game("1", 2, 0, false));
}

#[test]
fn range_collect_one_to_three_gives_days_two_and_three() {
    let source: Vec<Vec<Value>> = day_patches().iter().map(|p| p.serialize()).collect();
    let mut states = Vec::new();
    let seed = game("1", 0, 0, false);
    assert_eq!(PatchesToVec::apply_range(seed, &mut states, 1..3, &source), Ok(()));
    assert_eq!(states, vec![game("1", 2, 0, false), game("1", 3, 0, false)]);
}

#[test]
fn archived_bounded_apply_with_limit_two_gives_day_two() {
    let patches = day_archives();
    let mut target = game("1", 0, 0, false);
    assert_eq!(ApplyRkyvPatches::new(&mut target, 2).run_patches(&patches), Ok(()));
    assert_eq!(target, game("1", 2, 0, false));
}

#[test]
fn archived_range_collect_one_to_three_gives_days_two_and_three() {
    let patches = day_archives();
    let mut states = Vec::new();
    let seed = game("1", 0, 0, false);
    let replay = RkyvPatchesToVec::new_range(seed, &mut states, 1..3);
    assert_eq!(replay.apply_patches(&patches), Ok(()));
    assert_eq!(states, vec![game("1", 2, 0, false), game("1", 3, 0, false)]);
}

#[test]
fn schema_of_256_fields_is_valid() {
    let fields: Vec<FieldSpec> =
        (0..256).map(|i| FieldSpec { name: format!("f{}", i), ty: FieldType::U8 }).collect();
    let schema = Schema::new(fields).unwrap();
    assert_eq!(schema.len(), 256);
    assert_eq!(schema.index_of("f255"), Some(255));
    assert_eq!(schema.field_type(255), Some(&FieldType::U8));
    let values: Vec<Value> = (0..256).map(|i| Value::U8(i as u8)).collect();
    let mut record = Record::new(schema, values).unwrap();
    assert_eq!(record.do_patch_command(255, Value::U8(7)), Ok(()));
    assert_eq!(record.get(255), Some(&Value::U8(7)));
}

#[test]
fn schema_of_257_fields_is_rejected() {
    let fields: Vec<FieldSpec> =
        (0..257).map(|i| FieldSpec { name: format!("f{}", i), ty: FieldType::U8 }).collect();
    assert_eq!(Schema::new(fields).err(), Some(SchemaError::TooManyFields { count: 257 }));
}

#[test]
fn archived_diff_of_one_changed_field() {
    let base = game("1", 0, 0, false);
    let patch = base.diff_rkyv(game("1", 1, 0, false)).unwrap();
    assert_eq!(patch.field_positions, vec![FieldAndPosition { index: 1, position: 9 }]);
    assert_eq!(patch.patch_bytes, vec![1, 0, 0, 0, 0, 0, 0, 0, b'1', 1, 0, 0, 0, 0]);
    let mut target = base.clone();
    assert_eq!(apply_rkyv_patch(&mut target, &patch), Ok(()));
    assert_eq!(target, game("1", 1, 0, false));
}

#[test]
fn stream_errors_name_the_field() {
    let mut target = game("1", 0, 0, false);
    assert_eq!(
        PatchDeserializer::apply(&mut target, &[Value::U8(1)]),
        Err(DecodeError::Truncated { index: 1 })
    );
    assert_eq!(
        PatchDeserializer::apply(&mut target, &[Value::U8(1), Value::Bool(true)]),
        Err(DecodeError::TypeMismatch { index: 1 })
    );
    assert_eq!(
        PatchDeserializer::apply(&mut target, &[Value::U8(4), Value::I16(1)]),
        Err(DecodeError::IndexOutOfRange { index: 4 })
    );
    assert_eq!(
        PatchDeserializer::apply(&mut target, &[Value::U8(4)]),
        Err(DecodeError::IndexOutOfRange { index: 4 })
    );
    assert_eq!(
        PatchDeserializer::apply(
            &mut target,
            &[Value::U8(1), Value::I16(5), Value::I16(2), Value::I16(1)]
        ),
        Err(DecodeError::BadIndex { at: 2 })
    );
    assert_eq!(target, game("1", 5, 0, false));
}

#[test]
fn a_failed_stream_keeps_what_was_assigned_before() {
    let mut target = game("1", 0, 0, false);
    let source = vec![
        Value::U8(2),
        Value::I16(9),
        Value::U8(3),
        Value::I16(1),
        Value::U8(1),
        Value::I16(4),
    ];
    assert_eq!(
        PatchDeserializer::new(&mut target).deserialize(&source),
        Err(DecodeError::TypeMismatch { index: 3 })
    );
    assert_eq!(target, game("1", 0, 9, false));
}

#[test]
fn the_last_entry_for_a_field_wins() {
    let mut target = game("1", 0, 0, false);
    let source = vec![Value::U8(1), Value::I16(4), Value::U8(1), Value::I16(6)];
    assert_eq!(PatchDeserializer::apply(&mut target, &source), Ok(()));
    assert_eq!(target, game("1", 6, 0, false));
}

#[test]
fn an_empty_stream_changes_nothing() {
    let mut target = game("1", 3, 2, true);
    assert_eq!(PatchDeserializer::apply(&mut target, &[]), Ok(()));
    assert_eq!(target, game("1", 3, 2, true));
}
