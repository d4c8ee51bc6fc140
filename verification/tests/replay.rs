use vhs_diff::{ArchivablePatch, Diff, PatchDeserializer};
use vhs_diff::model::DecodeError;
use vhs_diff::patch_seq::{ApplyPatches, PatchesToVec};
use vhs_diff::record::Record;
use vhs_diff::rkyv_seq::{patches_from_pairs, ApplyRkyvPatches, RkyvPatchesToVec};
use vhs_diff::schema::{FieldSpec, Schema};
use vhs_diff::value::{FieldType, Value};

fn counter(count: u32, label: &str) -> Record {
    let schema = Schema::new(vec![
        FieldSpec { name: "count".to_string(), ty: FieldType::U32 },
        FieldSpec { name: "label".to_string(), ty: FieldType::Text },
    ])
    .unwrap();
    Record::new(schema, vec![Value::U32(count), Value::Text(label.to_string())]).unwrap()
}

fn states() -> Vec<Record> {
    vec![
        counter(0, "a"),
        counter(1, "a"),
        counter(1, "b"),
        counter(2, "c"),
        counter(2, "c"),
        counter(5, "c"),
    ]
}

fn streams() -> Vec<Vec<Value>> {
    states().windows(2).map(|pair| pair[0].diff(pair[1].clone()).serialize()).collect()
}

fn archives() -> Vec<ArchivablePatch> {
    states().windows(2).map(|pair| pair[0].diff_rkyv(pair[1].clone()).unwrap()).collect()
}

fn pairs(patches: &[ArchivablePatch]) -> Vec<(Vec<(u8, u32)>, Vec<u8>)> {
    patches
        .iter()
        .map(|patch| {
            let positions =
                patch.field_positions.iter().map(|entry| (entry.index, entry.position)).collect();
            (positions, patch.patch_bytes.clone())
        })
        .collect()
}

fn archive_bytes(patches: &[ArchivablePatch]) -> Vec<u8> {
    rkyv::to_bytes::<_, 1024>(&pairs(patches)).unwrap().to_vec()
}

#[test]
fn bounded_apply_stops_at_the_limit() {
    for limit in 0..8 {
        let mut target = counter(0, "a");
        assert_eq!(ApplyPatches::apply(&mut target, limit, &streams()), Ok(()));
        assert_eq!(target, states()[limit.min(5)]);
        let mut target = counter(0, "a");
        assert_eq!(ApplyRkyvPatches::new(&mut target, limit).run_patches(&archives()), Ok(()));
        assert_eq!(target, states()[limit.min(5)]);
    }
}

#[test]
fn bounded_apply_of_all_is_the_linear_replay() {
    let mut linear = counter(0, "a");
    for stream in streams() {
        assert_eq!(PatchDeserializer::apply(&mut linear, &stream), Ok(()));
    }
    let mut bounded = counter(0, "a");
    assert_eq!(ApplyPatches::new(&mut bounded, 5).deserialize(&streams()), Ok(()));
    assert_eq!(bounded, linear);
    let mut collected = Vec::new();
    assert_eq!(
        PatchesToVec::apply_range(counter(0, "a"), &mut collected, 0..5, &streams()),
        Ok(())
    );
    assert_eq!(collected.len(), 5);
    assert_eq!(collected.last(), Some(&linear));
}

#[test]
fn range_collect_gives_one_state_for_each_index_in_the_range() {
    let cases: Vec<(usize, usize, usize)> = vec![
        (0, 5, 5),
        (0, 0, 0),
        (2, 2, 0),
        (3, 2, 0),
        (1, 3, 2),
        (4, 9, 1),
        (5, 9, 0),
        (7, 9, 0),
        (0, usize::MAX, 5),
    ];
    for (start, end, count) in cases {
        let mut collected = Vec::new();
        assert_eq!(
            PatchesToVec::new_range(counter(0, "a"), &mut collected, start..end)
                .deserialize(&streams()),
            Ok(())
        );
        assert_eq!(collected.len(), count);
        for (offset, state) in collected.iter().enumerate() {
            let mut bounded = counter(0, "a");
            assert_eq!(ApplyPatches::apply(&mut bounded, start + offset + 1, &streams()), Ok(()));
            assert_eq!(state, &bounded);
        }
        let mut archived = Vec::new();
        assert_eq!(
            RkyvPatchesToVec::new_range(counter(0, "a"), &mut archived, start..end)
                .apply_patches(&archives()),
            Ok(())
        );
        assert_eq!(archived, collected);
    }
}

#[test]
fn range_collect_of_all_indices_keeps_what_the_vector_held() {
    let mut collected = vec![counter(9, "z")];
    assert_eq!(PatchesToVec::new(counter(0, "a"), &mut collected).deserialize(&streams()), Ok(()));
    assert_eq!(collected.len(), 6);
    assert_eq!(collected[0], counter(9, "z"));
    assert_eq!(collected[1..], states()[1..]);
    let mut archived = vec![counter(9, "z")];
    assert_eq!(
        RkyvPatchesToVec::new(counter(0, "a"), &mut archived).apply_patches(&archives()),
        Ok(())
    );
    assert_eq!(archived, collected);
}

#[test]
fn patches_at_or_beyond_the_end_of_the_range_are_not_applied() {
    let mut source = streams();
    source[3] = vec![Value::U8(9), Value::U32(0)];
    let mut collected = Vec::new();
    assert_eq!(
        PatchesToVec::apply_range(counter(0, "a"), &mut collected, 1..3, &source),
        Ok(())
    );
    assert_eq!(collected, vec![counter(1, "b"), counter(2, "c")]);
    let mut target = counter(0, "a");
    assert_eq!(ApplyPatches::apply(&mut target, 3, &source), Ok(()));
    assert_eq!(target, counter(2, "c"));
}

#[test]
fn the_first_patch_that_fails_ends_the_replay() {
    let mut source = streams();
    source[2] = vec![Value::U8(1), Value::Text("x".to_string()), Value::U8(0)];
    let mut collected = Vec::new();
    assert_eq!(
        PatchesToVec::apply_range(counter(0, "a"), &mut collected, 0..5, &source),
        Err(DecodeError::Truncated { index: 0 })
    );
    assert_eq!(collected, vec![counter(1, "a"), counter(1, "b")]);
    let mut target = counter(0, "a");
    assert_eq!(
        ApplyPatches::apply(&mut target, 5, &source),
        Err(DecodeError::Truncated { index: 0 })
    );
    assert_eq!(target, counter(1, "x"));
}

#[test]
fn applying_a_stream_twice_changes_nothing_more() {
    let stream = vec![
        Value::U8(0),
        Value::U32(4),
        Value::U8(1),
        Value::Text("q".to_string()),
        Value::U8(0),
        Value::U32(6),
        Value::U8(1),
        Value::U32(1),
    ];
    let mut target = counter(0, "a");
    let first = PatchDeserializer::apply(&mut target, &stream);
    assert_eq!(first, Err(DecodeError::TypeMismatch { index: 1 }));
    let once = target.clone();
    assert_eq!(once, counter(6, "q"));
    assert_eq!(PatchDeserializer::apply(&mut target, &stream), first);
    assert_eq!(target, once);
}

#[test]
fn pairs_stand_for_archived_patches() {
    assert_eq!(patches_from_pairs(&pairs(&archives())), archives());
    assert_eq!(patches_from_pairs(&Vec::new()), Vec::new());
}

#[test]
fn patches_are_replayed_from_the_bytes_of_an_archive() {
    let bytes = archive_bytes(&archives());
    let mut target = counter(0, "a");
    assert_eq!(ApplyRkyvPatches::apply(&mut target, 3, &bytes), Ok(()));
    assert_eq!(target, counter(2, "c"));
    let mut target = counter(0, "a");
    assert_eq!(ApplyRkyvPatches::new(&mut target, usize::MAX).run(&bytes), Ok(()));
    assert_eq!(target, counter(5, "c"));
    let mut collected = Vec::new();
    assert_eq!(
        RkyvPatchesToVec::apply_range(counter(0, "a"), &mut collected, 1..4, &bytes),
        Ok(())
    );
    assert_eq!(collected, states()[2..5]);
    let mut all = Vec::new();
    assert_eq!(RkyvPatchesToVec::new(counter(0, "a"), &mut all).apply(&bytes), Ok(()));
    assert_eq!(all, states()[1..]);
}

#[test]
fn the_bytes_of_an_archive_may_start_at_any_address() {
    let bytes = archive_bytes(&archives());
    let mut shifted = vec![0u8];
    shifted.extend_from_slice(&bytes);
    let mut target = counter(0, "a");
    assert_eq!(ApplyRkyvPatches::apply(&mut target, 5, &shifted[1..]), Ok(()));
    assert_eq!(target, counter(5, "c"));
}

#[test]
fn bytes_that_are_no_archive_are_rejected() {
    let mut target = counter(0, "a");
    assert_eq!(
        ApplyRkyvPatches::apply(&mut target, 3, &[1, 2, 3]),
        Err(DecodeError::MalformedArchive)
    );
    assert_eq!(target, counter(0, "a"));
    let mut collected = vec![counter(9, "z")];
    assert_eq!(
        RkyvPatchesToVec::apply_range(counter(0, "a"), &mut collected, 0..4, &[]),
        Err(DecodeError::MalformedArchive)
    );
    assert_eq!(collected, vec![counter(9, "z")]);
    let mut bytes = archive_bytes(&archives());
    let last = bytes.len() - 1;
    bytes[last] = 0xff;
    bytes[last - 1] = 0xff;
    assert_eq!(
        ApplyRkyvPatches::apply(&mut target, 3, &bytes),
        Err(DecodeError::MalformedArchive)
    );
}

#[test]
fn an_archived_patch_in_a_list_may_fail() {
    let mut patches = archives();
    patches[1].field_positions[0].position = 1000;
    let bytes = archive_bytes(&patches);
    let mut target = counter(0, "a");
    assert_eq!(
        ApplyRkyvPatches::apply(&mut target, 5, &bytes),
        Err(DecodeError::OffsetOutOfBounds { index: 1 })
    );
    assert_eq!(target, counter(1, "a"));
}
