//! Replaying a list of patches: which state each prefix of the list leads to, and which
//! states a replay over a range of indices collects.
use crate::ArchivablePatch;
use crate::archive::{apply_archive, ArchivedPatchView};
use crate::model::{Applied, RecordView};
use crate::stream::apply_stream;
use crate::value::{models, Datum, Value};
use vstd::prelude::*;

verus! {

/// Applying the first `upto` of `patches` to `start`, one after the other, where `step` says
/// what applying one patch does. The first patch that fails ends the replay: the outcome is
/// then the outcome of that patch.
pub open spec fn replay<P>(
    start: RecordView,
    patches: Seq<P>,
    step: spec_fn(RecordView, P) -> Applied,
    upto: int,
) -> Applied
    decreases upto,
{
    if upto <= 0 {
        Applied::done(start)
    } else {
        let before = replay(start, patches, step, upto - 1);
        if before.error is Some || upto > patches.len() {
            before
        } else {
            step(before.record, patches[upto - 1])
        }
    }
}

/// The states that a replay of the patches below index `upto` collects for the indices from
/// `from` on: for each such index, the state that the patch of that index leads to, as long
/// as no patch has failed.
pub open spec fn collected<P>(
    start: RecordView,
    patches: Seq<P>,
    step: spec_fn(RecordView, P) -> Applied,
    from: int,
    upto: int,
) -> Seq<RecordView>
    decreases upto,
{
    if upto <= 0 {
        Seq::empty()
    } else {
        let before = collected(start, patches, step, from, upto - 1);
        let state = replay(start, patches, step, upto);
        if from < upto && upto <= patches.len() && state.error is None {
            before.push(state.record)
        } else {
            before
        }
    }
}

/// Applying all of `patches` to `start`, from the first on: the first patch to `start`, and
/// if that succeeds, the patches after it to the record that it gave.
pub open spec fn replay_all<P>(
    start: RecordView,
    patches: Seq<P>,
    step: spec_fn(RecordView, P) -> Applied,
) -> Applied
    decreases patches.len(),
{
    if patches.len() == 0 {
        Applied::done(start)
    } else {
        let first = step(start, patches[0]);
        if first.error is Some {
            first
        } else {
            replay_all(first.record, patches.skip(1), step)
        }
    }
}

/// The number of indices in the range from `from` up to `upto` that a list of `len` patches
/// has: `max(0, min(upto, len) - from)`.
pub open spec fn indices_in_range(from: int, upto: int, len: int) -> int {
    let end = if upto <= len {
        upto
    } else {
        len
    };
    if end <= from {
        0
    } else {
        end - from
    }
}

/// What applying one streaming patch does.
pub open spec fn stream_step() -> spec_fn(RecordView, Seq<Datum>) -> Applied {
    |record: RecordView, source: Seq<Datum>| apply_stream(record, source)
}

/// What applying one archived patch does.
pub open spec fn archive_step() -> spec_fn(RecordView, ArchivedPatchView) -> Applied {
    |record: RecordView, patch: ArchivedPatchView|
        apply_archive(record, patch.field_positions, patch.patch_bytes)
}

/// The models of a list of archived patches.
pub open spec fn archives(patches: Seq<ArchivablePatch>) -> Seq<ArchivedPatchView> {
    Seq::new(patches.len(), |i: int| patches[i]@)
}

/// The models of a list of patch streams.
pub open spec fn streams(sources: Seq<Vec<Value>>) -> Seq<Seq<Datum>> {
    Seq::new(sources.len(), |i: int| models(sources[i]@))
}

/// The models of a list of records.
pub open spec fn views<T: View<V = RecordView>>(records: Seq<T>) -> Seq<RecordView> {
    Seq::new(records.len(), |i: int| records[i]@)
}

/// Once a patch has failed, no later patch is applied and no later state is collected.
pub proof fn lemma_replay_stops<P>(
    start: RecordView,
    patches: Seq<P>,
    step: spec_fn(RecordView, P) -> Applied,
    from: int,
    failed: int,
    upto: int,
)
    requires
        failed <= upto,
        replay(start, patches, step, failed).error is Some,
    ensures
        replay(start, patches, step, upto) == replay(start, patches, step, failed),
        collected(start, patches, step, from, upto) == collected(
            start,
            patches,
            step,
            from,
            failed,
        ),
    decreases upto - failed,
{
    if failed < upto {
        lemma_replay_stops(start, patches, step, from, failed, upto - 1);
    }
}

/// Beyond the end of the list nothing is applied and nothing is collected.
pub proof fn lemma_replay_beyond<P>(
    start: RecordView,
    patches: Seq<P>,
    step: spec_fn(RecordView, P) -> Applied,
    from: int,
    upto: int,
)
    requires
        patches.len() <= upto,
    ensures
        replay(start, patches, step, upto) == replay(start, patches, step, patches.len() as int),
        collected(start, patches, step, from, upto) == collected(
            start,
            patches,
            step,
            from,
            patches.len() as int,
        ),
    decreases upto - patches.len(),
{
    if patches.len() < upto {
        lemma_replay_beyond(start, patches, step, from, upto - 1);
    }
}

} // verus!
