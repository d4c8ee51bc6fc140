//! What a diff of two records holds, and what its streaming form is.
use crate::model::{apply_command, Applied, RecordView};
use crate::value::Datum;
use vstd::prelude::*;

verus! {

/// One entry of a patch: a field index and the new value of that field.
pub struct Entry {
    pub index: u8,
    pub value: Datum,
}

/// The entries of the diff of `old` against `new` for the fields below `upto`: one entry for
/// each field whose two values differ, in declaration order, with the value in `new`.
pub open spec fn diff_prefix(old: Seq<Datum>, new: Seq<Datum>, upto: int) -> Seq<Entry>
    decreases upto,
{
    if upto <= 0 {
        Seq::empty()
    } else {
        let before = diff_prefix(old, new, upto - 1);
        if old[upto - 1] != new[upto - 1] {
            before.push(Entry { index: (upto - 1) as u8, value: new[upto - 1] })
        } else {
            before
        }
    }
}

/// The entries of the diff of `old` against `new`.
pub open spec fn diff_entries(old: Seq<Datum>, new: Seq<Datum>) -> Seq<Entry> {
    diff_prefix(old, new, new.len() as int)
}

/// The streaming form of a patch: index, value, index, value, and so on, twice as many
/// elements as the patch has entries.
pub open spec fn encode_patch(entries: Seq<Entry>) -> Seq<Datum> {
    Seq::new(
        2 * entries.len(),
        |i: int|
            if i % 2 == 0 {
                Datum::U8(entries[i / 2].index)
            } else {
                entries[i / 2].value
            },
    )
}

/// Assigning the first `upto` of `entries` to `record`, in order, up to the first that is
/// rejected.
pub open spec fn apply_entries(record: RecordView, entries: Seq<Entry>, upto: int) -> Applied
    decreases upto,
{
    if upto <= 0 {
        Applied::done(record)
    } else {
        let before = apply_entries(record, entries, upto - 1);
        if before.error is Some || upto > entries.len() {
            before
        } else {
            apply_command(before.record, entries[upto - 1].index, entries[upto - 1].value)
        }
    }
}

} // verus!
