//! Incremental synchronisation of flat records.
//!
//! A record is a fixed sequence of at most 256 typed fields. A patch names, by their field
//! indices, the fields of a record that changed and gives their new values. This crate
//! computes patches, applies them to a live record, and replays lists of them.
//!
//! A patch has two forms. The streaming form ([`OwnedPatch`]) is a flat sequence that
//! alternates a field index and a value, and is applied by one scan from front to back
//! ([`PatchDeserializer`]). The archived form ([`ArchivablePatch`]) is the archive of the whole
//! new record together with the offset of each changed field in it, and is applied by reading
//! each changed field at its offset ([`apply_rkyv_patch`]). Lists of patches of either form
//! are replayed up to a limit, or over a range of indices while the states on the way are
//! collected ([`patch_seq`], [`rkyv_seq`]).
//!
//! The contracts speak of the models in [`model`]; [`laws`] holds what follows from them.
pub mod archive;
pub mod differ;
pub mod laws;
pub mod layout;
pub mod model;
pub mod patch_seq;
pub mod record;
pub mod replay;
pub mod rkyv_seq;
pub mod schema;
pub mod stream;
pub mod value;

use crate::archive::{
    apply_archive, apply_archive_prefix, apply_archived_field, archive_blob, archive_positions,
    lemma_apply_archive_stops, ArchivedPatchView,
};
use crate::differ::{diff_entries, encode_patch, Entry};
use crate::model::{apply_command, Applied, DecodeError, RecordView};
use crate::stream::{apply_next, apply_stream, apply_stream_from, cursor_after_next, SeqReader};
use crate::value::{models, Value};
use vstd::prelude::*;

verus! {

/// A record that patches can be applied to: for each field index, how a new value of that
/// field is taken from a source and assigned.
pub trait Patch: Sized + View<V = RecordView> {
    /// Assigns `value` to the field `field_index`.
    fn do_patch_command(&mut self, field_index: u8, value: Value) -> (r: Result<(), DecodeError>)
        requires
            old(self)@.well_formed(),
        ensures
            final(self)@.well_formed(),
            final(self)@ == apply_command(old(self)@, field_index, value@).record,
            r == apply_command(old(self)@, field_index, value@).result(),
    ;

    /// Reads the next element of `seq` as the new value of the field `field_index` and assigns
    /// it.
    fn do_patch_from_seq(&mut self, field_index: u8, seq: &mut SeqReader<'_>) -> (r: Result<
        (),
        DecodeError,
    >)
        requires
            old(self)@.well_formed(),
        ensures
            final(self)@.well_formed(),
            final(seq).source() == old(seq).source(),
            final(seq).position() == cursor_after_next(
                old(self)@,
                field_index,
                old(seq).source(),
                old(seq).position(),
            ),
            final(self)@ == apply_next(
                old(self)@,
                field_index,
                old(seq).source(),
                old(seq).position(),
            ).record,
            r == apply_next(
                old(self)@,
                field_index,
                old(seq).source(),
                old(seq).position(),
            ).result(),
    ;

    /// Reads the archived value of the field `field_index` at offset `position` of `bytes`
    /// and assigns it.
    fn do_patch_from_byteslice(&mut self, field_index: u8, position: usize, bytes: &[u8]) -> (r:
        Result<(), DecodeError>)
        requires
            old(self)@.well_formed(),
        ensures
            final(self)@.well_formed(),
            final(self)@ == apply_archived_field(
                old(self)@,
                field_index,
                position as int,
                bytes@,
            ).record,
            r == apply_archived_field(old(self)@, field_index, position as int, bytes@).result(),
    ;

    /// A copy of this record.
    fn snapshot(&self) -> (r: Self)
        ensures
            r@ == self@,
    ;
}

/// Why a record could not be archived.
#[derive(Clone, Copy, Debug, PartialEq, Eq, Structural)]
pub enum EncodeError {
    /// The archive of the record is longer than a 32-bit offset can address.
    ArchiveTooLarge,
}

/// A record that can be compared, field by field, with another of the same schema.
pub trait Diff: Sized + View<V = RecordView> {
    /// The patch that turns `self` into `rhs`: one entry for each field whose value in `rhs`
    /// differs from that in `self`, in declaration order.
    fn diff(&self, rhs: Self) -> (r: OwnedPatch)
        requires
            self@.well_formed(),
            rhs@.well_formed(),
            self@.types == rhs@.types,
        ensures
            r@ == diff_entries(self@.fields, rhs@.fields),
    ;

    /// The archived patch that turns `self` into `rhs`: the archive of `rhs`, and the offset
    /// in it of each field whose value differs from that in `self`, in declaration order.
    fn diff_rkyv(&self, rhs: Self) -> (r: Result<ArchivablePatch, EncodeError>)
        requires
            self@.well_formed(),
            rhs@.well_formed(),
            self@.types == rhs@.types,
        ensures
            archive_blob(rhs@.fields).len() > u32::MAX ==> r == Err::<ArchivablePatch, EncodeError>(
                EncodeError::ArchiveTooLarge,
            ),
            archive_blob(rhs@.fields).len() <= u32::MAX ==> (r matches Ok(patch)
                && patch.field_positions@ == archive_positions(self@.fields, rhs@.fields)
                && patch.patch_bytes@ == archive_blob(rhs@.fields)),
    ;
}

/// One entry of a streaming patch.
#[derive(Debug, Clone, PartialEq)]
pub struct OwnedDiffCommand {
    pub index: u8,
    pub value: Value,
}

/// A streaming patch: its entries in the order in which they are applied.
#[derive(Debug, Clone, PartialEq)]
pub struct OwnedPatch(pub Vec<OwnedDiffCommand>);

/// The entries that `commands` stand for.
pub open spec fn entries_of(commands: Seq<OwnedDiffCommand>) -> Seq<Entry> {
    Seq::new(commands.len(), |i: int| Entry { index: commands[i].index, value: commands[i].value@ })
}

impl View for OwnedPatch {
    type V = Seq<Entry>;

    open spec fn view(&self) -> Seq<Entry> {
        entries_of(self.0@)
    }
}

impl std::ops::Deref for OwnedPatch {
    type Target = Vec<OwnedDiffCommand>;

    fn deref(&self) -> (r: &Vec<OwnedDiffCommand>)
        ensures
            *r == self.0,
    {
        &self.0
    }
}

impl OwnedPatch {
    /// The streaming form of this patch.
    pub fn serialize(&self) -> (r: Vec<Value>)
        ensures
            models(r@) == encode_patch(self@),
    {
        let mut out: Vec<Value> = Vec::new();
        let mut i: usize = 0;
        while i < self.0.len()
            invariant
                i <= self.0.len(),
                out.len() == 2 * i,
                forall|j: int|
                    0 <= j < out.len() ==> (#[trigger] out[j])@ == encode_patch(self@)[j],
            decreases self.0.len() - i,
        {
            let command = &self.0[i];
            out.push(Value::U8(command.index));
            out.push(command.value.clone());
            i += 1;
        }
        assert(models(out@) =~= encode_patch(self@));
        out
    }
}

/// A field index and the offset in an archive at which the archived form of the new value
/// of that field begins.
#[derive(Clone, Copy, Debug, PartialEq, Eq, Structural)]
pub struct FieldAndPosition {
    pub index: u8,
    pub position: u32,
}

/// An archived patch: the archive of the new record, and for each changed field its index
/// and the offset in the archive at which its new value begins.
#[derive(Debug, Clone, PartialEq, Eq)]
pub struct ArchivablePatch {
    pub field_positions: Vec<FieldAndPosition>,
    pub patch_bytes: Vec<u8>,
}

impl View for ArchivablePatch {
    type V = ArchivedPatchView;

    open spec fn view(&self) -> ArchivedPatchView {
        ArchivedPatchView {
            field_positions: self.field_positions@,
            patch_bytes: self.patch_bytes@,
        }
    }
}

/// Applies the archived patch `patch` to `start`: for each entry of the offset list, in
/// order, reads the value at the recorded offset and assigns it. The first entry that is
/// rejected ends the application; what was assigned before it stays assigned.
pub fn apply_rkyv_patch<T: Patch>(start: &mut T, patch: &ArchivablePatch) -> (r: Result<
    (),
    DecodeError,
>)
    requires
        old(start)@.well_formed(),
    ensures
        final(start)@.well_formed(),
        final(start)@ == apply_archive(
            old(start)@,
            patch.field_positions@,
            patch.patch_bytes@,
        ).record,
        r == apply_archive(old(start)@, patch.field_positions@, patch.patch_bytes@).result(),
{
    let ghost before = start@;
    let mut k: usize = 0;
    while k < patch.field_positions.len()
        invariant
            k <= patch.field_positions.len(),
            before == old(start)@,
            start@.well_formed(),
            apply_archive_prefix(
                before,
                patch.field_positions@,
                patch.patch_bytes@,
                k as int,
            ) == Applied::done(start@),
        decreases patch.field_positions.len() - k,
    {
        let entry = patch.field_positions[k];
        match start.do_patch_from_byteslice(
            entry.index,
            entry.position as usize,
            patch.patch_bytes.as_slice(),
        ) {
            Ok(()) => {},
            Err(error) => {
                proof {
                    lemma_apply_archive_stops(
                        before,
                        patch.field_positions@,
                        patch.patch_bytes@,
                        k + 1,
                        patch.field_positions@.len() as int,
                    );
                }
                return Err(error);
            },
        }
        k += 1;
    }
    Ok(())
}

/// A base record in archived form together with the patches that lead from it to each later
/// state, in order.
#[derive(Debug, Clone, PartialEq, Eq)]
pub struct ArchivablePatchSeq {
    pub base: Vec<u8>,
    pub patches: Vec<ArchivablePatch>,
}

impl ArchivablePatchSeq {
    /// The sequence with the archived base record `base` and the patches `patches`.
    pub fn from_base_and_patches(base: Vec<u8>, patches: Vec<ArchivablePatch>) -> (r:
        ArchivablePatchSeq)
        ensures
            r.base == base,
            r.patches == patches,
    {
        ArchivablePatchSeq { base, patches }
    }
}

/// Applies one streaming patch to the record it holds.
pub struct PatchDeserializer<'a, T: 'a>(pub &'a mut T);

impl<'a, T: Patch> PatchDeserializer<'a, T> {
    pub fn new(val: &'a mut T) -> (r: Self)
        ensures
            *r.0 == *old(val),
            *final(r.0) == *final(val),
    {
        PatchDeserializer(val)
    }

    /// Applies the patch stream `source` to `val`.
    pub fn apply(val: &'a mut T, source: &[Value]) -> (r: Result<(), DecodeError>)
        requires
            old(val)@.well_formed(),
        ensures
            final(val)@.well_formed(),
            final(val)@ == apply_stream(old(val)@, models(source@)).record,
            r == apply_stream(old(val)@, models(source@)).result(),
    {
        PatchDeserializer(val).deserialize(source)
    }

    /// Applies the patch stream `source` to the held record: reads a field index, then the
    /// value of that field, until the stream is exhausted. The first error ends the scan;
    /// what was assigned before it stays assigned.
    pub fn deserialize(self, source: &[Value]) -> (r: Result<(), DecodeError>)
        requires
            old(self.0)@.well_formed(),
        ensures
            final(self.0)@.well_formed(),
            final(self.0)@ == apply_stream(old(self.0)@, models(source@)).record,
            r == apply_stream(old(self.0)@, models(source@)).result(),
    {
        let PatchDeserializer(target) = self;
        let mut seq = SeqReader::new(source);
        loop
            invariant
                *final(target) == *final(self.0),
                target@.well_formed(),
                seq.source() == models(source@),
                0 <= seq.position() <= seq.source().len(),
                apply_stream(old(self.0)@, models(source@)) == apply_stream_from(
                    target@,
                    models(source@),
                    seq.position(),
                ),
            decreases seq.source().len() - seq.position(),
        {
            let at = seq.consumed();
            match seq.next_element() {
                None => {
                    return Ok(());
                },
                Some(Value::U8(index)) => {
                    match target.do_patch_from_seq(*index, &mut seq) {
                        Ok(()) => {},
                        Err(error) => {
                            return Err(error);
                        },
                    }
                },
                Some(_) => {
                    return Err(DecodeError::BadIndex { at });
                },
            }
        }
    }
}

} // verus!
