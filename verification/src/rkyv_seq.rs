//! Replaying a list of archived patches, given as such or as the bytes of an `rkyv`
//! archive.
use crate::{apply_rkyv_patch, ArchivablePatch, FieldAndPosition, Patch};
use crate::archive::ArchivedPatchView;
use crate::model::{Applied, DecodeError, RecordView};
use crate::replay::{
    archive_step, archives, collected, lemma_replay_beyond, lemma_replay_stops, replay, views,
};
use std::ops::Range;
use vstd::prelude::*;

verus! {

/// What `rkyv::from_bytes` makes of `bytes` when it reads them as the archive of a list of
/// patches, each a pair of an offset list and an archive, and each entry of an offset list a
/// pair of a field index and an offset: that list, or nothing where it rejects the bytes.
pub uninterp spec fn archived_patch_list(bytes: Seq<u8>) -> Option<
    Seq<(Seq<(u8, u32)>, Seq<u8>)>,
>;

/// The greatest number of bytes that an aligned buffer of `rkyv` holds.
pub open spec fn buffer_limit() -> int {
    isize::MAX - 15
}

/// The list of patches that `bytes` are the archive of: what `rkyv` makes of them, where
/// they fit an aligned buffer.
pub open spec fn patch_list_in(bytes: Seq<u8>) -> Option<Seq<(Seq<(u8, u32)>, Seq<u8>)>> {
    if bytes.len() <= buffer_limit() {
        archived_patch_list(bytes)
    } else {
        None
    }
}

/// Reads `bytes` as the archive of a list of patches.
///
/// Calls `rkyv::from_bytes`, which validates the bytes and then copies the archived value
/// out of them, on a copy of the bytes in an `rkyv::AlignedVec`, so that the outcome does not
/// depend on where the bytes lie in memory. `AlignedVec::with_capacity` panics on a capacity
/// beyond `isize::MAX - 15`, which the precondition leaves out. Nothing is claimed of the
/// result but that it is the one that is named above.
#[verifier::external_body]
fn read_patch_list(bytes: &[u8]) -> (r: Option<Vec<(Vec<(u8, u32)>, Vec<u8>)>>)
    requires
        bytes@.len() <= buffer_limit(),
    ensures
        r.deep_view() == archived_patch_list(bytes@),
{
    let mut aligned = rkyv::AlignedVec::with_capacity(bytes.len());
    aligned.extend_from_slice(bytes);
    rkyv::from_bytes::<Vec<(Vec<(u8, u32)>, Vec<u8>)>>(&aligned).ok()
}

/// The offset list that a list of pairs stands for.
pub open spec fn positions_of(pairs: Seq<(u8, u32)>) -> Seq<FieldAndPosition> {
    Seq::new(pairs.len(), |i: int| FieldAndPosition { index: pairs[i].0, position: pairs[i].1 })
}

/// The archived patches that a list of pairs stands for.
pub open spec fn patches_of(plain: Seq<(Seq<(u8, u32)>, Seq<u8>)>) -> Seq<ArchivedPatchView> {
    Seq::new(
        plain.len(),
        |i: int|
            ArchivedPatchView {
                field_positions: positions_of(plain[i].0),
                patch_bytes: plain[i].1,
            },
    )
}

/// The archived patches that a list of pairs stands for.
pub fn patches_from_pairs(plain: &Vec<(Vec<(u8, u32)>, Vec<u8>)>) -> (r: Vec<ArchivablePatch>)
    ensures
        archives(r@) == patches_of(plain.deep_view()),
{
    let mut patches: Vec<ArchivablePatch> = Vec::new();
    let mut i: usize = 0;
    while i < plain.len()
        invariant
            i <= plain.len(),
            patches.len() == i,
            forall|j: int|
                0 <= j < i ==> (#[trigger] patches[j])@ == patches_of(plain.deep_view())[j],
        decreases plain.len() - i,
    {
        let pairs = &plain[i].0;
        let mut positions: Vec<FieldAndPosition> = Vec::new();
        let mut k: usize = 0;
        while k < pairs.len()
            invariant
                k <= pairs.len(),
                positions.len() == k,
                forall|j: int|
                    0 <= j < k ==> #[trigger] positions[j] == positions_of(pairs.deep_view())[j],
            decreases pairs.len() - k,
        {
            positions.push(FieldAndPosition { index: pairs[k].0, position: pairs[k].1 });
            k += 1;
        }
        let blob = plain[i].1.clone();
        proof {
            assert(positions@ =~= positions_of(pairs.deep_view()));
            assert(blob@ =~= plain[i as int].1.deep_view());
            assert(plain.deep_view()[i as int].0 == pairs.deep_view());
            assert(plain.deep_view()[i as int].1 == plain[i as int].1.deep_view());
        }
        patches.push(ArchivablePatch { field_positions: positions, patch_bytes: blob });
        i += 1;
    }
    assert(archives(patches@) =~= patches_of(plain.deep_view()));
    patches
}

/// Replays a list of archived patches on a seed record and collects, into a vector, the
/// state that each patch with an index in a range leads to.
pub struct RkyvPatchesToVec<'a, T: 'a> {
    pub inner: &'a mut Vec<T>,
    pub seed: T,
    pub range: Range<usize>,
}

impl<'a, T: Patch> RkyvPatchesToVec<'a, T> {
    /// A replay that collects the states of all indices.
    pub fn new(seed: T, inner: &'a mut Vec<T>) -> (r: RkyvPatchesToVec<'a, T>)
        ensures
            r.seed == seed,
            r.range.start == 0,
            r.range.end == usize::MAX,
            *r.inner == *old(inner),
            *final(r.inner) == *final(inner),
    {
        RkyvPatchesToVec { inner, seed, range: usize::MIN..usize::MAX }
    }

    /// A replay that collects the states of the indices in `range`.
    pub fn new_range(seed: T, inner: &'a mut Vec<T>, range: Range<usize>) -> (r: RkyvPatchesToVec<
        'a,
        T,
    >)
        ensures
            r.seed == seed,
            r.range == range,
            *r.inner == *old(inner),
            *final(r.inner) == *final(inner),
    {
        RkyvPatchesToVec { inner, seed, range }
    }

    /// Reads `bytes` as the archive of a list of patches, replays them on `seed`, and appends
    /// to `inner` the states of the indices in `range`.
    pub fn apply_range(seed: T, inner: &'a mut Vec<T>, range: Range<usize>, bytes: &[u8]) -> (r:
        Result<(), DecodeError>)
        requires
            seed@.well_formed(),
        ensures
            match patch_list_in(bytes@) {
                Some(plain) => {
                    &&& final(inner)@.len() >= old(inner)@.len()
                    &&& final(inner)@.take(old(inner)@.len() as int) == old(inner)@
                    &&& views(final(inner)@.skip(old(inner)@.len() as int)) == collected(
                        seed@,
                        patches_of(plain),
                        archive_step(),
                        range.start as int,
                        range.end as int,
                    )
                    &&& r == replay(
                        seed@,
                        patches_of(plain),
                        archive_step(),
                        range.end as int,
                    ).result()
                },
                None => {
                    &&& final(inner)@ == old(inner)@
                    &&& r == Err::<(), DecodeError>(DecodeError::MalformedArchive)
                },
            },
    {
        (RkyvPatchesToVec { inner, seed, range }).apply(bytes)
    }

    /// Reads `bytes` as the archive of a list of patches and replays them on the seed, as
    /// [`RkyvPatchesToVec::apply_patches`] does. Bytes that are no such archive are rejected
    /// and nothing is appended.
    pub fn apply(self, bytes: &[u8]) -> (r: Result<(), DecodeError>)
        requires
            self.seed@.well_formed(),
        ensures
            match patch_list_in(bytes@) {
                Some(plain) => {
                    &&& final(self.inner)@.len() >= old(self.inner)@.len()
                    &&& final(self.inner)@.take(old(self.inner)@.len() as int) == old(
                        self.inner,
                    )@
                    &&& views(final(self.inner)@.skip(old(self.inner)@.len() as int))
                        == collected(
                        self.seed@,
                        patches_of(plain),
                        archive_step(),
                        self.range.start as int,
                        self.range.end as int,
                    )
                    &&& r == replay(
                        self.seed@,
                        patches_of(plain),
                        archive_step(),
                        self.range.end as int,
                    ).result()
                },
                None => {
                    &&& final(self.inner)@ == old(self.inner)@
                    &&& r == Err::<(), DecodeError>(DecodeError::MalformedArchive)
                },
            },
    {
        if bytes.len() > isize::MAX as usize - 15 {
            return Err(DecodeError::MalformedArchive);
        }
        match read_patch_list(bytes) {
            Some(plain) => {
                let patches = patches_from_pairs(&plain);
                self.apply_patches(patches.as_slice())
            },
            None => Err(DecodeError::MalformedArchive),
        }
    }

    /// Replays `patches` on the seed: applies the patches in order, from the first on, and
    /// after each patch whose index lies in the range appends a copy of the state it led to.
    /// Patches with an index at or beyond the end of the range are not applied. The first
    /// patch that fails ends the replay.
    pub fn apply_patches(self, patches: &[ArchivablePatch]) -> (r: Result<(), DecodeError>)
        requires
            self.seed@.well_formed(),
        ensures
            final(self.inner)@.len() >= old(self.inner)@.len(),
            final(self.inner)@.take(old(self.inner)@.len() as int) == old(self.inner)@,
            views(final(self.inner)@.skip(old(self.inner)@.len() as int)) == collected(
                self.seed@,
                archives(patches@),
                archive_step(),
                self.range.start as int,
                self.range.end as int,
            ),
            r == replay(
                self.seed@,
                archives(patches@),
                archive_step(),
                self.range.end as int,
            ).result(),
    {
        let RkyvPatchesToVec { inner, seed, range } = self;
        let ghost start = seed@;
        let ghost kept = inner@;
        let mut cur = seed;
        let mut i: usize = 0;
        assert(inner@.skip(kept.len() as int) =~= Seq::<T>::empty());
        assert(views(Seq::<T>::empty()) =~= Seq::<RecordView>::empty());
        while i < patches.len() && i < range.end
            invariant
                *final(inner) == *final(self.inner),
                kept == old(self.inner)@,
                start == self.seed@,
                range == self.range,
                i <= patches.len(),
                i <= range.end,
                cur@.well_formed(),
                replay(start, archives(patches@), archive_step(), i as int) == Applied::done(cur@),
                inner@.len() >= kept.len(),
                inner@.take(kept.len() as int) == kept,
                views(inner@.skip(kept.len() as int)) == collected(
                    start,
                    archives(patches@),
                    archive_step(),
                    range.start as int,
                    i as int,
                ),
            decreases patches.len() - i,
        {
            match apply_rkyv_patch(&mut cur, &patches[i]) {
                Ok(()) => {},
                Err(error) => {
                    proof {
                        lemma_replay_stops(
                            start,
                            archives(patches@),
                            archive_step(),
                            range.start as int,
                            i + 1,
                            range.end as int,
                        );
                    }
                    return Err(error);
                },
            }
            if range.start <= i {
                let copy = cur.snapshot();
                proof {
                    let before = inner@;
                    let after = inner@.push(copy);
                    assert(after.take(kept.len() as int) =~= before.take(kept.len() as int));
                    assert(views(after.skip(kept.len() as int)) =~= views(
                        before.skip(kept.len() as int),
                    ).push(copy@));
                }
                inner.push(copy);
            }
            i += 1;
        }
        proof {
            if i < range.end {
                lemma_replay_beyond(
                    start,
                    archives(patches@),
                    archive_step(),
                    range.start as int,
                    range.end as int,
                );
            }
        }
        Ok(())
    }
}

/// Applies the first patches of a list of archived patches, up to a limit, to the record it
/// holds.
pub struct ApplyRkyvPatches<'a, T: 'a>(pub &'a mut T, pub usize);

impl<'a, T: Patch> ApplyRkyvPatches<'a, T> {
    pub fn new(val: &'a mut T, limit: usize) -> (r: ApplyRkyvPatches<'a, T>)
        ensures
            *r.0 == *old(val),
            *final(r.0) == *final(val),
            r.1 == limit,
    {
        ApplyRkyvPatches(val, limit)
    }

    /// Reads `bytes` as the archive of a list of patches and applies the first `limit` of
    /// them to `val`.
    pub fn apply(val: &'a mut T, limit: usize, bytes: &[u8]) -> (r: Result<(), DecodeError>)
        requires
            old(val)@.well_formed(),
        ensures
            final(val)@.well_formed(),
            match patch_list_in(bytes@) {
                Some(plain) => {
                    &&& final(val)@ == replay(
                        old(val)@,
                        patches_of(plain),
                        archive_step(),
                        limit as int,
                    ).record
                    &&& r == replay(
                        old(val)@,
                        patches_of(plain),
                        archive_step(),
                        limit as int,
                    ).result()
                },
                None => {
                    &&& final(val)@ == old(val)@
                    &&& r == Err::<(), DecodeError>(DecodeError::MalformedArchive)
                },
            },
    {
        ApplyRkyvPatches(val, limit).run(bytes)
    }

    /// Reads `bytes` as the archive of a list of patches and applies them to the held
    /// record, as [`ApplyRkyvPatches::run_patches`] does. Bytes that are no such archive are
    /// rejected and the record stays as it is.
    pub fn run(self, bytes: &[u8]) -> (r: Result<(), DecodeError>)
        requires
            old(self.0)@.well_formed(),
        ensures
            final(self.0)@.well_formed(),
            match patch_list_in(bytes@) {
                Some(plain) => {
                    &&& final(self.0)@ == replay(
                        old(self.0)@,
                        patches_of(plain),
                        archive_step(),
                        self.1 as int,
                    ).record
                    &&& r == replay(
                        old(self.0)@,
                        patches_of(plain),
                        archive_step(),
                        self.1 as int,
                    ).result()
                },
                None => {
                    &&& final(self.0)@ == old(self.0)@
                    &&& r == Err::<(), DecodeError>(DecodeError::MalformedArchive)
                },
            },
    {
        if bytes.len() > isize::MAX as usize - 15 {
            return Err(DecodeError::MalformedArchive);
        }
        match read_patch_list(bytes) {
            Some(plain) => {
                let patches = patches_from_pairs(&plain);
                self.run_patches(patches.as_slice())
            },
            None => Err(DecodeError::MalformedArchive),
        }
    }

    /// Applies `patches` to the held record, in order, from the first on:
    /// as many as the limit says, or all of them where there are fewer. The first patch that
    /// fails ends the replay; what was applied before it stays applied.
    pub fn run_patches(self, patches: &[ArchivablePatch]) -> (r: Result<(), DecodeError>)
        requires
            old(self.0)@.well_formed(),
        ensures
            final(self.0)@.well_formed(),
            final(self.0)@ == replay(
                old(self.0)@,
                archives(patches@),
                archive_step(),
                self.1 as int,
            ).record,
            r == replay(old(self.0)@, archives(patches@), archive_step(), self.1 as int).result(),
    {
        let ApplyRkyvPatches(target, limit) = self;
        let ghost start = target@;
        let mut i: usize = 0;
        while i < patches.len() && i < limit
            invariant
                *final(target) == *final(self.0),
                start == old(self.0)@,
                limit == self.1,
                i <= patches.len(),
                i <= limit,
                target@.well_formed(),
                replay(start, archives(patches@), archive_step(), i as int) == Applied::done(
                    target@,
                ),
            decreases patches.len() - i,
        {
            match apply_rkyv_patch(target, &patches[i]) {
                Ok(()) => {},
                Err(error) => {
                    proof {
                        lemma_replay_stops(
                            start,
                            archives(patches@),
                            archive_step(),
                            0,
                            i + 1,
                            limit as int,
                        );
                    }
                    return Err(error);
                },
            }
            i += 1;
        }
        proof {
            if i < limit {
                lemma_replay_beyond(start, archives(patches@), archive_step(), 0, limit as int);
            }
        }
        Ok(())
    }
}

} // verus!
