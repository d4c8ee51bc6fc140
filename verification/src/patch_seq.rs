//! Replaying a list of streaming patches.
use crate::{Patch, PatchDeserializer};
use crate::model::{Applied, DecodeError, RecordView};
use crate::replay::{
    collected, lemma_replay_beyond, lemma_replay_stops, replay, stream_step, streams, views,
};
use crate::value::{models, Value};
use std::ops::Range;
use vstd::prelude::*;

verus! {

/// Replays a list of streaming patches on a seed record and collects, into a vector, the
/// state that each patch with an index in a range leads to.
pub struct PatchesToVec<'a, T: 'a> {
    pub inner: &'a mut Vec<T>,
    pub seed: T,
    pub range: Range<usize>,
}

impl<'a, T: Patch> PatchesToVec<'a, T> {
    /// A replay that collects the states of all indices.
    pub fn new(seed: T, inner: &'a mut Vec<T>) -> (r: PatchesToVec<'a, T>)
        ensures
            r.seed == seed,
            r.range.start == 0,
            r.range.end == usize::MAX,
            *r.inner == *old(inner),
            *final(r.inner) == *final(inner),
    {
        PatchesToVec { inner, seed, range: usize::MIN..usize::MAX }
    }

    /// A replay that collects the states of the indices in `range`.
    pub fn new_range(seed: T, inner: &'a mut Vec<T>, range: Range<usize>) -> (r: PatchesToVec<
        'a,
        T,
    >)
        ensures
            r.seed == seed,
            r.range == range,
            *r.inner == *old(inner),
            *final(r.inner) == *final(inner),
    {
        PatchesToVec { inner, seed, range }
    }

    /// Replays `source` on `seed` and appends to `inner` the states of the indices in `range`.
    pub fn apply_range(
        seed: T,
        inner: &'a mut Vec<T>,
        range: Range<usize>,
        source: &[Vec<Value>],
    ) -> (r: Result<(), DecodeError>)
        requires
            seed@.well_formed(),
        ensures
            final(inner)@.len() >= old(inner)@.len(),
            final(inner)@.take(old(inner)@.len() as int) == old(inner)@,
            views(final(inner)@.skip(old(inner)@.len() as int)) == collected(
                seed@,
                streams(source@),
                stream_step(),
                range.start as int,
                range.end as int,
            ),
            r == replay(seed@, streams(source@), stream_step(), range.end as int).result(),
    {
        (PatchesToVec { inner, seed, range }).deserialize(source)
    }

    /// Replays `source` on the seed: applies the patches in order, from the first on, and
    /// after each patch whose index lies in the range appends a copy of the state it led to.
    /// Patches with an index at or beyond the end of the range are not applied. The first
    /// patch that fails ends the replay.
    pub fn deserialize(self, source: &[Vec<Value>]) -> (r: Result<(), DecodeError>)
        requires
            self.seed@.well_formed(),
        ensures
            final(self.inner)@.len() >= old(self.inner)@.len(),
            final(self.inner)@.take(old(self.inner)@.len() as int) == old(self.inner)@,
            views(final(self.inner)@.skip(old(self.inner)@.len() as int)) == collected(
                self.seed@,
                streams(source@),
                stream_step(),
                self.range.start as int,
                self.range.end as int,
            ),
            r == replay(
                self.seed@,
                streams(source@),
                stream_step(),
                self.range.end as int,
            ).result(),
    {
        let PatchesToVec { inner, seed, range } = self;
        let ghost start = seed@;
        let ghost kept = inner@;
        let ghost patches = streams(source@);
        let mut cur = seed;
        let mut i: usize = 0;
        assert(inner@.skip(kept.len() as int) =~= Seq::<T>::empty());
        assert(views(Seq::<T>::empty()) =~= Seq::<RecordView>::empty());
        while i < source.len() && i < range.end
            invariant
                *final(inner) == *final(self.inner),
                kept == old(self.inner)@,
                start == self.seed@,
                range == self.range,
                patches == streams(source@),
                i <= source.len(),
                i <= range.end,
                cur@.well_formed(),
                replay(start, patches, stream_step(), i as int) == Applied::done(cur@),
                inner@.len() >= kept.len(),
                inner@.take(kept.len() as int) == kept,
                views(inner@.skip(kept.len() as int)) == collected(
                    start,
                    patches,
                    stream_step(),
                    range.start as int,
                    i as int,
                ),
            decreases source.len() - i,
        {
            assert(patches[i as int] == models(source@[i as int]@));
            match PatchDeserializer::apply(&mut cur, source[i].as_slice()) {
                Ok(()) => {},
                Err(error) => {
                    proof {
                        lemma_replay_stops(
                            start,
                            patches,
                            stream_step(),
                            range.start as int,
                            i + 1,
                            range.end as int,
                        );
                    }
                    return Err(error);
                },
            }
            if range.start <= i {
                let copy = cur.snapshot();
                proof {
                    let before = inner@;
                    let after = inner@.push(copy);
                    assert(after.take(kept.len() as int) =~= before.take(kept.len() as int));
                    assert(views(after.skip(kept.len() as int)) =~= views(
                        before.skip(kept.len() as int),
                    ).push(copy@));
                }
                inner.push(copy);
            }
            i += 1;
        }
        proof {
            if i < range.end {
                lemma_replay_beyond(
                    start,
                    patches,
                    stream_step(),
                    range.start as int,
                    range.end as int,
                );
            }
        }
        Ok(())
    }
}

/// Applies the first patches of a list of streaming patches, up to a limit, to the record it
/// holds.
pub struct ApplyPatches<'a, T: 'a>(pub &'a mut T, pub usize);

impl<'a, T: Patch> ApplyPatches<'a, T> {
    pub fn new(val: &'a mut T, limit: usize) -> (r: ApplyPatches<'a, T>)
        ensures
            *r.0 == *old(val),
            *final(r.0) == *final(val),
            r.1 == limit,
    {
        ApplyPatches(val, limit)
    }

    /// Applies the first `limit` patches of `source` to `val`.
    pub fn apply(val: &'a mut T, limit: usize, source: &[Vec<Value>]) -> (r: Result<
        (),
        DecodeError,
    >)
        requires
            old(val)@.well_formed(),
        ensures
            final(val)@.well_formed(),
            final(val)@ == replay(old(val)@, streams(source@), stream_step(), limit as int).record,
            r == replay(old(val)@, streams(source@), stream_step(), limit as int).result(),
    {
        ApplyPatches(val, limit).deserialize(source)
    }

    /// Applies the patches of `source` to the held record, in order, from the first on:
    /// as many as the limit says, or all of them where there are fewer. The first patch that
    /// fails ends the replay; what was applied before it stays applied.
    pub fn deserialize(self, source: &[Vec<Value>]) -> (r: Result<(), DecodeError>)
        requires
            old(self.0)@.well_formed(),
        ensures
            final(self.0)@.well_formed(),
            final(self.0)@ == replay(
                old(self.0)@,
                streams(source@),
                stream_step(),
                self.1 as int,
            ).record,
            r == replay(old(self.0)@, streams(source@), stream_step(), self.1 as int).result(),
    {
        let ApplyPatches(target, limit) = self;
        let ghost start = target@;
        let ghost patches = streams(source@);
        let mut i: usize = 0;
        while i < source.len() && i < limit
            invariant
                *final(target) == *final(self.0),
                start == old(self.0)@,
                limit == self.1,
                patches == streams(source@),
                i <= source.len(),
                i <= limit,
                target@.well_formed(),
                replay(start, patches, stream_step(), i as int) == Applied::done(target@),
            decreases source.len() - i,
        {
            assert(patches[i as int] == models(source@[i as int]@));
            match PatchDeserializer::apply(target, source[i].as_slice()) {
                Ok(()) => {},
                Err(error) => {
                    proof {
                        lemma_replay_stops(start, patches, stream_step(), 0, i + 1, limit as int);
                    }
                    return Err(error);
                },
            }
            i += 1;
        }
        proof {
            if i < limit {
                lemma_replay_beyond(start, patches, stream_step(), 0, limit as int);
            }
        }
        Ok(())
    }
}

} // verus!
