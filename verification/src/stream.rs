//! The streaming form of a patch: a flat sequence that alternates a field index and the new
//! value of that field, read from front to back until it is exhausted.
use crate::model::{apply_command, Applied, DecodeError, RecordView};
use crate::value::{models, Datum, Value};
use vstd::prelude::*;

verus! {

/// Reading the value of field `index` from position `at` of `source` and assigning it.
/// The index is checked before anything is read, so that an index the record does not have
/// never moves the cursor.
pub open spec fn apply_next(record: RecordView, index: u8, source: Seq<Datum>, at: int) -> Applied {
    if index as int >= record.types.len() {
        Applied::failed(record, DecodeError::IndexOutOfRange { index })
    } else if at >= source.len() {
        Applied::failed(record, DecodeError::Truncated { index })
    } else {
        apply_command(record, index, source[at])
    }
}

/// Where the cursor stands after `apply_next`: one element further if a value was read.
pub open spec fn cursor_after_next(
    record: RecordView,
    index: u8,
    source: Seq<Datum>,
    at: int,
) -> int {
    if index as int >= record.types.len() || at >= source.len() {
        at
    } else {
        at + 1
    }
}

/// Applying the part of the patch stream `source` that starts at position `at`.
pub open spec fn apply_stream_from(record: RecordView, source: Seq<Datum>, at: int) -> Applied
    decreases source.len() - at,
{
    if at < 0 || at >= source.len() {
        Applied::done(record)
    } else {
        match source[at] {
            Datum::U8(index) => {
                let step = apply_next(record, index, source, at + 1);
                if step.error is Some {
                    step
                } else {
                    apply_stream_from(step.record, source, at + 2)
                }
            },
            _ => Applied::failed(record, DecodeError::BadIndex { at: at as usize }),
        }
    }
}

/// Applying the patch stream `source` to `record`.
pub open spec fn apply_stream(record: RecordView, source: Seq<Datum>) -> Applied {
    apply_stream_from(record, source, 0)
}

/// A cursor over a patch stream.
pub struct SeqReader<'a> {
    items: &'a [Value],
    at: usize,
}

impl<'a> SeqReader<'a> {
    #[verifier::type_invariant]
    spec fn inv(self) -> bool {
        self.at <= self.items@.len()
    }

    /// The whole stream that is read.
    pub closed spec fn source(self) -> Seq<Datum> {
        models(self.items@)
    }

    /// The position of the next element to read.
    pub closed spec fn position(self) -> int {
        self.at as int
    }

    /// A cursor at the start of `items`.
    pub fn new(items: &'a [Value]) -> (r: SeqReader<'a>)
        ensures
            r.source() == models(items@),
            r.position() == 0,
    {
        SeqReader { items, at: 0 }
    }

    /// How many elements have been read.
    pub fn consumed(&self) -> (r: usize)
        ensures
            r == self.position(),
            0 <= self.position() <= self.source().len(),
    {
        proof {
            use_type_invariant(self);
        }
        self.at
    }

    /// The next element, if one is left.
    pub fn next_element(&mut self) -> (r: Option<&'a Value>)
        ensures
            final(self).source() == old(self).source(),
            0 <= old(self).position() <= old(self).source().len(),
            match r {
                Some(value) => {
                    &&& old(self).position() < old(self).source().len()
                    &&& value@ == old(self).source()[old(self).position()]
                    &&& final(self).position() == old(self).position() + 1
                },
                None => {
                    &&& old(self).position() == old(self).source().len()
                    &&& final(self).position() == old(self).position()
                },
            },
    {
        proof {
            use_type_invariant(&*self);
        }
        if self.at < self.items.len() {
            let value = &self.items[self.at];
            self.at = self.at + 1;
            Some(value)
        } else {
            None
        }
    }
}

} // verus!
