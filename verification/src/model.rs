//! The mathematical model of a record and of the outcome of patching one.
use crate::value::{conforms, Datum, FieldType};
use vstd::prelude::*;

verus! {

/// The greatest number of fields a record may have: a field index is one byte.
pub const MAX_FIELDS: usize = 256;

/// The model of a record: the declared type and the current value of each field, in
/// declaration order. The position of a field in the two sequences is its field index.
pub struct RecordView {
    pub types: Seq<FieldType>,
    pub fields: Seq<Datum>,
}

impl RecordView {
    /// A record has at most [`MAX_FIELDS`] fields, and each field holds a value of its
    /// declared type.
    pub open spec fn well_formed(self) -> bool {
        &&& self.types.len() <= MAX_FIELDS
        &&& self.fields.len() == self.types.len()
        &&& forall|i: int|
            0 <= i < self.fields.len() ==> conforms(#[trigger] self.fields[i], self.types[i])
    }

    /// This record with the field `index` set to `value`.
    pub open spec fn assign(self, index: int, value: Datum) -> RecordView {
        RecordView { types: self.types, fields: self.fields.update(index, value) }
    }
}

/// Why a patch could not be applied.
#[derive(Debug, Clone, Copy, PartialEq, Eq, Structural)]
pub enum DecodeError {
    /// The input ends after the index of field `index`, before a value for it.
    Truncated { index: u8 },
    /// The value given for field `index` is not of the declared type of that field.
    TypeMismatch { index: u8 },
    /// The record has no field `index`.
    IndexOutOfRange { index: u8 },
    /// The element at position `at` of a patch stream stands where a field index is expected
    /// and is not a byte.
    BadIndex { at: usize },
    /// The offset recorded for field `index` lies outside the archive.
    OffsetOutOfBounds { index: u8 },
    /// The bytes are not an archived list of patches.
    MalformedArchive,
}

/// What applying a patch, or a part of one, leaves behind: the record as it then stands, and
/// the error that stopped the application, if one did. A failed application keeps the fields
/// that were assigned before the failure.
pub struct Applied {
    pub record: RecordView,
    pub error: Option<DecodeError>,
}

impl Applied {
    pub open spec fn done(record: RecordView) -> Applied {
        Applied { record, error: None }
    }

    pub open spec fn failed(record: RecordView, error: DecodeError) -> Applied {
        Applied { record, error: Some(error) }
    }

    /// The result that an operation with this outcome returns.
    pub open spec fn result(self) -> Result<(), DecodeError> {
        match self.error {
            None => Ok(()),
            Some(error) => Err(error),
        }
    }
}

/// Assigning `value` to the field `index` of `record`: rejected when the record has no such
/// field, or when the value is not of the field's declared type.
pub open spec fn apply_command(record: RecordView, index: u8, value: Datum) -> Applied {
    if index as int >= record.types.len() {
        Applied::failed(record, DecodeError::IndexOutOfRange { index })
    } else if !conforms(value, record.types[index as int]) {
        Applied::failed(record, DecodeError::TypeMismatch { index })
    } else {
        Applied::done(record.assign(index as int, value))
    }
}

} // verus!
