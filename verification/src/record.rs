//! A record of a schema that is known at run time, with the per-index dispatch for patching
//! and diffing it.
use crate::{
    entries_of, ArchivablePatch, Diff, EncodeError, FieldAndPosition, OwnedDiffCommand, OwnedPatch,
    Patch,
};
use crate::archive::{archive_positions_prefix, lemma_archive_offset_bound};
use crate::differ::{diff_prefix, Entry};
use crate::layout::{encode_items, lemma_decode_conforms, read_value, write_value};
use crate::model::{DecodeError, MAX_FIELDS, RecordView};
use crate::schema::Schema;
use crate::stream::SeqReader;
use crate::value::{conforms, models, Datum, Value};
use vstd::prelude::*;

verus! {

/// Why a list of values is not a record of a schema.
#[derive(Debug, Clone, Copy, PartialEq, Eq, Structural)]
pub enum RecordError {
    /// The schema has `expected` fields and `found` values were given.
    FieldCount { expected: usize, found: usize },
    /// The value given for field `index` is not of the declared type of that field.
    TypeMismatch { index: u8 },
}

/// A record: one value for each field of its schema, each of the declared type of its field.
#[derive(Debug)]
pub struct Record {
    schema: Schema,
    values: Vec<Value>,
}

impl View for Record {
    type V = RecordView;

    closed spec fn view(&self) -> RecordView {
        RecordView { types: self.schema.types(), fields: models(self.values@) }
    }
}

impl Record {
    /// The names of the fields of this record, in declaration order.
    pub closed spec fn names(self) -> Seq<Seq<char>> {
        self.schema.names()
    }

    /// The record of `schema` with the field values `values`, in declaration order. It is
    /// rejected when the number of values is not the number of fields, and else when a value
    /// is not of the declared type of its field; the error names the first such field.
    pub fn new(schema: Schema, values: Vec<Value>) -> (r: Result<Record, RecordError>)
        ensures
            match r {
                Ok(record) => {
                    &&& record@ == RecordView { types: schema.types(), fields: models(values@) }
                    &&& record@.well_formed()
                    &&& record.names() == schema.names()
                },
                Err(RecordError::FieldCount { expected, found }) => {
                    &&& values@.len() != schema.types().len()
                    &&& expected == schema.types().len()
                    &&& found == values@.len()
                },
                Err(RecordError::TypeMismatch { index }) => {
                    &&& values@.len() == schema.types().len()
                    &&& index < values@.len()
                    &&& !conforms(values@[index as int]@, schema.types()[index as int])
                    &&& forall|j: int|
                        0 <= j < index ==> conforms(#[trigger] values@[j]@, schema.types()[j])
                },
            },
    {
        let count = schema.len();
        if values.len() != count {
            return Err(RecordError::FieldCount { expected: count, found: values.len() });
        }
        let mut i: usize = 0;
        while i < count
            invariant
                i <= count,
                count == values.len(),
                count == schema.types().len(),
                count <= MAX_FIELDS,
                forall|j: int| 0 <= j < i ==> conforms(#[trigger] values@[j]@, schema.types()[j]),
            decreases count - i,
        {
            let ty = schema.field_type(i as u8);
            match ty {
                Some(ty) => {
                    if !values[i].conforms_to(ty) {
                        return Err(RecordError::TypeMismatch { index: i as u8 });
                    }
                },
                None => {},
            }
            i += 1;
        }
        assert forall|j: int| 0 <= j < models(values@).len() implies conforms(
            #[trigger] models(values@)[j],
            schema.types()[j],
        ) by {
            assert(conforms(values@[j]@, schema.types()[j]));
        }
        Ok(Record { schema, values })
    }

    /// The schema of this record.
    pub fn schema(&self) -> (r: &Schema)
        ensures
            r.types() == self@.types,
            r.names() == self.names(),
    {
        &self.schema
    }

    /// The value of the field `index`, if there is such a field.
    pub fn get(&self, index: u8) -> (r: Option<&Value>)
        ensures
            match r {
                Some(value) => index < self@.fields.len() && value@ == self@.fields[index as int],
                None => index >= self@.fields.len(),
            },
    {
        if (index as usize) < self.values.len() {
            Some(&self.values[index as usize])
        } else {
            None
        }
    }

    /// Whether this record has one value for each field of its schema, each of the declared
    /// type of its field. A record that [`Record::new`] made has, and patching keeps it so.
    pub fn is_well_formed(&self) -> (r: bool)
        ensures
            r == self@.well_formed(),
    {
        let count = self.schema.len();
        if self.values.len() != count {
            return false;
        }
        let mut i: usize = 0;
        while i < count
            invariant
                i <= count,
                count == self.values.len(),
                count == self.schema.types().len(),
                count <= MAX_FIELDS,
                forall|j: int| 0 <= j < i ==> conforms(#[trigger] self@.fields[j], self@.types[j]),
            decreases count - i,
        {
            match self.schema.field_type(i as u8) {
                Some(ty) => {
                    if !self.values[i].conforms_to(ty) {
                        assert(!conforms(self@.fields[i as int], self@.types[i as int]));
                        return false;
                    }
                },
                None => {},
            }
            i += 1;
        }
        true
    }

    /// Whether the two records are of the same schema.
    pub fn same_schema(&self, other: &Record) -> (r: bool)
        ensures
            r == (self@.types == other@.types && self.names() == other.names()),
    {
        self.schema.same(&other.schema)
    }

    /// Whether the two records are of the same schema and hold the same values.
    pub fn same(&self, other: &Record) -> (r: bool)
        ensures
            r == (self@ == other@ && self.names() == other.names()),
    {
        if !self.schema.same(&other.schema) {
            return false;
        }
        if self.values.len() != other.values.len() {
            assert(self@.fields.len() != other@.fields.len());
            return false;
        }
        let mut i: usize = 0;
        while i < self.values.len()
            invariant
                i <= self.values.len(),
                self.values.len() == other.values.len(),
                forall|j: int| 0 <= j < i ==> self@.fields[j] == other@.fields[j],
            decreases self.values.len() - i,
        {
            if !self.values[i].same(&other.values[i]) {
                assert(self@.fields[i as int] != other@.fields[i as int]);
                return false;
            }
            i += 1;
        }
        assert(self@.fields =~= other@.fields);
        true
    }

    /// A copy of this record.
    pub fn duplicate(&self) -> (r: Record)
        ensures
            r@ == self@,
            r.names() == self.names(),
    {
        let mut values: Vec<Value> = Vec::new();
        let mut i: usize = 0;
        while i < self.values.len()
            invariant
                i <= self.values.len(),
                values.len() == i,
                forall|j: int| 0 <= j < i ==> (#[trigger] values[j])@ == self.values[j]@,
            decreases self.values.len() - i,
        {
            values.push(self.values[i].clone());
            i += 1;
        }
        assert(models(values@) =~= models(self.values@));
        Record { schema: self.schema.clone(), values }
    }
}

impl Clone for Record {
    fn clone(&self) -> (r: Record)
        ensures
            r@ == self@,
            r.names() == self.names(),
    {
        self.duplicate()
    }
}

impl PartialEq for Record {
    fn eq(&self, other: &Record) -> (r: bool) {
        self.same(other)
    }
}

impl vstd::std_specs::cmp::PartialEqSpecImpl for Record {
    open spec fn obeys_eq_spec() -> bool {
        true
    }

    open spec fn eq_spec(&self, other: &Record) -> bool {
        self@ == other@ && self.names() == other.names()
    }
}

impl Patch for Record {
    fn do_patch_command(&mut self, field_index: u8, value: Value) -> (r: Result<(), DecodeError>) {
        let at = field_index as usize;
        match self.schema.field_type(field_index) {
            None => Err(DecodeError::IndexOutOfRange { index: field_index }),
            Some(ty) => {
                if value.conforms_to(ty) {
                    self.values.set(at, value);
                    proof {
                        assert(self@.fields =~= old(self)@.fields.update(at as int, value@));
                    }
                    Ok(())
                } else {
                    Err(DecodeError::TypeMismatch { index: field_index })
                }
            },
        }
    }

    fn do_patch_from_seq(&mut self, field_index: u8, seq: &mut SeqReader<'_>) -> (r: Result<
        (),
        DecodeError,
    >) {
        if field_index as usize >= self.values.len() {
            return Err(DecodeError::IndexOutOfRange { index: field_index });
        }
        match seq.next_element() {
            None => Err(DecodeError::Truncated { index: field_index }),
            Some(value) => self.do_patch_command(field_index, value.clone()),
        }
    }

    fn do_patch_from_byteslice(&mut self, field_index: u8, position: usize, bytes: &[u8]) -> (r:
        Result<(), DecodeError>) {
        let at = field_index as usize;
        match self.schema.field_type(field_index) {
            None => Err(DecodeError::IndexOutOfRange { index: field_index }),
            Some(ty) => {
                if position >= bytes.len() {
                    return Err(DecodeError::OffsetOutOfBounds { index: field_index });
                }
                match read_value(bytes, position, ty) {
                    None => Err(DecodeError::TypeMismatch { index: field_index }),
                    Some((value, _)) => {
                        proof {
                            lemma_decode_conforms(bytes@, position as int, *ty);
                        }
                        self.values.set(at, value);
                        proof {
                            assert(self@.fields =~= old(self)@.fields.update(at as int, value@));
                        }
                        Ok(())
                    },
                }
            },
        }
    }

    fn snapshot(&self) -> (r: Record) {
        self.duplicate()
    }
}

impl Diff for Record {
    fn diff(&self, rhs: Record) -> (r: OwnedPatch) {
        let ghost old_fields = self@.fields;
        let ghost new_fields = rhs@.fields;
        let mut commands: Vec<OwnedDiffCommand> = Vec::new();
        let mut i: usize = 0;
        while i < self.values.len()
            invariant
                i <= self.values.len(),
                self.values.len() == rhs.values.len(),
                self.values.len() <= MAX_FIELDS,
                old_fields == models(self.values@),
                new_fields == models(rhs.values@),
                entries_of(commands@) == diff_prefix(old_fields, new_fields, i as int),
            decreases self.values.len() - i,
        {
            if !self.values[i].same(&rhs.values[i]) {
                let command = OwnedDiffCommand { index: i as u8, value: rhs.values[i].clone() };
                proof {
                    let entry = Entry { index: i as u8, value: new_fields[i as int] };
                    assert(entries_of(commands@.push(command)) =~= entries_of(commands@).push(
                        entry,
                    ));
                }
                commands.push(command);
            }
            i += 1;
        }
        OwnedPatch(commands)
    }

    fn diff_rkyv(&self, rhs: Record) -> (r: Result<ArchivablePatch, EncodeError>) {
        let ghost old_fields = self@.fields;
        let ghost new_fields = rhs@.fields;
        let mut positions: Vec<FieldAndPosition> = Vec::new();
        let mut blob: Vec<u8> = Vec::new();
        let mut i: usize = 0;
        assert(new_fields.take(0) =~= Seq::<Datum>::empty());
        while i < self.values.len()
            invariant
                i <= self.values.len(),
                self.values.len() == rhs.values.len(),
                self.values.len() <= MAX_FIELDS,
                old_fields == models(self.values@),
                new_fields == models(rhs.values@),
                blob@ == encode_items(new_fields.take(i as int)),
                positions@ == archive_positions_prefix(old_fields, new_fields, i as int),
            decreases self.values.len() - i,
        {
            let offset = blob.len();
            proof {
                lemma_archive_offset_bound(new_fields, i as int);
            }
            if offset > u32::MAX as usize {
                return Err(EncodeError::ArchiveTooLarge);
            }
            write_value(&mut blob, &rhs.values[i]);
            proof {
                let next = new_fields.take(i + 1);
                assert(next.drop_last() =~= new_fields.take(i as int));
                assert(next.last() == rhs.values[i as int]@);
            }
            if !self.values[i].same(&rhs.values[i]) {
                positions.push(FieldAndPosition { index: i as u8, position: offset as u32 });
            }
            i += 1;
        }
        assert(new_fields.take(new_fields.len() as int) =~= new_fields);
        if blob.len() > u32::MAX as usize {
            return Err(EncodeError::ArchiveTooLarge);
        }
        Ok(ArchivablePatch { field_positions: positions, patch_bytes: blob })
    }
}

} // verus!
