//! The schema of a record type: its fields, in declaration order, each with a name and a
//! declared type. The position of a field in the schema is its field index.
use crate::model::MAX_FIELDS;
use crate::value::FieldType;
use vstd::prelude::*;

verus! {

/// One field of a schema.
#[derive(Debug)]
pub struct FieldSpec {
    pub name: String,
    pub ty: FieldType,
}

/// The declared types of `fields`, in order.
pub open spec fn types_of(fields: Seq<FieldSpec>) -> Seq<FieldType> {
    Seq::new(fields.len(), |i: int| fields[i].ty)
}

/// The names of `fields`, in order.
pub open spec fn names_of(fields: Seq<FieldSpec>) -> Seq<Seq<char>> {
    Seq::new(fields.len(), |i: int| fields[i].name@)
}

/// Why a list of fields is not a schema.
#[derive(Debug, Clone, Copy, PartialEq, Eq, Structural)]
pub enum SchemaError {
    /// The list has `count` fields, more than a one-byte field index can tell apart.
    TooManyFields { count: usize },
}

/// A schema: at most [`MAX_FIELDS`] fields.
#[derive(Debug)]
pub struct Schema {
    fields: Vec<FieldSpec>,
}

impl Schema {
    #[verifier::type_invariant]
    spec fn inv(self) -> bool {
        self.fields@.len() <= MAX_FIELDS
    }

    /// The declared type of each field, in declaration order.
    pub closed spec fn types(self) -> Seq<FieldType> {
        types_of(self.fields@)
    }

    /// The name of each field, in declaration order.
    pub closed spec fn names(self) -> Seq<Seq<char>> {
        names_of(self.fields@)
    }

    /// The schema with the fields `fields`, which is rejected when there are more than
    /// [`MAX_FIELDS`] of them.
    pub fn new(fields: Vec<FieldSpec>) -> (r: Result<Schema, SchemaError>)
        ensures
            match r {
                Ok(schema) => {
                    &&& fields@.len() <= MAX_FIELDS
                    &&& schema.types() == types_of(fields@)
                    &&& schema.names() == names_of(fields@)
                },
                Err(error) => {
                    &&& fields@.len() > MAX_FIELDS
                    &&& error == SchemaError::TooManyFields { count: fields.len() }
                },
            },
    {
        if fields.len() > MAX_FIELDS {
            Err(SchemaError::TooManyFields { count: fields.len() })
        } else {
            Ok(Schema { fields })
        }
    }

    /// The number of fields.
    pub fn len(&self) -> (r: usize)
        ensures
            r == self.types().len(),
            r == self.names().len(),
            r <= MAX_FIELDS,
    {
        proof {
            use_type_invariant(self);
        }
        self.fields.len()
    }

    /// The declared type of the field `index`, if there is such a field.
    pub fn field_type(&self, index: u8) -> (r: Option<&FieldType>)
        ensures
            match r {
                Some(ty) => index < self.types().len() && *ty == self.types()[index as int],
                None => index >= self.types().len(),
            },
    {
        if (index as usize) < self.fields.len() {
            Some(&self.fields[index as usize].ty)
        } else {
            None
        }
    }

    /// The name of the field `index`, if there is such a field.
    pub fn field_name(&self, index: u8) -> (r: Option<&String>)
        ensures
            match r {
                Some(name) => index < self.names().len() && name@ == self.names()[index as int],
                None => index >= self.names().len(),
            },
    {
        if (index as usize) < self.fields.len() {
            Some(&self.fields[index as usize].name)
        } else {
            None
        }
    }

    /// The index of the first field named `name`, if there is one.
    pub fn index_of(&self, name: &str) -> (r: Option<u8>)
        ensures
            match r {
                Some(index) => {
                    &&& index < self.names().len()
                    &&& self.names()[index as int] == name@
                    &&& forall|j: int| 0 <= j < index ==> self.names()[j] != name@
                },
                None => forall|j: int| 0 <= j < self.names().len() ==> self.names()[j] != name@,
            },
    {
        proof {
            use_type_invariant(self);
        }
        let wanted = name.to_owned();
        let mut i: usize = 0;
        while i < self.fields.len()
            invariant
                i <= self.fields.len(),
                self.fields@.len() <= MAX_FIELDS,
                wanted@ == name@,
                forall|j: int| 0 <= j < i ==> self.names()[j] != name@,
            decreases self.fields.len() - i,
        {
            if self.fields[i].name == wanted {
                return Some(i as u8);
            }
            i += 1;
        }
        None
    }

    /// Whether the two schemas have the same fields: the same names and the same types, in
    /// the same order.
    pub fn same(&self, other: &Schema) -> (r: bool)
        ensures
            r == (self.types() == other.types() && self.names() == other.names()),
    {
        if self.fields.len() != other.fields.len() {
            return false;
        }
        let mut i: usize = 0;
        while i < self.fields.len()
            invariant
                i <= self.fields.len(),
                self.fields.len() == other.fields.len(),
                forall|j: int|
                    0 <= j < i ==> self.types()[j] == other.types()[j] && self.names()[j]
                        == other.names()[j],
            decreases self.fields.len() - i,
        {
            if !self.fields[i].ty.same(&other.fields[i].ty) {
                assert(self.types()[i as int] != other.types()[i as int]);
                return false;
            }
            if !(self.fields[i].name == other.fields[i].name) {
                assert(self.names()[i as int] != other.names()[i as int]);
                return false;
            }
            i += 1;
        }
        assert(self.types() =~= other.types());
        assert(self.names() =~= other.names());
        true
    }

    /// A copy of this schema.
    pub fn duplicate(&self) -> (r: Schema)
        ensures
            r.types() == self.types(),
            r.names() == self.names(),
    {
        proof {
            use_type_invariant(self);
        }
        let mut fields: Vec<FieldSpec> = Vec::new();
        let mut i: usize = 0;
        while i < self.fields.len()
            invariant
                i <= self.fields.len(),
                fields.len() == i,
                forall|j: int|
                    0 <= j < i ==> (#[trigger] fields[j]).ty == self.fields[j].ty && fields[j].name@
                        == self.fields[j].name@,
            decreases self.fields.len() - i,
        {
            let field = &self.fields[i];
            fields.push(FieldSpec { name: field.name.clone(), ty: field.ty.clone() });
            i += 1;
        }
        assert(types_of(fields@) =~= types_of(self.fields@));
        assert(names_of(fields@) =~= names_of(self.fields@));
        Schema { fields }
    }
}

impl Clone for Schema {
    fn clone(&self) -> (r: Schema)
        ensures
            r.types() == self.types(),
            r.names() == self.names(),
    {
        self.duplicate()
    }
}

impl PartialEq for Schema {
    fn eq(&self, other: &Schema) -> (r: bool) {
        self.same(other)
    }
}

impl vstd::std_specs::cmp::PartialEqSpecImpl for Schema {
    open spec fn obeys_eq_spec() -> bool {
        true
    }

    open spec fn eq_spec(&self, other: &Schema) -> bool {
        self.types() == other.types() && self.names() == other.names()
    }
}

} // verus!
