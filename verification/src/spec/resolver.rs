//! Resolvers: what tells which record spec applies, from the data of a record.
use vstd::prelude::*;
use crate::names::AsName;

verus! {

/// Tells the record spec by an id field: the spec whose id field has a default equal to
/// the value that the data holds in that field.
pub struct IdFieldResolver<T: AsName> {
    id_field: T,
}

impl<T: AsName> IdFieldResolver<T> {
    /// The name of the id field.
    pub closed spec fn id_spec(&self) -> Seq<char> {
        self.id_field.name_of()
    }

    pub fn new_with_field(id_field: T) -> (r: Self)
        ensures
            r.id_spec() == id_field.name_of(),
    {
        IdFieldResolver { id_field }
    }

    pub fn id_field(&self) -> (r: &str)
        ensures
            r@ == self.id_spec(),
    {
        self.id_field.as_name()
    }
}

impl IdFieldResolver<&'static str> {
    /// A resolver by the field named `$id`.
    pub fn new() -> (r: Self)
        ensures
            r.id_spec() == "$id"@,
    {
        Self::new_with_field("$id")
    }
}

/// Tells no record spec.
pub struct NoneResolver;

} // verus!
