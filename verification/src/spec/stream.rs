//! Streams of record spec names given in advance.
use vstd::prelude::*;
use crate::error::BoxedError;
use crate::names::{AsName, NameMap, lookup};
use crate::spec::RecordSpec;

verus! {

/// Whether a stream of names going from `before` to `after` answered `r` (the name as
/// text): the name at its place, as the key of its record spec, or none past the end of
/// the names, or an error when no record spec has that name; it moves on by one.
pub open spec fn vec_stream_next<T: AsName>(
    before: VecStream<T>,
    after: VecStream<T>,
    record_specs: Seq<(Seq<char>, RecordSpec)>,
    r: Result<Option<Seq<char>>, BoxedError>,
) -> bool {
    &&& after.at() == before.at() + 1
    &&& after.names() == before.names()
    &&& before.at() >= before.names().len() ==> (r matches Ok(None))
    &&& before.at() < before.names().len() ==> match lookup(record_specs, before.names()[before.at() as int]) {
        Some(_) => (r matches Ok(Some(name)) && name == before.names()[before.at() as int]),
        None => (r matches Err(BoxedError::Message(m)) && m@ == "The nes"@),
    }
}

/// Names the record specs of the records one after another, from a list.
pub struct VecStream<T: AsName> {
    vec: Vec<T>,
    pub position: usize,
}

impl<T: AsName> VecStream<T> {
    /// How many names have been asked for.
    pub closed spec fn at(&self) -> usize {
        self.position
    }

    /// The names, in order.
    pub closed spec fn names(&self) -> Seq<Seq<char>> {
        self.vec@.map_values(|n: T| n.name_of())
    }

    /// A stream at the first of `vec`.
    pub fn from(vec: Vec<T>) -> (s: Self)
        ensures
            s.names() == vec@.map_values(|n: T| n.name_of()),
            s.at() == 0,
    {
        VecStream { vec, position: 0 }
    }

    /// The name at the current place, as the key of its record spec; the stream moves on.
    pub fn next<'b>(&mut self, record_specs: &'b NameMap<RecordSpec>) -> (r: Result<Option<&'b str>, BoxedError>)
        requires
            old(self).at() < usize::MAX,
        ensures
            final(self).at() == old(self).at() + 1,
            final(self).names() == old(self).names(),
            old(self).at() >= old(self).names().len() ==> r matches Ok(None),
            old(self).at() < old(self).names().len() ==> match lookup(
                record_specs@,
                old(self).names()[old(self).at() as int],
            ) {
                Some(_) => r matches Ok(Some(name)) && name@ == old(self).names()[old(self).at() as int],
                None => r is Err,
            },
    {
        self.next_name(record_specs)
    }

    /// The name at the current place, as the key of its record spec; the stream moves on.
    pub(crate) fn next_name<'b>(&mut self, record_specs: &'b NameMap<RecordSpec>) -> (r: Result<Option<&'b str>, BoxedError>)
        requires
            old(self).at() < usize::MAX,
        ensures
            final(self).at() == old(self).at() + 1,
            final(self).names() == old(self).names(),
            old(self).at() >= old(self).names().len() ==> r matches Ok(None),
            old(self).at() < old(self).names().len() ==> match lookup(
                record_specs@,
                old(self).names()[old(self).at() as int],
            ) {
                Some(_) => r matches Ok(Some(name)) && name@ == old(self).names()[old(self).at() as int],
                None => r matches Err(BoxedError::Message(m)) && m@ == "The nes"@,
            },
    {
        self.position = self.position + 1;
        if self.position - 1 >= self.vec.len() {
            return Ok(None);
        }
        let name = self.vec[self.position - 1].as_name();
        match record_specs.position(name) {
            Some(i) => {
                let (key, _) = record_specs.entry(i);
                Ok(Some(key.as_str()))
            },
            None => Err(BoxedError::Message("The nes".to_owned())),
        }
    }
}

} // verus!
