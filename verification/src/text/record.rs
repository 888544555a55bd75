//! Text records as read: the values of their fields, kept by name or in order.
use vstd::prelude::*;
use crate::names::{NameMap, lookup};

verus! {

/// Where the values of a record's fields go as they are read. Some kinds keep them by
/// name (`by_name`), the others keep them in the order they come.
pub trait RecordData: Sized {
    spec fn by_name() -> bool;

    /// The value of the field named `name`, for kinds that keep values by name.
    spec fn value_of(&self, name: Seq<char>) -> Option<Seq<char>>;

    /// The values in the order they came, for kinds that keep them in order.
    spec fn values(&self) -> Seq<Seq<char>>;

    fn new() -> (r: Self)
        ensures
            forall|k: Seq<char>| r.value_of(k) is None,
            r.values() == Seq::<Seq<char>>::empty(),
    ;

    fn insert(&mut self, name: String, value: String)
        ensures
            Self::by_name() ==> forall|k: Seq<char>|
                #![trigger final(self).value_of(k)]
                final(self).value_of(k) == if k == name@ {
                    Some(value@)
                } else {
                    old(self).value_of(k)
                },
            !Self::by_name() ==> final(self).values() == old(self).values().push(value@),
    ;
}

impl RecordData for NameMap<String> {
    open spec fn by_name() -> bool {
        true
    }

    open spec fn value_of(&self, name: Seq<char>) -> Option<Seq<char>> {
        match lookup(self@, name) {
            Some(v) => Some(v@),
            None => None,
        }
    }

    open spec fn values(&self) -> Seq<Seq<char>> {
        Seq::empty()
    }

    fn new() -> (r: Self) {
        NameMap::new()
    }

    fn insert(&mut self, name: String, value: String) {
        let ghost before = self@;
        let ghost key = name@;
        let ghost v = value;
        let _ = NameMap::len(self);
        NameMap::insert(self, name, value);
        proof {
            assert forall|k: Seq<char>| #![trigger self.value_of(k)] self.value_of(k) == if k == key {
                Some(v@)
            } else {
                old(self).value_of(k)
            } by {
                crate::names::law_lookup_after_insert(before, key, v, k);
            }
        }
    }
}

impl RecordData for Vec<String> {
    open spec fn by_name() -> bool {
        false
    }

    open spec fn value_of(&self, name: Seq<char>) -> Option<Seq<char>> {
        None
    }

    open spec fn values(&self) -> Seq<Seq<char>> {
        self@.map_values(|s: String| s@)
    }

    fn new() -> (r: Self) {
        let r: Vec<String> = Vec::new();
        assert(r@.map_values(|s: String| s@) =~= Seq::<Seq<char>>::empty());
        r
    }

    fn insert(&mut self, name: String, value: String) {
        self.push(value);
        assert(self@.map_values(|s: String| s@) =~= old(self)@.map_values(|s: String| s@).push(value@));
    }
}

/// A text record: the values of its fields, and the name of its spec.
#[derive(Debug, PartialEq, Eq)]
pub struct Record<T: RecordData> {
    pub data: T,
    pub name: String,
}

} // verus!
