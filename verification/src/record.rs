//! The data of a record: the bytes (or text) of its fields one after another, and the
//! range that each field takes in them.
use vstd::prelude::*;
use core::ops::Range;
use crate::names::{NameMap, lookup};

verus! {

/// Ranges of named fields.
pub trait DataRanges {
    /// The range of the field named `name`, if there is one.
    spec fn range_of(&self, name: Seq<char>) -> Option<(nat, nat)>;

    fn get(&self, name: &str) -> (r: Option<Range<usize>>)
        ensures
            match self.range_of(name@) {
                Some((s, e)) => r matches Some(x) && x.start == s && x.end == e,
                None => r is None,
            },
    ;
}

/// Ranges of named fields that can be built up one field at a time. Some kinds keep no
/// ranges at all (`keeps_ranges`).
pub trait BuildableDataRanges: DataRanges + Sized {
    spec fn keeps_ranges() -> bool;

    fn new() -> (r: Self)
        ensures
            forall|k: Seq<char>| r.range_of(k) is None,
    ;

    fn insert(&mut self, name: &str, range: Range<usize>)
        ensures
            forall|k: Seq<char>|
                #![trigger final(self).range_of(k)]
                final(self).range_of(k) == if !Self::keeps_ranges() {
                    None
                } else if k == name@ {
                    Some((range.start as nat, range.end as nat))
                } else {
                    old(self).range_of(k)
                },
    ;
}

impl<'a, T: DataRanges> DataRanges for &'a T {
    open spec fn range_of(&self, name: Seq<char>) -> Option<(nat, nat)> {
        (**self).range_of(name)
    }

    fn get(&self, name: &str) -> (r: Option<Range<usize>>) {
        (**self).get(name)
    }
}

/// The range of a field as two numbers.
pub open spec fn range_view(r: Range<usize>) -> (nat, nat) {
    (r.start as nat, r.end as nat)
}

impl DataRanges for NameMap<Range<usize>> {
    open spec fn range_of(&self, name: Seq<char>) -> Option<(nat, nat)> {
        match lookup(self@, name) {
            Some(r) => Some(range_view(r)),
            None => None,
        }
    }

    fn get(&self, name: &str) -> (r: Option<Range<usize>>) {
        match NameMap::get(self, name) {
            Some(range) => Some(range.start..range.end),
            None => None,
        }
    }
}


impl BuildableDataRanges for NameMap<Range<usize>> {
    open spec fn keeps_ranges() -> bool {
        true
    }

    fn new() -> (r: Self) {
        NameMap::new()
    }

    fn insert(&mut self, name: &str, range: Range<usize>) {
        let ghost before = self@;
        let _ = NameMap::len(self);
        NameMap::insert(self, name.to_owned(), range);
        proof {
            assert forall|k: Seq<char>| #![trigger self.range_of(k)] self.range_of(k) == if k == name@ {
                Some((range.start as nat, range.end as nat))
            } else {
                old(self).range_of(k)
            } by {
                crate::names::law_lookup_after_insert(before, name@, range, k);
            }
        }
    }
}

impl DataRanges for () {
    open spec fn range_of(&self, name: Seq<char>) -> Option<(nat, nat)> {
        None
    }

    fn get(&self, name: &str) -> (r: Option<Range<usize>>) {
        None
    }
}

impl BuildableDataRanges for () {
    open spec fn keeps_ranges() -> bool {
        false
    }

    fn new() -> (r: Self) {
        ()
    }

    fn insert(&mut self, name: &str, range: Range<usize>) {
    }
}

/// The data of a record: its bytes, and the range of each field in them.
#[derive(Debug, PartialEq, Eq)]
pub struct Data<T: DataRanges, U> {
    pub ranges: T,
    pub data: U,
}

/// A record: its data, and the name of its spec.
#[derive(Debug, PartialEq, Eq)]
pub struct Record<T: DataRanges, U> {
    pub data: Data<T, U>,
    pub name: String,
}

impl<T: DataRanges> Data<T, Vec<u8>> {
    /// The bytes of the field named `name`, if there is one.
    pub fn get(&self, name: &str) -> (r: Option<&[u8]>)
        requires
            forall|s: nat, e: nat| self.ranges.range_of(name@) == Some((s, e)) ==> s <= e <= self.data@.len(),
        ensures
            match self.ranges.range_of(name@) {
                Some((s, e)) => r matches Some(x) && x@ == self.data@.subrange(s as int, e as int),
                None => r is None,
            },
    {
        match self.ranges.get(name) {
            Some(range) => Some(vstd::slice::slice_subrange(self.data.as_slice(), range.start, range.end)),
            None => None,
        }
    }
}

impl<T: BuildableDataRanges> Data<T, Vec<u8>> {
    /// No fields.
    pub fn new() -> (d: Self)
        ensures
            d.data@ == Seq::<u8>::empty(),
            forall|k: Seq<char>| d.ranges.range_of(k) is None,
    {
        Data { ranges: T::new(), data: Vec::new() }
    }

    /// Adds a field named `name` with the bytes `data` after the others.
    pub fn push(&mut self, name: &str, data: &[u8])
        requires
            old(self).data@.len() + data@.len() <= usize::MAX,
        ensures
            final(self).data@ == old(self).data@ + data@,
            forall|k: Seq<char>|
                #![trigger final(self).ranges.range_of(k)]
                final(self).ranges.range_of(k) == if !T::keeps_ranges() {
                    None
                } else if k == name@ {
                    Some((old(self).data@.len(), old(self).data@.len() + data@.len()))
                } else {
                    old(self).ranges.range_of(k)
                },
    {
        let start = self.data.len();
        self.ranges.insert(name, start..start + data.len());
        crate::padding::extend_from_range(&mut self.data, data, 0, data.len());
        assert(data@.subrange(0, data@.len() as int) =~= data@);
    }

    /// The fields one after another, each under its name.
    pub fn from_fields(fields: Vec<(String, Vec<u8>)>) -> (d: Self)
        requires
            forall|i: int| 0 <= i < fields@.len() ==> (#[trigger] fields@[i]).1@.len() <= usize::MAX,
            concat_len(fields@) <= usize::MAX,
        ensures
            d.data@ == concat_fields(fields@),
            forall|k: Seq<char>| #[trigger] d.ranges.range_of(k) == fields_range(fields@, k, T::keeps_ranges()),
    {
        let mut d = Self::new();
        let mut i: usize = 0;
        while i < fields.len()
            invariant
                i <= fields@.len(),
                concat_len(fields@) <= usize::MAX,
                d.data@ == concat_fields(fields@.take(i as int)),
                forall|k: Seq<char>|
                    #[trigger] d.ranges.range_of(k) == fields_range(fields@.take(i as int), k, T::keeps_ranges()),
            decreases fields@.len() - i,
        {
            proof {
                lemma_concat_take(fields@, i as int);
            }
            let ghost before = fields@.take(i as int);
            let (name, bytes) = &fields[i];
            d.push(name.as_str(), bytes.as_slice());
            proof {
                let after = fields@.take(i + 1);
                assert(after.drop_last() =~= before);
                assert(after.last() == fields@[i as int]);
            }
            i = i + 1;
        }
        proof {
            assert(fields@.take(fields@.len() as int) =~= fields@);
        }
        d
    }
}

impl Data<NameMap<Range<usize>>, Vec<u8>> {
    /// Each field under its name, in the order of the names, with its bytes.
    pub fn iter(&self) -> (r: Vec<(String, Vec<u8>)>)
        requires
            forall|i: int|
                0 <= i < self.ranges@.len() ==> (#[trigger] self.ranges@[i]).1.start <= self.ranges@[i].1.end
                    <= self.data@.len(),
        ensures
            r@.len() == self.ranges@.len(),
            forall|i: int|
                0 <= i < r@.len() ==> (#[trigger] r@[i]).0@ == self.ranges@[i].0 && r@[i].1@
                    == self.data@.subrange(self.ranges@[i].1.start as int, self.ranges@[i].1.end as int),
    {
        let entries = self.ranges.as_slice();
        let mut out: Vec<(String, Vec<u8>)> = Vec::new();
        let mut i: usize = 0;
        while i < entries.len()
            invariant
                i <= entries@.len(),
                entries@.len() == self.ranges@.len(),
                forall|j: int|
                    0 <= j < entries@.len() ==> (#[trigger] entries@[j]).0@ == self.ranges@[j].0 && entries@[j].1
                        == self.ranges@[j].1,
                forall|j: int|
                    0 <= j < self.ranges@.len() ==> (#[trigger] self.ranges@[j]).1.start <= self.ranges@[j].1.end
                        <= self.data@.len(),
                out@.len() == i,
                forall|j: int|
                    0 <= j < i ==> (#[trigger] out@[j]).0@ == self.ranges@[j].0 && out@[j].1@
                        == self.data@.subrange(self.ranges@[j].1.start as int, self.ranges@[j].1.end as int),
            decreases entries@.len() - i,
        {
            let (name, range) = &entries[i];
            assert(self.ranges@[i as int].1 == *range);
            let bytes = vstd::slice::slice_to_vec(
                vstd::slice::slice_subrange(self.data.as_slice(), range.start, range.end),
            );
            out.push((name.clone(), bytes));
            i = i + 1;
        }
        out
    }
}

/// The bytes of a sequence of fields one after another.
pub open spec fn concat_fields(fields: Seq<(String, Vec<u8>)>) -> Seq<u8>
    decreases fields.len(),
{
    if fields.len() == 0 {
        Seq::empty()
    } else {
        concat_fields(fields.drop_last()) + fields.last().1@
    }
}

/// The range of the last field named `k` among `fields` laid one after another, when
/// ranges are kept.
pub open spec fn fields_range(fields: Seq<(String, Vec<u8>)>, k: Seq<char>, keeps: bool) -> Option<(nat, nat)>
    decreases fields.len(),
{
    if fields.len() == 0 || !keeps {
        None
    } else if fields.last().0@ == k {
        Some((concat_fields(fields.drop_last()).len(), concat_fields(fields).len()))
    } else {
        fields_range(fields.drop_last(), k, keeps)
    }
}

/// How many bytes a sequence of fields has.
pub open spec fn concat_len(fields: Seq<(String, Vec<u8>)>) -> nat {
    concat_fields(fields).len()
}

proof fn lemma_concat_take(fields: Seq<(String, Vec<u8>)>, i: int)
    requires
        0 <= i < fields.len(),
    ensures
        concat_fields(fields.take(i + 1)) == concat_fields(fields.take(i)) + fields[i].1@,
        concat_fields(fields.take(i + 1)).len() <= concat_fields(fields).len(),
    decreases fields.len(),
{
    assert(fields.take(i + 1).drop_last() =~= fields.take(i));
    if i + 1 < fields.len() {
        lemma_concat_take(fields.drop_last(), i);
        assert(fields.drop_last().take(i + 1) =~= fields.take(i + 1));
        assert(fields.drop_last().take(i) =~= fields.take(i));
        lemma_concat_len_drop_last(fields);
    } else {
        assert(fields.take(i + 1) =~= fields);
    }
}

proof fn lemma_concat_len_drop_last(fields: Seq<(String, Vec<u8>)>)
    requires
        fields.len() > 0,
    ensures
        concat_fields(fields.drop_last()).len() <= concat_fields(fields).len(),
{
}

} // verus!
