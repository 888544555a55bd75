//! Where the readers of records take the buffers that record data is built in.
use vstd::prelude::*;
use std::collections::VecDeque;

verus! {

/// Gives out buffers for the data of records.
pub trait Source {
    /// Whether `r` is a buffer this source stands by, the source going on to `after`; of a
    /// source that does not say, nothing is known.
    open spec fn gives(&self, after: &Self, r: Option<Vec<u8>>) -> bool {
        true
    }

    fn get(&mut self) -> (r: Option<Vec<u8>>)
        ensures
            old(self).gives(&*final(self), r),
    ;
}

impl<'a, T: Source> Source for &'a mut T {
    open spec fn gives(&self, after: &Self, r: Option<Vec<u8>>) -> bool {
        (**self).gives(&**after, r)
    }

    /// What the source referred to gives.
    fn get(&mut self) -> (r: Option<Vec<u8>>) {
        Source::get(*self)
    }
}

impl Source for Vec<u8> {
    open spec fn gives(&self, after: &Self, r: Option<Vec<u8>>) -> bool {
        after@ == self@ && (r matches Some(b) && b@ == self@)
    }

    /// A copy of this buffer, every time.
    fn get(&mut self) -> (r: Option<Vec<u8>>)
        ensures
            final(self)@ == old(self)@,
            r matches Some(b) && b@ == old(self)@,
    {
        Some(crate::spec::clone_bytes(self))
    }
}

impl Source for Option<Vec<u8>> {
    open spec fn gives(&self, after: &Self, r: Option<Vec<u8>>) -> bool {
        r == *self && *after is None
    }

    /// This buffer, once.
    fn get(&mut self) -> (r: Option<Vec<u8>>)
        ensures
            r == *old(self),
            *final(self) is None,
    {
        self.take()
    }
}

impl Source for Vec<Vec<u8>> {
    open spec fn gives(&self, after: &Self, r: Option<Vec<u8>>) -> bool {
        &&& self@.len() == 0 ==> r is None && after@ == self@
        &&& self@.len() > 0 ==> r == Some(self@.last()) && after@ == self@.drop_last()
    }

    /// The last of these buffers.
    fn get(&mut self) -> (r: Option<Vec<u8>>)
        ensures
            old(self)@.len() == 0 ==> r is None && final(self)@ == old(self)@,
            old(self)@.len() > 0 ==> r == Some(old(self)@.last()) && final(self)@ == old(self)@.drop_last(),
    {
        self.pop()
    }
}

impl Source for VecDeque<Vec<u8>> {
    open spec fn gives(&self, after: &Self, r: Option<Vec<u8>>) -> bool {
        &&& self@.len() == 0 ==> r is None && after@ == self@
        &&& self@.len() > 0 ==> r == Some(self@[0]) && after@ == self@.drop_first()
    }

    /// The first of these buffers.
    fn get(&mut self) -> (r: Option<Vec<u8>>)
        ensures
            old(self)@.len() == 0 ==> r is None && final(self)@ == old(self)@,
            old(self)@.len() > 0 ==> r == Some(old(self)@[0]) && final(self)@ == old(self)@.drop_first(),
    {
        self.pop_front()
    }
}

} // verus!
