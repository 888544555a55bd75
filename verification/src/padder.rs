//! Padders: what pads a value to its field's length, and takes the padding off again.
use vstd::prelude::*;
use crate::spec::PaddingDirection;
use crate::error::{BoxedError, Downcast, IntoBoxedError};
use crate::data_type::{BinarySupporter, DataSupporter};
use crate::padding::{padded, pad_into, unpad_into, unpadded};

verus! {

/// The error of a padder.
#[derive(Debug, PartialEq, Eq)]
pub struct Error {
    repr: BoxedError,
}

impl Error {
    /// What the error holds.
    pub closed spec fn repr_spec(&self) -> BoxedError {
        self.repr
    }

    pub fn new<E: IntoBoxedError>(error: E) -> (e: Self)
        ensures
            error.boxes_to(e.repr_spec()),
    {
        Error { repr: error.into_boxed() }
    }

    /// What the error holds, as an error of any pluggable part.
    pub fn into_boxed(self) -> (r: BoxedError)
        ensures
            r == self.repr_spec(),
    {
        self.repr
    }

    /// The error of kind `E` that this one holds, or this one back.
    pub fn downcast<E: Downcast>(self) -> (r: Result<E, Self>)
        ensures
            match E::unboxed(self.repr_spec()) {
                Some(x) => r == Ok::<E, Self>(x),
                None => r == Err::<E, Self>(self),
            },
    {
        match E::downcast_boxed(self.repr) {
            Ok(x) => Ok(x),
            Err(repr) => Err(Error { repr }),
        }
    }

    /// The error of kind `E` that this one holds.
    pub fn downcast_ref<E: Downcast>(&self) -> (r: Option<&E>)
        ensures
            match E::unboxed(self.repr_spec()) {
                Some(x) => r matches Some(y) && *y == x,
                None => r is None,
            },
    {
        E::downcast_boxed_ref(&self.repr)
    }
}

impl Clone for Error {
    /// A copy that keeps no more than that it was an error.
    fn clone(&self) -> (e: Self)
        ensures
            e.repr_spec() matches BoxedError::Message(m) && m@.len() == 0,
    {
        proof {
            reveal_strlit("");
        }
        Error::new("")
    }
}

/// Why padding failed.
#[derive(Debug, PartialEq, Eq, Clone, Copy, Structural)]
pub enum PaddingError {
    DataSplitNotOnCharBoundary(usize),
    PaddingSplitNotOnCharBoundary(usize),
}

impl From<PaddingError> for Error {
    fn from(e: PaddingError) -> (r: Self)
        ensures
            r.repr_spec() == BoxedError::Padding(e),
    {
        Error::new(e)
    }
}

impl vstd::std_specs::convert::FromSpecImpl<PaddingError> for Error {
    open spec fn obeys_from_spec() -> bool {
        true
    }

    closed spec fn from_spec(v: PaddingError) -> Self {
        Error { repr: BoxedError::Padding(v) }
    }
}

/// Pads a value to the length of its field. The result that a padder gives for a value
/// is `pad_result`; on success the padded value goes onto the end of the destination, and
/// on failure the destination is left as it was.
pub trait Padder<T> {
    open spec fn pad_result(
        &self,
        data: Seq<u8>,
        length: nat,
        padding: Seq<u8>,
        direction: PaddingDirection,
    ) -> Result<Seq<u8>, Error> {
        vstd::pervasive::arbitrary()
    }

    fn pad(
        &self,
        data: &[u8],
        length: usize,
        padding: &[u8],
        direction: PaddingDirection,
        destination: &mut Vec<u8>,
        data_type: &T,
    ) -> (r: Result<(), Error>)
        ensures
            match self.pad_result(data@, length as nat, padding@, direction) {
                Ok(s) => r is Ok && final(destination)@ == old(destination)@ + s,
                Err(e) => r == Err::<(), Error>(e) && final(destination)@ == old(destination)@,
            },
    ;
}

impl<'a, T, U: Padder<T>> Padder<T> for &'a U {
    open spec fn pad_result(
        &self,
        data: Seq<u8>,
        length: nat,
        padding: Seq<u8>,
        direction: PaddingDirection,
    ) -> Result<Seq<u8>, Error> {
        (**self).pad_result(data, length, padding, direction)
    }

    fn pad(
        &self,
        data: &[u8],
        length: usize,
        padding: &[u8],
        direction: PaddingDirection,
        destination: &mut Vec<u8>,
        data_type: &T,
    ) -> (r: Result<(), Error>) {
        (**self).pad(data, length, padding, direction, destination, data_type)
    }
}

/// Takes the padding off a value. Some unpadders accept only some paddings
/// (`unpad_accepts`); the result for a value is `unpad_result`.
pub trait UnPadder<T> {
    open spec fn unpad_accepts(&self, padding: Seq<u8>) -> bool {
        true
    }

    open spec fn unpad_result(&self, data: Seq<u8>, padding: Seq<u8>, direction: PaddingDirection) -> Result<
        Seq<u8>,
        Error,
    > {
        vstd::pervasive::arbitrary()
    }

    fn unpad(
        &self,
        data: &[u8],
        padding: &[u8],
        direction: PaddingDirection,
        destination: &mut Vec<u8>,
        data_type: &T,
    ) -> (r: Result<(), Error>)
        requires
            self.unpad_accepts(padding@),
        ensures
            match self.unpad_result(data@, padding@, direction) {
                Ok(s) => r is Ok && final(destination)@ == old(destination)@ + s,
                Err(e) => r == Err::<(), Error>(e) && final(destination)@ == old(destination)@,
            },
    ;
}

impl<'a, T, U: UnPadder<T>> UnPadder<T> for &'a U {
    open spec fn unpad_accepts(&self, padding: Seq<u8>) -> bool {
        (**self).unpad_accepts(padding)
    }

    open spec fn unpad_result(&self, data: Seq<u8>, padding: Seq<u8>, direction: PaddingDirection) -> Result<
        Seq<u8>,
        Error,
    > {
        (**self).unpad_result(data, padding, direction)
    }

    fn unpad(
        &self,
        data: &[u8],
        padding: &[u8],
        direction: PaddingDirection,
        destination: &mut Vec<u8>,
        data_type: &T,
    ) -> (r: Result<(), Error>) {
        (**self).unpad(data, padding, direction, destination, data_type)
    }
}

/// Pads binary values with copies of the padding, and takes whole copies off again;
/// it takes padding off only with a padding of at least one byte.
pub struct DefaultPadder;

impl Padder<BinarySupporter> for DefaultPadder {
    open spec fn pad_result(
        &self,
        data: Seq<u8>,
        length: nat,
        padding: Seq<u8>,
        direction: PaddingDirection,
    ) -> Result<Seq<u8>, Error> {
        Ok(padded(data, length, padding, direction))
    }

    fn pad(
        &self,
        data: &[u8],
        length: usize,
        padding: &[u8],
        direction: PaddingDirection,
        destination: &mut Vec<u8>,
        data_type: &BinarySupporter,
    ) -> (r: Result<(), Error>) {
        pad_into(data, length, padding, direction, destination);
        Ok(())
    }
}

impl UnPadder<BinarySupporter> for DefaultPadder {
    open spec fn unpad_accepts(&self, padding: Seq<u8>) -> bool {
        padding.len() > 0
    }

    open spec fn unpad_result(&self, data: Seq<u8>, padding: Seq<u8>, direction: PaddingDirection) -> Result<
        Seq<u8>,
        Error,
    > {
        Ok(unpadded(data, padding, direction))
    }

    fn unpad(
        &self,
        data: &[u8],
        padding: &[u8],
        direction: PaddingDirection,
        destination: &mut Vec<u8>,
        data_type: &BinarySupporter,
    ) -> (r: Result<(), Error>) {
        unpad_into(data, padding, direction, destination);
        Ok(())
    }
}

/// The default padder cuts a value at least as long as its field to the field's first
/// bytes, whatever the side it pads on; a shorter value it fills to exactly the field's
/// length with copies of a padding of at least one byte, one after the other from the
/// padding's first byte, keeping the value whole at the end (padding on the left) or at the
/// start (padding on the right).
pub proof fn law_default_pad(data: Seq<u8>, length: nat, padding: Seq<u8>, direction: PaddingDirection)
    ensures
        data.len() >= length ==> DefaultPadder.pad_result(data, length, padding, direction) == Ok::<
            Seq<u8>,
            Error,
        >(data.take(length as int)),
        data.len() < length && padding.len() > 0 ==> (DefaultPadder.pad_result(data, length, padding, direction) matches Ok(
            r,
        ) && r.len() == length && match direction {
            PaddingDirection::Left => r.skip(length - data.len()) == data && forall|i: int|
                0 <= i < length - data.len() ==> #[trigger] r[i] == padding[i % padding.len() as int],
            PaddingDirection::Right => r.take(data.len() as int) == data && forall|i: int|
                0 <= i < length - data.len() ==> #[trigger] r[data.len() + i] == padding[i % padding.len() as int],
        }),
{
    if data.len() < length && padding.len() > 0 {
        crate::padding::law_padded_length(data, length, padding, direction);
        crate::padding::law_padded_keeps_value(data, length, padding, direction);
    }
}

/// Leaves values as they are.
pub struct IdentityPadder;

impl<T: DataSupporter> Padder<T> for IdentityPadder {
    open spec fn pad_result(
        &self,
        data: Seq<u8>,
        length: nat,
        padding: Seq<u8>,
        direction: PaddingDirection,
    ) -> Result<Seq<u8>, Error> {
        Ok(data)
    }

    fn pad(
        &self,
        data: &[u8],
        length: usize,
        padding: &[u8],
        direction: PaddingDirection,
        destination: &mut Vec<u8>,
        data_type: &T,
    ) -> (r: Result<(), Error>) {
        crate::padding::extend_from_range(destination, data, 0, data.len());
        assert(data@.subrange(0, data@.len() as int) =~= data@);
        Ok(())
    }
}

impl<T: DataSupporter> UnPadder<T> for IdentityPadder {
    open spec fn unpad_accepts(&self, padding: Seq<u8>) -> bool {
        true
    }

    open spec fn unpad_result(&self, data: Seq<u8>, padding: Seq<u8>, direction: PaddingDirection) -> Result<
        Seq<u8>,
        Error,
    > {
        Ok(data)
    }

    fn unpad(
        &self,
        data: &[u8],
        padding: &[u8],
        direction: PaddingDirection,
        destination: &mut Vec<u8>,
        data_type: &T,
    ) -> (r: Result<(), Error>) {
        crate::padding::extend_from_range(destination, data, 0, data.len());
        assert(data@.subrange(0, data@.len() as int) =~= data@);
        Ok(())
    }
}

impl PaddingError {
    /// A short description of what went wrong.
    pub fn description(&self) -> (r: &'static str)
        ensures
            match self {
                PaddingError::DataSplitNotOnCharBoundary(_) => r@ == "The index needed for splitting the data is not on a char boundary"@,
                PaddingError::PaddingSplitNotOnCharBoundary(_) => r@ == "The index needed for splitting the padding is not on a char boundary"@,
            },
    {
        match self {
            PaddingError::DataSplitNotOnCharBoundary(_) => "The index needed for splitting the data is not on a char boundary",
            PaddingError::PaddingSplitNotOnCharBoundary(_) => "The index needed for splitting the padding is not on a char boundary",
        }
    }
}

} // verus!
