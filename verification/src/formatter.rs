//! Field formatters: what makes the bytes of a field out of its value.
use vstd::prelude::*;
use crate::spec::{FieldSpec, PaddingDirection};
use crate::error::{BoxedError, Downcast, IntoBoxedError};
use crate::data_type::{BinarySupporter, DataSupporter};
use crate::padding::{padded, pad_into, unpad_into, unpadded};

verus! {

/// The error of a field formatter.
#[derive(Debug, PartialEq, Eq)]
pub struct Error {
    repr: BoxedError,
}

impl Error {
    /// What the error holds.
    pub closed spec fn repr_spec(&self) -> BoxedError {
        self.repr
    }

    pub fn new<E: IntoBoxedError>(error: E) -> (e: Self)
        ensures
            error.boxes_to(e.repr_spec()),
    {
        Error { repr: error.into_boxed() }
    }

    /// What the error holds, as an error of any pluggable part.
    pub fn into_boxed(self) -> (r: BoxedError)
        ensures
            r == self.repr_spec(),
    {
        self.repr
    }

    /// The error of kind `E` that this one holds, or this one back.
    pub fn downcast<E: Downcast>(self) -> (r: Result<E, Self>)
        ensures
            match E::unboxed(self.repr_spec()) {
                Some(x) => r == Ok::<E, Self>(x),
                None => r == Err::<E, Self>(self),
            },
    {
        match E::downcast_boxed(self.repr) {
            Ok(x) => Ok(x),
            Err(repr) => Err(Error { repr }),
        }
    }

    /// The error of kind `E` that this one holds.
    pub fn downcast_ref<E: Downcast>(&self) -> (r: Option<&E>)
        ensures
            match E::unboxed(self.repr_spec()) {
                Some(x) => r matches Some(y) && *y == x,
                None => r is None,
            },
    {
        E::downcast_boxed_ref(&self.repr)
    }
}

impl Clone for Error {
    /// A copy that keeps no more than that it was an error.
    fn clone(&self) -> (e: Self)
        ensures
            e.repr_spec() matches BoxedError::Message(m) && m@.len() == 0,
    {
        proof {
            reveal_strlit("");
        }
        Error::new("")
    }
}

/// Why formatting failed.
#[derive(Debug, PartialEq, Eq, Clone, Copy, Structural)]
pub enum FormatError {
    DataSplitNotOnCharBoundary(usize),
    PaddingSplitNotOnCharBoundary(usize),
}

impl From<FormatError> for Error {
    fn from(e: FormatError) -> (r: Self)
        ensures
            r.repr_spec() == BoxedError::Format(e),
    {
        Error::new(e)
    }
}

impl vstd::std_specs::convert::FromSpecImpl<FormatError> for Error {
    open spec fn obeys_from_spec() -> bool {
        true
    }

    closed spec fn from_spec(v: FormatError) -> Self {
        Error { repr: BoxedError::Format(v) }
    }
}

/// Makes the bytes of a field out of its value. The result for a value is
/// `format_result`; on success the bytes go onto the end of the destination, and on
/// failure the destination is left as it was.
pub trait FieldFormatter<T> {
    open spec fn format_result(&self, data: Seq<u8>, field_spec: FieldSpec) -> Result<Seq<u8>, Error> {
        vstd::pervasive::arbitrary()
    }

    fn format(&self, data: &[u8], field_spec: &FieldSpec, destination: &mut Vec<u8>, write_type: &T) -> (r: Result<(), Error>)
        ensures
            match self.format_result(data@, *field_spec) {
                Ok(s) => r is Ok && final(destination)@ == old(destination)@ + s,
                Err(e) => r == Err::<(), Error>(e) && final(destination)@ == old(destination)@,
            },
    ;
}

impl<'a, T, U: FieldFormatter<T>> FieldFormatter<T> for &'a U {
    open spec fn format_result(&self, data: Seq<u8>, field_spec: FieldSpec) -> Result<Seq<u8>, Error> {
        (**self).format_result(data, field_spec)
    }

    fn format(&self, data: &[u8], field_spec: &FieldSpec, destination: &mut Vec<u8>, write_type: &T) -> (r: Result<(), Error>) {
        (**self).format(data, field_spec, destination, write_type)
    }
}

/// Pads binary values to the field's length with copies of its padding, or cuts them.
pub struct DefaultFormatter;

impl FieldFormatter<BinarySupporter> for DefaultFormatter {
    open spec fn format_result(&self, data: Seq<u8>, field_spec: FieldSpec) -> Result<Seq<u8>, Error> {
        Ok(padded(data, field_spec.length as nat, field_spec.padding@, field_spec.padding_direction))
    }

    fn format(&self, data: &[u8], field_spec: &FieldSpec, destination: &mut Vec<u8>, write_type: &BinarySupporter) -> (r: Result<(), Error>) {
        pad_into(data, field_spec.length, field_spec.padding.as_slice(), field_spec.padding_direction, destination);
        Ok(())
    }
}

/// Writes values as they are.
pub struct IdentityFormatter;

impl<T: DataSupporter> FieldFormatter<T> for IdentityFormatter {
    open spec fn format_result(&self, data: Seq<u8>, field_spec: FieldSpec) -> Result<Seq<u8>, Error> {
        Ok(data)
    }

    fn format(&self, data: &[u8], field_spec: &FieldSpec, destination: &mut Vec<u8>, write_type: &T) -> (r: Result<(), Error>) {
        crate::padding::extend_from_range(destination, data, 0, data.len());
        assert(data@.subrange(0, data@.len() as int) =~= data@);
        Ok(())
    }
}

impl FormatError {
    /// A short description of what went wrong.
    pub fn description(&self) -> (r: &'static str)
        ensures
            match self {
                FormatError::DataSplitNotOnCharBoundary(_) => r@ == "The index needed for splitting the data is not on a char boundary"@,
                FormatError::PaddingSplitNotOnCharBoundary(_) => r@ == "The index needed for splitting the padding is not on a char boundary"@,
            },
    {
        match self {
            FormatError::DataSplitNotOnCharBoundary(_) => "The index needed for splitting the data is not on a char boundary",
            FormatError::PaddingSplitNotOnCharBoundary(_) => "The index needed for splitting the padding is not on a char boundary",
        }
    }
}

} // verus!
