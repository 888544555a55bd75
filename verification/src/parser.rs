//! Field parsers: what takes a field's value out of the bytes that hold it.
use vstd::prelude::*;
use crate::spec::{FieldSpec, PaddingDirection};
use crate::error::{BoxedError, Downcast, IntoBoxedError};
use crate::data_type::{BinarySupporter, DataSupporter};
use crate::padding::{padded, pad_into, unpad_into, unpadded};

verus! {

/// The error of a field parser.
#[derive(Debug, PartialEq, Eq)]
pub struct Error {
    repr: BoxedError,
}

impl Error {
    /// What the error holds.
    pub closed spec fn repr_spec(&self) -> BoxedError {
        self.repr
    }

    pub fn new<E: IntoBoxedError>(error: E) -> (e: Self)
        ensures
            error.boxes_to(e.repr_spec()),
    {
        Error { repr: error.into_boxed() }
    }

    /// What the error holds, as an error of any pluggable part.
    pub fn into_boxed(self) -> (r: BoxedError)
        ensures
            r == self.repr_spec(),
    {
        self.repr
    }

    /// The error of kind `E` that this one holds, or this one back.
    pub fn downcast<E: Downcast>(self) -> (r: Result<E, Self>)
        ensures
            match E::unboxed(self.repr_spec()) {
                Some(x) => r == Ok::<E, Self>(x),
                None => r == Err::<E, Self>(self),
            },
    {
        match E::downcast_boxed(self.repr) {
            Ok(x) => Ok(x),
            Err(repr) => Err(Error { repr }),
        }
    }

    /// The error of kind `E` that this one holds.
    pub fn downcast_ref<E: Downcast>(&self) -> (r: Option<&E>)
        ensures
            match E::unboxed(self.repr_spec()) {
                Some(x) => r matches Some(y) && *y == x,
                None => r is None,
            },
    {
        E::downcast_boxed_ref(&self.repr)
    }
}

impl Clone for Error {
    /// A copy that keeps no more than that it was an error.
    fn clone(&self) -> (e: Self)
        ensures
            e.repr_spec() matches BoxedError::Message(m) && m@.len() == 0,
    {
        proof {
            reveal_strlit("");
        }
        Error::new("")
    }
}

/// Why parsing failed.
#[derive(Debug, PartialEq, Eq, Clone, Copy, Structural)]
pub enum ParseError {
    DataSplitNotOnCharBoundary(usize),
    PaddingSplitNotOnCharBoundary(usize),
}

impl From<ParseError> for Error {
    fn from(e: ParseError) -> (r: Self)
        ensures
            r.repr_spec() == BoxedError::Parse(e),
    {
        Error::new(e)
    }
}

impl vstd::std_specs::convert::FromSpecImpl<ParseError> for Error {
    open spec fn obeys_from_spec() -> bool {
        true
    }

    closed spec fn from_spec(v: ParseError) -> Self {
        Error { repr: BoxedError::Parse(v) }
    }
}

/// Takes a field's value out of the bytes that hold it. Some parsers accept only some
/// field specs (`parse_accepts`); the result for the bytes of a field is `parse_result`;
/// on success the value goes onto the end of the destination, and on failure the
/// destination is left as it was.
pub trait FieldParser<T> {
    open spec fn parse_accepts(&self, field_spec: FieldSpec) -> bool {
        true
    }

    open spec fn parse_result(&self, data: Seq<u8>, field_spec: FieldSpec) -> Result<Seq<u8>, Error> {
        vstd::pervasive::arbitrary()
    }

    fn parse(&self, data: &[u8], field_spec: &FieldSpec, destination: &mut Vec<u8>, read_type: &T) -> (r: Result<(), Error>)
        requires
            self.parse_accepts(*field_spec),
        ensures
            match self.parse_result(data@, *field_spec) {
                Ok(s) => r is Ok && final(destination)@ == old(destination)@ + s,
                Err(e) => r == Err::<(), Error>(e) && final(destination)@ == old(destination)@,
            },
    ;
}

impl<'a, T, U: FieldParser<T>> FieldParser<T> for &'a U {
    open spec fn parse_accepts(&self, field_spec: FieldSpec) -> bool {
        (**self).parse_accepts(field_spec)
    }

    open spec fn parse_result(&self, data: Seq<u8>, field_spec: FieldSpec) -> Result<Seq<u8>, Error> {
        (**self).parse_result(data, field_spec)
    }

    fn parse(&self, data: &[u8], field_spec: &FieldSpec, destination: &mut Vec<u8>, read_type: &T) -> (r: Result<(), Error>) {
        (**self).parse(data, field_spec, destination, read_type)
    }
}

/// Takes whole copies of the field's padding off binary values; it needs a padding of at
/// least one byte.
pub struct DefaultParser;

impl FieldParser<BinarySupporter> for DefaultParser {
    open spec fn parse_accepts(&self, field_spec: FieldSpec) -> bool {
        field_spec.padding@.len() > 0
    }

    open spec fn parse_result(&self, data: Seq<u8>, field_spec: FieldSpec) -> Result<Seq<u8>, Error> {
        Ok(unpadded(data, field_spec.padding@, field_spec.padding_direction))
    }

    fn parse(&self, data: &[u8], field_spec: &FieldSpec, destination: &mut Vec<u8>, read_type: &BinarySupporter) -> (r: Result<(), Error>) {
        unpad_into(data, field_spec.padding.as_slice(), field_spec.padding_direction, destination);
        Ok(())
    }
}

/// Takes values as they are.
pub struct IdentityParser;

impl<T: DataSupporter> FieldParser<T> for IdentityParser {
    open spec fn parse_accepts(&self, field_spec: FieldSpec) -> bool {
        true
    }

    open spec fn parse_result(&self, data: Seq<u8>, field_spec: FieldSpec) -> Result<Seq<u8>, Error> {
        Ok(data)
    }

    fn parse(&self, data: &[u8], field_spec: &FieldSpec, destination: &mut Vec<u8>, read_type: &T) -> (r: Result<(), Error>) {
        crate::padding::extend_from_range(destination, data, 0, data.len());
        assert(data@.subrange(0, data@.len() as int) =~= data@);
        Ok(())
    }
}

impl ParseError {
    /// A short description of what went wrong.
    pub fn description(&self) -> (r: &'static str)
        ensures
            match self {
                ParseError::DataSplitNotOnCharBoundary(_) => r@ == "The index needed for splitting the data is not on a char boundary"@,
                ParseError::PaddingSplitNotOnCharBoundary(_) => r@ == "The index needed for splitting the padding is not on a char boundary"@,
            },
    {
        match self {
            ParseError::DataSplitNotOnCharBoundary(_) => "The index needed for splitting the data is not on a char boundary",
            ParseError::PaddingSplitNotOnCharBoundary(_) => "The index needed for splitting the padding is not on a char boundary",
        }
    }
}

} // verus!
