//! Loading specs from documents.
pub mod yaml;

use vstd::prelude::*;
use crate::error::BoxedError;
use crate::spec::Spec;

verus! {

/// What reads a spec out of a resource.
pub trait Loader<T> {
    fn load(&self, resource: T) -> core::result::Result<Spec, BoxedError>;
}

} // verus!
