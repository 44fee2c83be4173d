use vstd::prelude::*;

pub mod codec;
pub mod commands;
pub mod hash;
pub mod store;

verus! {

/// The errors that the object store's operations can raise.
#[derive(Debug, PartialEq, Eq)]
pub enum Error {
    MalformedObject,
    ObjectNotFound,
    InvalidObjectHash(String),
}

} // verus!
