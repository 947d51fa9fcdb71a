//! Closes the set of privacy classes.
use vstd::prelude::*;

verus! {

/// Cannot be named outside this crate, so no other crate can implement a trait
/// that demands it.
pub trait Sealed {

}

/// Has no value: nothing can be built of it outside this module, and nothing
/// here builds one.
#[derive(Debug)]
pub struct Never {
    _unbuildable: (),
}

}
