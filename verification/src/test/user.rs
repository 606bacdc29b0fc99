//! A user record.
use vstd::prelude::*;

verus! {

/// A user.
#[derive(Debug)]
pub struct User {
    pub id: String,
    pub name: String,
}

} // verus!
