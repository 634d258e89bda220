use vstd::prelude::*;

verus! {

/// A named group of users of the administrative surface.
pub struct Group {
    pub id: i64,
    pub name: String,
}

/// An account on the administrative surface.
pub struct User {
    pub id: i64,
    pub name: String,
    pub email: String,
    pub groups: Vec<Group>,
}

} // verus!
