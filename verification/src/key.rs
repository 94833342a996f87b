//! The identity of a primary object: its namespace and its name.

use vstd::prelude::*;

verus! {

/// What an [`ObjectKey`] stands for: the characters of its two parts.
pub struct KeyView {
    pub namespace: Seq<char>,
    pub name: Seq<char>,
}

/// Identifies one primary object. Two keys denote the same object exactly
/// when their views are equal.
#[derive(Debug)]
pub struct ObjectKey {
    pub namespace: String,
    pub name: String,
}

impl View for ObjectKey {
    type V = KeyView;

    open spec fn view(&self) -> KeyView {
        KeyView { namespace: self.namespace@, name: self.name@ }
    }
}

impl ObjectKey {
    /// The key of the object called `name` in `namespace`.
    pub fn new(namespace: &str, name: &str) -> (key: ObjectKey)
        ensures
            key@ == (KeyView { namespace: namespace@, name: name@ }),
    {
        ObjectKey { namespace: namespace.to_owned(), name: name.to_owned() }
    }
}

impl Clone for ObjectKey {
    fn clone(&self) -> (copy: ObjectKey)
        ensures
            copy@ == self@,
    {
        ObjectKey { namespace: self.namespace.clone(), name: self.name.clone() }
    }
}

impl PartialEq for ObjectKey {
    fn eq(&self, other: &ObjectKey) -> (equal: bool) {
        self.namespace == other.namespace && self.name == other.name
    }
}

impl vstd::std_specs::cmp::PartialEqSpecImpl for ObjectKey {
    open spec fn obeys_eq_spec() -> bool {
        true
    }

    open spec fn eq_spec(&self, other: &ObjectKey) -> bool {
        self@ == other@
    }
}

impl Eq for ObjectKey {}

} // verus!
