//! Watched objects and the change notifications that carry them, reduced to
//! what the controller reads: name, namespace and labels.

use crate::string_map::StringMap;
use vstd::prelude::*;

verus! {

/// What a [`Resource`] stands for.
pub struct ResourceView {
    pub name: Option<Seq<char>>,
    pub namespace: Option<Seq<char>>,
    pub labels: Map<Seq<char>, Seq<char>>,
}

/// The characters of an optional string.
pub open spec fn text_of(text: Option<String>) -> Option<Seq<char>> {
    match text {
        Some(s) => Some(s@),
        None => None,
    }
}

/// The metadata of a watched object, primary or secondary.
#[derive(Debug)]
pub struct Resource {
    pub name: Option<String>,
    pub namespace: Option<String>,
    pub labels: StringMap,
}

impl View for Resource {
    type V = ResourceView;

    open spec fn view(&self) -> ResourceView {
        ResourceView {
            name: text_of(self.name),
            namespace: text_of(self.namespace),
            labels: self.labels@,
        }
    }
}

/// What happened to a watched object.
#[derive(Clone, Copy, Debug, PartialEq, Eq, Structural)]
pub enum EventKind {
    Added,
    Modified,
    Deleted,
    Resynced,
}

/// A change notification. The object is the current one; a deletion carries
/// the object as it was last known.
#[derive(Debug)]
pub struct WatchEvent {
    pub kind: EventKind,
    pub object: Resource,
}

} // verus!
