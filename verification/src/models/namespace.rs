//! Namespaces: the top-level scope that pipelines live in.

use crate::models::epoch;
use crate::text::owned;
use vstd::prelude::*;

verus! {

/// A scope that holds pipelines.
#[derive(Debug, PartialEq, Eq)]
pub struct Namespace {
    /// Identifier, unique among namespaces.
    pub id: String,
    /// Name meant for display.
    pub name: String,
    pub description: String,
    /// Creation time, in milliseconds since the Unix epoch.
    pub created: u64,
    /// Time of the last change, in milliseconds since the Unix epoch.
    pub modified: u64,
}

/// What a [`Namespace`] holds.
pub struct NamespaceView {
    pub id: Seq<char>,
    pub name: Seq<char>,
    pub description: Seq<char>,
    pub created: u64,
    pub modified: u64,
}

impl DeepView for Namespace {
    type V = NamespaceView;

    open spec fn deep_view(&self) -> NamespaceView {
        NamespaceView {
            id: self.id@,
            name: self.name@,
            description: self.description@,
            created: self.created,
            modified: self.modified,
        }
    }
}

impl Clone for Namespace {
    fn clone(&self) -> (r: Self)
        ensures
            r.deep_view() == self.deep_view(),
    {
        Namespace {
            id: self.id.clone(),
            name: self.name.clone(),
            description: self.description.clone(),
            created: self.created,
            modified: self.modified,
        }
    }
}

impl Namespace {
    /// A namespace created at time `now`.
    pub fn created_at(id: &str, name: &str, description: &str, now: u64) -> (r: Self)
        ensures
            r.deep_view() == (NamespaceView {
                id: id@,
                name: name@,
                description: description@,
                created: now,
                modified: now,
            }),
    {
        Namespace {
            id: owned(id),
            name: owned(name),
            description: owned(description),
            created: now,
            modified: now,
        }
    }

    /// A namespace created now: the clock gives the creation time, which is
    /// also the time of the last change.
    pub fn new(id: &str, name: &str, description: &str) -> (r: Self)
        ensures
            r.deep_view() == (NamespaceView {
                id: id@,
                name: name@,
                description: description@,
                created: r.created,
                modified: r.created,
            }),
    {
        Namespace::created_at(id, name, description, epoch())
    }
}

} // verus!
