//! Namespaces in the store.

use crate::models::{Namespace, NamespaceView};
use crate::storage::{
    effective_limit, page, page_end, page_limit, page_start, rank, Db, Scope, ScopeView,
    StorageError,
};
use crate::text::{
    lemma_precedes_irreflexive, lemma_precedes_total, lemma_precedes_transitive, less, precedes,
};
use vstd::prelude::*;

verus! {

impl Db {
    /// The namespaces, ordered by identifier: at most `limit` of them (the
    /// maximum where `limit` is 0 or above it), after the first `offset`.
    pub fn list_namespaces(&self, offset: u64, limit: u64) -> (r: Result<
        Vec<Namespace>,
        StorageError,
    >)
        requires
            self.deep_view().wf(),
        ensures
            r matches Ok(found) && found.deep_view() == page(
                self.deep_view().namespaces(),
                offset,
                effective_limit(limit),
            ),
    {
        let limit: u64 = page_limit(limit);
        let len: usize = self.scopes.len();
        let mut found: Vec<Namespace> = Vec::new();
        let start: usize = if offset <= len as u64 {
            offset as usize
        } else {
            len
        };
        let end: usize = if limit <= (len - start) as u64 {
            start + limit as usize
        } else {
            len
        };
        let ghost all = self.deep_view().namespaces();
        assert(start == page_start(all.len(), offset));
        assert(end == page_end(all.len(), offset, limit));
        let mut i: usize = start;
        while i < end
            invariant
                start <= i <= end <= len,
                len == self.scopes@.len(),
                all == self.deep_view().namespaces(),
                found@.len() == i - start,
                forall|j: int|
                    0 <= j < i - start ==> (#[trigger] found@[j]).deep_view() == all[start + j],
            decreases end - i,
        {
            found.push(self.scopes[i].namespace.clone());
            i += 1;
        }
        assert(found.deep_view() =~= all.subrange(start as int, end as int));
        Ok(found)
    }

    /// Stores a namespace, with no pipelines, unless one with its identifier
    /// is stored.
    pub fn create_namespace(&mut self, namespace: &Namespace) -> (r: Result<(), StorageError>)
        requires
            old(self).deep_view().wf(),
        ensures
            final(self).deep_view().wf(),
            match r {
                Ok(()) => {
                    &&& !old(self).deep_view().has_scope(namespace.id@)
                    &&& final(self).deep_view().scopes == old(self).deep_view().scopes.insert(
                        old(self).deep_view().scope_rank(namespace.id@),
                        ScopeView { namespace: namespace.deep_view(), shelves: Seq::empty() },
                    )
                },
                Err(e) => {
                    &&& e is Exists
                    &&& old(self).deep_view().has_scope(namespace.id@)
                    &&& final(self).deep_view() == old(self).deep_view()
                },
            },
    {
        let ghost before = self.deep_view();
        let ghost keys = Seq::new(before.scopes.len(), |i: int| before.scopes[i].namespace.id);
        let mut i: usize = 0;
        assert(keys.skip(0) =~= keys);
        while i < self.scopes.len() && less(
            self.scopes[i].namespace.id.as_str(),
            namespace.id.as_str(),
        )
            invariant
                i <= self.scopes@.len(),
                self.deep_view() == before,
                before.wf(),
                keys == Seq::new(before.scopes.len(), |i: int| before.scopes[i].namespace.id),
                rank(keys, namespace.id@) == i + rank(keys.skip(i as int), namespace.id@),
                forall|j: int|
                    0 <= j < i ==> precedes(
                        (#[trigger] before.scopes[j]).namespace.id,
                        namespace.id@,
                    ),
            decreases self.scopes@.len() - i,
        {
            assert(keys.skip(i as int)[0] == before.scopes[i as int].namespace.id);
            assert(keys.skip(i as int).drop_first() =~= keys.skip(i as int + 1));
            i += 1;
        }
        proof {
            if i < self.scopes@.len() {
                assert(keys.skip(i as int)[0] == before.scopes[i as int].namespace.id);
            }
            assert(rank(keys, namespace.id@) == i);
        }
        if i < self.scopes.len() && crate::text::same(
            self.scopes[i].namespace.id.as_str(),
            namespace.id.as_str(),
        ) {
            assert(before.scopes[i as int].namespace.id == namespace.id@);
            return Err(StorageError::Exists);
        }
        proof {
            // The identifier is new: it comes after everything before place
            // `i` and before everything from place `i` on.
            assert forall|j: int| i <= j < before.scopes.len() implies precedes(
                namespace.id@,
                (#[trigger] before.scopes[j]).namespace.id,
            ) by {
                let at = before.scopes[i as int].namespace.id;
                lemma_precedes_total(at, namespace.id@);
                if j > i {
                    assert(precedes(at, before.scopes[j].namespace.id));
                    lemma_precedes_transitive(namespace.id@, at, before.scopes[j].namespace.id);
                }
            }
            if before.has_scope(namespace.id@) {
                let j = before.scope_index(namespace.id@);
                lemma_precedes_irreflexive(namespace.id@);
                assert(precedes(before.scopes[j].namespace.id, namespace.id@) || precedes(
                    namespace.id@,
                    before.scopes[j].namespace.id,
                ));
            }
        }
        self.scopes.insert(i, Scope { namespace: namespace.clone(), shelves: Vec::new() });
        proof {
            let entry = ScopeView { namespace: namespace.deep_view(), shelves: Seq::empty() };
            assert(self.scopes@[i as int].shelves.deep_view() =~= Seq::<
                crate::storage::ShelfView,
            >::empty());
            assert(self.deep_view().scopes =~= before.scopes.insert(i as int, entry));
            let after = self.deep_view();
            assert forall|a: int, b: int| 0 <= a < b < after.scopes.len() implies precedes(
                (#[trigger] after.scopes[a]).namespace.id,
                (#[trigger] after.scopes[b]).namespace.id,
            ) by {
                if a < i && b > i {
                    assert(precedes(before.scopes[a].namespace.id, before.scopes[b - 1].namespace.id));
                } else if a < i && b < i {
                    assert(precedes(before.scopes[a].namespace.id, before.scopes[b].namespace.id));
                } else if a > i {
                    assert(precedes(
                        before.scopes[a - 1].namespace.id,
                        before.scopes[b - 1].namespace.id,
                    ));
                } else if a == i {
                    assert(precedes(namespace.id@, before.scopes[b - 1].namespace.id));
                } else {
                    assert(precedes(before.scopes[a].namespace.id, namespace.id@));
                }
            }
            assert forall|a: int| 0 <= a < after.scopes.len() implies (
            #[trigger] after.scopes[a]).wf() by {
                if a < i {
                    assert(after.scopes[a] == before.scopes[a]);
                } else if a > i {
                    assert(after.scopes[a] == before.scopes[a - 1]);
                }
            }
        }
        Ok(())
    }

    /// The namespace stored under `id`.
    pub fn get_namespace(&self, id: &str) -> (r: Result<Namespace, StorageError>)
        requires
            self.deep_view().wf(),
        ensures
            match r {
                Ok(found) => {
                    &&& self.deep_view().has_scope(id@)
                    &&& found.deep_view() == self.deep_view().scopes[self.deep_view().scope_index(
                        id@,
                    )].namespace
                },
                Err(e) => e is NotFound && !self.deep_view().has_scope(id@),
            },
    {
        match self.find_scope(id) {
            Some(i) => Ok(self.scopes[i].namespace.clone()),
            None => Err(StorageError::NotFound),
        }
    }

    /// Replaces the name, the description and the time of the last change of
    /// the namespace stored under `namespace.id`. The creation time and the
    /// pipelines stay.
    pub fn update_namespace(&mut self, namespace: &Namespace) -> (r: Result<(), StorageError>)
        requires
            old(self).deep_view().wf(),
        ensures
            final(self).deep_view().wf(),
            match r {
                Ok(()) => {
                    let before = old(self).deep_view();
                    let at = before.scope_index(namespace.id@);
                    &&& before.has_scope(namespace.id@)
                    &&& final(self).deep_view().scopes == before.scopes.update(
                        at,
                        ScopeView {
                            namespace: NamespaceView {
                                name: namespace.name@,
                                description: namespace.description@,
                                modified: namespace.modified,
                                ..before.scopes[at].namespace
                            },
                            ..before.scopes[at]
                        },
                    )
                },
                Err(e) => {
                    &&& e is NotFound
                    &&& !old(self).deep_view().has_scope(namespace.id@)
                    &&& final(self).deep_view() == old(self).deep_view()
                },
            },
    {
        let ghost before = self.deep_view();
        match self.find_scope(namespace.id.as_str()) {
            Some(i) => {
                self.scopes[i].namespace.name = namespace.name.clone();
                self.scopes[i].namespace.description = namespace.description.clone();
                self.scopes[i].namespace.modified = namespace.modified;
                proof {
                    let after = self.deep_view();
                    let entry = ScopeView {
                        namespace: NamespaceView {
                            name: namespace.name@,
                            description: namespace.description@,
                            modified: namespace.modified,
                            ..before.scopes[i as int].namespace
                        },
                        ..before.scopes[i as int]
                    };
                    assert(after.scopes =~= before.scopes.update(i as int, entry));
                    assert forall|a: int, b: int| 0 <= a < b < after.scopes.len() implies precedes(
                        (#[trigger] after.scopes[a]).namespace.id,
                        (#[trigger] after.scopes[b]).namespace.id,
                    ) by {
                        assert(precedes(before.scopes[a].namespace.id, before.scopes[b].namespace.id));
                    }
                    assert forall|a: int| 0 <= a < after.scopes.len() implies (
                    #[trigger] after.scopes[a]).wf() by {
                        assert(before.scopes[a].wf());
                    }
                }
                Ok(())
            },
            None => Err(StorageError::NotFound),
        }
    }

    /// Removes the namespace stored under `id`, with its pipelines and their
    /// runs.
    pub fn delete_namespace(&mut self, id: &str) -> (r: Result<(), StorageError>)
        requires
            old(self).deep_view().wf(),
        ensures
            final(self).deep_view().wf(),
            match r {
                Ok(()) => {
                    &&& old(self).deep_view().has_scope(id@)
                    &&& final(self).deep_view().scopes == old(self).deep_view().scopes.remove(
                        old(self).deep_view().scope_index(id@),
                    )
                },
                Err(e) => {
                    &&& e is NotFound
                    &&& !old(self).deep_view().has_scope(id@)
                    &&& final(self).deep_view() == old(self).deep_view()
                },
            },
    {
        let ghost before = self.deep_view();
        match self.find_scope(id) {
            Some(i) => {
                self.scopes.remove(i);
                proof {
                    let after = self.deep_view();
                    assert(after.scopes =~= before.scopes.remove(i as int));
                    assert forall|a: int, b: int| 0 <= a < b < after.scopes.len() implies precedes(
                        (#[trigger] after.scopes[a]).namespace.id,
                        (#[trigger] after.scopes[b]).namespace.id,
                    ) by {
                        let x = if a < i { a } else { a + 1 };
                        let y = if b < i { b } else { b + 1 };
                        assert(precedes(before.scopes[x].namespace.id, before.scopes[y].namespace.id));
                    }
                    assert forall|a: int| 0 <= a < after.scopes.len() implies (
                    #[trigger] after.scopes[a]).wf() by {
                        let x = if a < i { a } else { a + 1 };
                        assert(before.scopes[x].wf());
                    }
                }
                Ok(())
            },
            None => Err(StorageError::NotFound),
        }
    }
}

} // verus!
