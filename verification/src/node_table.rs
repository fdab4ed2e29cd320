//! Externally registered nodes, keyed by id, each with the moment it was
//! first registered.

use vstd::prelude::*;
use crate::model::{Node, NodeView};

verus! {

broadcast use vstd::string::group_string_axioms;

/// Registered nodes with their registration stamp, one entry per id.
pub struct NodeTable<C: Copy> {
    entries: Vec<(Node, C)>,
}

/// The view of one entry.
pub open spec fn entry_view<C>(e: (Node, C)) -> (NodeView, C) {
    (e.0@, e.1)
}

impl<C: Copy> NodeTable<C> {
    /// The entries in registration order.
    pub closed spec fn listed(&self) -> Seq<(NodeView, C)> {
        self.entries@.map_values(|e: (Node, C)| entry_view(e))
    }

    #[verifier::type_invariant]
    spec fn unique_ids(&self) -> bool {
        forall|i: int, j: int|
            0 <= i < self.entries.len() && 0 <= j < self.entries.len() && i != j
                ==> self.entries@[i].0.id@ != self.entries@[j].0.id@
    }

    /// The position of the entry with id `k` (meaningful when there is one).
    pub closed spec fn index_of(&self, k: Seq<char>) -> int {
        choose|i: int| 0 <= i < self.entries.len() && self.entries@[i].0.id@ == k
    }

    /// Whether an entry has id `k`.
    pub closed spec fn has(&self, k: Seq<char>) -> bool {
        exists|i: int| 0 <= i < self.entries.len() && self.entries@[i].0.id@ == k
    }
}

impl<C: Copy> View for NodeTable<C> {
    type V = Map<Seq<char>, (NodeView, C)>;

    closed spec fn view(&self) -> Map<Seq<char>, (NodeView, C)> {
        Map::new(|k: Seq<char>| self.has(k), |k: Seq<char>| entry_view(self.entries@[self.index_of(k)]))
    }
}

impl<C: Copy> NodeTable<C> {
    /// An empty table.
    pub fn new() -> (t: NodeTable<C>)
        ensures
            t@ == Map::<Seq<char>, (NodeView, C)>::empty(),
    {
        let t = NodeTable { entries: Vec::new() };
        assert(t@ =~= Map::<Seq<char>, (NodeView, C)>::empty());
        t
    }

    /// The number of entries; the listed ids are the table's keys, each once.
    pub fn len(&self) -> (n: usize)
        ensures
            n == self.listed().len(),
            n == self@.len(),
            self.listed().map_values(|e: (NodeView, C)| e.0.id).to_set() == self@.dom(),
            self.listed().map_values(|e: (NodeView, C)| e.0.id).no_duplicates(),
    {
        proof {
            use_type_invariant(self);
            let ids = self.listed().map_values(|e: (NodeView, C)| e.0.id);
            assert forall|i: int, j: int| 0 <= i < ids.len() && 0 <= j < ids.len() && i != j implies ids[i]
                != ids[j] by {
                assert(ids[i] == self.entries@[i].0.id@);
                assert(ids[j] == self.entries@[j].0.id@);
            }
            assert forall|k: Seq<char>| #[trigger] ids.contains(k) <==> self@.dom().contains(k) by {
                if ids.contains(k) {
                    let i = choose|i: int| 0 <= i < ids.len() && ids[i] == k;
                    assert(self.entries@[i].0.id@ == k);
                }
                if self@.dom().contains(k) {
                    let i = choose|i: int| 0 <= i < self.entries.len() && self.entries@[i].0.id@ == k;
                    assert(ids[i] == k);
                }
            }
            assert(ids.to_set() =~= self@.dom());
            ids.unique_seq_to_set();
        }
        self.entries.len()
    }

    /// The position of the entry with id `id`.
    #[verifier::loop_isolation(false)]
    pub fn find(&self, id: &String) -> (r: Option<usize>)
        ensures
            r matches Some(i) ==> i < self.listed().len() && self.listed()[i as int].0.id == id@
                && self.index_of(id@) == i && self@.contains_key(id@) && self@[id@]
                == self.listed()[i as int],
            r is None ==> !self@.contains_key(id@),
    {
        proof {
            use_type_invariant(self);
        }
        let mut i: usize = 0;
        while i < self.entries.len()
            invariant
                i <= self.entries.len(),
                forall|j: int| 0 <= j < i ==> self.entries@[j].0.id@ != id@,
            decreases self.entries.len() - i,
        {
            if self.entries[i].0.id == *id {
                proof {
                    assert(self.entries@[i as int].0.id@ == id@);
                    assert(self.has(id@));
                    let k = self.index_of(id@);
                    assert(self.entries@[k].0.id@ == id@);
                    if k != i {
                        assert(self.entries@[k].0.id@ != self.entries@[i as int].0.id@);
                    }
                    assert(self.listed()[i as int] == entry_view(self.entries@[i as int]));
                    assert(self@.contains_key(id@));
                }
                return Some(i);
            }
            i = i + 1;
        }
        None
    }

    /// The stamp of the entry at position `i`.
    pub fn stamp_at(&self, i: usize) -> (c: C)
        requires
            i < self.listed().len(),
        ensures
            c == self.listed()[i as int].1,
    {
        self.entries[i].1
    }

    /// A copy of the node at position `i`, which is the entry of its id.
    pub fn node_at(&self, i: usize) -> (n: Node)
        requires
            i < self.listed().len(),
        ensures
            n@ == self.listed()[i as int].0,
            self@.contains_key(n.id@),
            self@[n.id@] == self.listed()[i as int],
    {
        proof {
            use_type_invariant(self);
            let k = self.entries@[i as int].0.id@;
            assert(self.has(k));
            let j = self.index_of(k);
            assert(self.entries@[j].0.id@ == k);
            if j != i {
                assert(self.entries@[j].0.id@ != self.entries@[i as int].0.id@);
            }
        }
        self.entries[i].0.copy()
    }

    /// Replaces the node with id `node.id`, which is registered at position
    /// `i`, keeping its stamp.
    pub fn replace_at(&mut self, i: usize, node: Node)
        requires
            i < old(self).listed().len(),
            old(self).listed()[i as int].0.id == node.id@,
        ensures
            final(self)@ == old(self)@.insert(node.id@, (node@, old(self).listed()[i as int].1)),
            final(self).listed() == old(self).listed().update(
                i as int,
                (node@, old(self).listed()[i as int].1),
            ),
    {
        proof {
            use_type_invariant(&*self);
        }
        let ghost old_entries = self.entries@;
        let ghost k = node.id@;
        let c = self.entries[i].1;
        let mut entries: Vec<(Node, C)> = Vec::new();
        std::mem::swap(&mut entries, &mut self.entries);
        entries.set(i, (node, c));
        self.entries = entries;
        proof {
            assert forall|a: int, b: int|
                0 <= a < self.entries.len() && 0 <= b < self.entries.len() && a != b
                    implies self.entries@[a].0.id@ != self.entries@[b].0.id@ by {
                if a != i && b != i {
                    assert(old_entries[a].0.id@ != old_entries[b].0.id@);
                } else if a == i {
                    assert(old_entries[i as int].0.id@ != old_entries[b].0.id@);
                } else {
                    assert(old_entries[a].0.id@ != old_entries[i as int].0.id@);
                }
            }
            assert(self.listed() =~= old(self).listed().update(
                i as int,
                (self.entries@[i as int].0@, c),
            ));
            assert forall|key: Seq<char>| #[trigger] self.has(key) <==> old(self).has(key) by {
                if old(self).has(key) {
                    let j = choose|j: int| 0 <= j < old_entries.len() && old_entries[j].0.id@ == key;
                    assert(self.entries@[j].0.id@ == key);
                }
                if self.has(key) {
                    let j = choose|j: int| 0 <= j < self.entries.len() && self.entries@[j].0.id@ == key;
                    assert(old_entries[j].0.id@ == key);
                }
            }
            assert forall|key: Seq<char>| self.has(key) implies #[trigger] self.index_of(key)
                == old(self).index_of(key) by {
                let a = self.index_of(key);
                let b = old(self).index_of(key);
                assert(self.entries@[a].0.id@ == key);
                assert(old_entries[b].0.id@ == key);
                assert(self.entries@[b].0.id@ == key);
            }
            assert(self@ =~= old(self)@.insert(k, (self.entries@[i as int].0@, c)));
        }
    }

    /// Registers `node`, whose id is not registered yet, with stamp `c`.
    pub fn push_new(&mut self, node: Node, c: C)
        requires
            !old(self)@.contains_key(node.id@),
        ensures
            final(self)@ == old(self)@.insert(node.id@, (node@, c)),
            final(self).listed() == old(self).listed().push((node@, c)),
    {
        proof {
            use_type_invariant(&*self);
        }
        let ghost old_entries = self.entries@;
        let ghost k = node.id@;
        let ghost nv = node@;
        let mut entries: Vec<(Node, C)> = Vec::new();
        std::mem::swap(&mut entries, &mut self.entries);
        entries.push((node, c));
        self.entries = entries;
        proof {
            let n = old_entries.len() as int;
            assert forall|j: int| 0 <= j < n implies old_entries[j].0.id@ != k by {
                if old_entries[j].0.id@ == k {
                    assert(old(self).has(k));
                }
            }
            assert(self.listed() =~= old(self).listed().push((nv, c)));
            assert forall|key: Seq<char>| #[trigger] self.has(key) <==> (old(self).has(key) || key
                == k) by {
                if old(self).has(key) {
                    let j = choose|j: int| 0 <= j < old_entries.len() && old_entries[j].0.id@ == key;
                    assert(self.entries@[j].0.id@ == key);
                }
                if key == k {
                    assert(self.entries@[n].0.id@ == key);
                }
                if self.has(key) {
                    let j = choose|j: int| 0 <= j < self.entries.len() && self.entries@[j].0.id@ == key;
                    if j < n {
                        assert(old_entries[j].0.id@ == key);
                    }
                }
            }
            assert forall|key: Seq<char>| self.has(key) implies #[trigger] self.index_of(key)
                == (if key == k { n } else { old(self).index_of(key) }) by {
                let a = self.index_of(key);
                assert(self.entries@[a].0.id@ == key);
                if key == k {
                    assert(self.entries@[n].0.id@ == key);
                } else {
                    let b = old(self).index_of(key);
                    assert(old(self).has(key));
                    assert(old_entries[b].0.id@ == key);
                    assert(self.entries@[b].0.id@ == key);
                }
            }
            assert(self@ =~= old(self)@.insert(k, (nv, c)));
        }
    }

    /// Removes the entry with id `id`, if any.
    pub fn remove(&mut self, id: &str)
        ensures
            final(self)@ == old(self)@.remove(id@),
    {
        proof {
            use_type_invariant(&*self);
        }
        let key = id.to_owned();
        match self.find(&key) {
            None => {
                assert(self@ =~= old(self)@.remove(id@));
            },
            Some(i) => {
                let ghost old_entries = self.entries@;
                let mut entries: Vec<(Node, C)> = Vec::new();
                std::mem::swap(&mut entries, &mut self.entries);
                let _ = entries.remove(i);
                self.entries = entries;
                proof {
                    let n = old_entries.len() as int;
                    let ne = self.entries@;
                    assert forall|j: int| 0 <= j < ne.len() implies ne[j] == old_entries[if j < i {
                        j
                    } else {
                        j + 1
                    }] by {}
                    assert forall|key2: Seq<char>| #[trigger] self.has(key2) <==> (old(self).has(key2)
                        && key2 != id@) by {
                        if self.has(key2) {
                            let j = choose|j: int| 0 <= j < ne.len() && ne[j].0.id@ == key2;
                            let oj = if j < i { j } else { j + 1 };
                            assert(old_entries[oj].0.id@ == key2);
                            assert(oj != i);
                        }
                        if old(self).has(key2) && key2 != id@ {
                            let j = choose|j: int| 0 <= j < n && old_entries[j].0.id@ == key2;
                            assert(j != i);
                            let nj = if j < i { j } else { j - 1 };
                            assert(ne[nj].0.id@ == key2);
                        }
                    }
                    assert forall|key2: Seq<char>| self.has(key2) implies entry_view(
                        #[trigger] self.entries@[self.index_of(key2)],
                    ) == entry_view(old_entries[old(self).index_of(key2)]) by {
                        let a = self.index_of(key2);
                        assert(ne[a].0.id@ == key2);
                        let oa = if a < i { a } else { a + 1 };
                        assert(old_entries[oa].0.id@ == key2);
                        let b = old(self).index_of(key2);
                        assert(old(self).has(key2));
                        assert(old_entries[b].0.id@ == key2);
                        assert(oa == b);
                    }
                    assert(self@ =~= old(self)@.remove(id@));
                }
            },
        }
    }
}

} // verus!
