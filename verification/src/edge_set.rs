//! A set of directed `(src, dst)` edges between entity ids.
//!
//! The edges are kept in insertion order without duplicates; the view is the
//! set of `(src, dst)` character sequences.

use vstd::prelude::*;

verus! {

broadcast use vstd::string::group_string_axioms;

/// An edge as character sequences.
pub type EdgeView = (Seq<char>, Seq<char>);

/// The view of one stored edge.
pub open spec fn pair_view(p: (String, String)) -> EdgeView {
    (p.0@, p.1@)
}

/// A set of directed edges, each kept once.
pub struct EdgeSet {
    pairs: Vec<(String, String)>,
}

impl EdgeSet {
    /// The stored edges, in insertion order.
    pub closed spec fn listed(&self) -> Seq<EdgeView> {
        self.pairs@.map_values(|p: (String, String)| pair_view(p))
    }

    #[verifier::type_invariant]
    spec fn no_duplicate_edges(&self) -> bool {
        self.listed().no_duplicates()
    }
}

impl View for EdgeSet {
    type V = Set<EdgeView>;

    closed spec fn view(&self) -> Set<EdgeView> {
        self.listed().to_set()
    }
}

impl EdgeSet {
    /// An empty set of edges.
    pub fn new() -> (s: EdgeSet)
        ensures
            s@ == Set::<EdgeView>::empty(),
    {
        let s = EdgeSet { pairs: Vec::new() };
        assert(s.listed() =~= Seq::<EdgeView>::empty());
        s
    }

    /// The position of the edge `(src, dst)` in the listed order.
    fn position(&self, src: &String, dst: &String) -> (r: Option<usize>)
        ensures
            r matches Some(i) ==> i < self.listed().len() && self.listed()[i as int] == (src@, dst@),
            r is None ==> !self.listed().contains((src@, dst@)),
    {
        let mut i: usize = 0;
        while i < self.pairs.len()
            invariant
                i <= self.pairs.len(),
                forall|j: int| 0 <= j < i ==> self.listed()[j] != (src@, dst@),
            decreases self.pairs.len() - i,
        {
            if self.pairs[i].0 == *src && self.pairs[i].1 == *dst {
                return Some(i);
            }
            i = i + 1;
        }
        None
    }

    /// Whether the edge `(src, dst)` is in the set.
    pub fn contains(&self, src: &str, dst: &str) -> (r: bool)
        ensures
            r == self@.contains((src@, dst@)),
    {
        let s = src.to_owned();
        let d = dst.to_owned();
        self.position(&s, &d).is_some()
    }

    /// The number of edges.
    pub fn len(&self) -> (n: usize)
        ensures
            n == self@.len(),
    {
        proof {
            use_type_invariant(self);
            self.listed().unique_seq_to_set();
        }
        self.pairs.len()
    }

    /// Adds the edge `(src, dst)`; adding an edge that is present changes nothing.
    pub fn insert(&mut self, src: &str, dst: &str)
        ensures
            final(self)@ == old(self)@.insert((src@, dst@)),
    {
        proof {
            use_type_invariant(&*self);
        }
        let s = src.to_owned();
        let d = dst.to_owned();
        match self.position(&s, &d) {
            Some(_) => {
                assert(self@ =~= self@.insert((src@, dst@)));
            },
            None => {
                let ghost old_listed = self.listed();
                let ghost e = (s@, d@);
                let mut pairs: Vec<(String, String)> = Vec::new();
                std::mem::swap(&mut pairs, &mut self.pairs);
                pairs.push((s, d));
                proof {
                    assert(pairs@.map_values(|p: (String, String)| pair_view(p)) =~= old_listed.push(
                        e,
                    ));
                    lemma_push_no_dup(old_listed, e);
                }
                self.pairs = pairs;
                assert(self.listed() =~= old_listed.push((src@, dst@)));
                assert(old_listed.push(e).to_set() =~= old_listed.to_set().insert(e)) by {
                    assert forall|x: EdgeView| old_listed.push(e).contains(x) implies old_listed.to_set().insert(e).contains(x) by {
                        let k = choose|k: int| 0 <= k < old_listed.push(e).len() && old_listed.push(e)[k] == x;
                        if k < old_listed.len() {
                            assert(old_listed[k] == x);
                        }
                    }
                    assert forall|x: EdgeView| old_listed.to_set().insert(e).contains(x) implies old_listed.push(e).contains(x) by {
                        if x == e {
                            assert(old_listed.push(e)[old_listed.len() as int] == e);
                        } else {
                            let k = choose|k: int| 0 <= k < old_listed.len() && old_listed[k] == x;
                            assert(old_listed.push(e)[k] == x);
                        }
                    }
                }
                assert(self@ =~= old(self)@.insert((src@, dst@)));
            },
        }
    }

    /// Keeps the edges that satisfy `keep`, which is decided by `retained`.
    fn retain_where(&mut self, mode: u8, a: &String, b: &String)
        requires
            mode <= 3,
        ensures
            final(self)@ == old(self)@.filter(|e: EdgeView| keeps(mode, a@, b@, e)),
    {
        proof {
            use_type_invariant(&*self);
        }
        let ghost old_listed = self.listed();
        let mut kept: Vec<(String, String)> = Vec::new();
        let ghost mut kept_view: Seq<EdgeView> = Seq::empty();
        let mut i: usize = 0;
        while i < self.pairs.len()
            invariant
                i <= self.pairs.len(),
                old_listed == self.listed(),
                old_listed.no_duplicates(),
                mode <= 3,
                kept_view == kept@.map_values(|p: (String, String)| pair_view(p)),
                kept_view == old_listed.subrange(0, i as int).filter(
                    |e: EdgeView| keeps(mode, a@, b@, e),
                ),
            decreases self.pairs.len() - i,
        {
            let s = &self.pairs[i].0;
            let d = &self.pairs[i].1;
            let keep = if mode == 0 {
                !(*s == *a && *d == *b)
            } else if mode == 1 {
                !(*s == *a)
            } else if mode == 2 {
                !(*d == *a)
            } else {
                !(*s == *a) && !(*d == *a)
            };
            proof {
                assert(old_listed.subrange(0, i + 1) =~= old_listed.subrange(0, i as int).push(
                    old_listed[i as int],
                ));
                assert(old_listed[i as int] == (s@, d@));
                old_listed.subrange(0, i as int).lemma_filter_push(
                    old_listed[i as int],
                    |e: EdgeView| keeps(mode, a@, b@, e),
                );
            }
            if keep {
                kept.push((s.clone(), d.clone()));
                proof {
                    kept_view = kept_view.push((s@, d@));
                }
            }
            i = i + 1;
            proof {
                assert(kept_view =~= kept@.map_values(|p: (String, String)| pair_view(p)));
            }
        }
        proof {
            assert(old_listed.subrange(0, i as int) =~= old_listed);
            lemma_filter_no_dup(old_listed, |e: EdgeView| keeps(mode, a@, b@, e));
            lemma_filter_to_set(old_listed, |e: EdgeView| keeps(mode, a@, b@, e));
        }
        self.pairs = kept;
        assert(self@ =~= old(self)@.filter(|e: EdgeView| keeps(mode, a@, b@, e)));
    }

    /// Removes the edge `(src, dst)`.
    pub fn remove(&mut self, src: &str, dst: &str)
        ensures
            final(self)@ == old(self)@.remove((src@, dst@)),
    {
        let s = src.to_owned();
        let d = dst.to_owned();
        self.retain_where(0, &s, &d);
        assert(self@ =~= old(self)@.remove((src@, dst@)));
    }

    /// Removes every edge that starts at `src`.
    pub fn remove_from(&mut self, src: &str)
        ensures
            final(self)@ == old(self)@.filter(|e: EdgeView| e.0 != src@),
    {
        let s = src.to_owned();
        self.retain_where(1, &s, &s);
        assert(self@ =~= old(self)@.filter(|e: EdgeView| e.0 != src@));
    }

    /// Removes every edge that ends at `dst`.
    pub fn remove_to(&mut self, dst: &str)
        ensures
            final(self)@ == old(self)@.filter(|e: EdgeView| e.1 != dst@),
    {
        let d = dst.to_owned();
        self.retain_where(2, &d, &d);
        assert(self@ =~= old(self)@.filter(|e: EdgeView| e.1 != dst@));
    }

    /// Removes every edge that starts or ends at `id`.
    pub fn remove_touching(&mut self, id: &str)
        ensures
            final(self)@ == old(self)@.filter(|e: EdgeView| e.0 != id@ && e.1 != id@),
    {
        let d = id.to_owned();
        self.retain_where(3, &d, &d);
        assert(self@ =~= old(self)@.filter(|e: EdgeView| e.0 != id@ && e.1 != id@));
    }

    /// The edges in their listed order.
    pub fn to_vec(&self) -> (r: Vec<(String, String)>)
        ensures
            r@.map_values(|p: (String, String)| pair_view(p)) == self.listed(),
            self.listed().to_set() == self@,
            self.listed().no_duplicates(),
    {
        proof {
            use_type_invariant(self);
        }
        let mut r: Vec<(String, String)> = Vec::new();
        let mut i: usize = 0;
        while i < self.pairs.len()
            invariant
                i <= self.pairs.len(),
                r.len() == i,
                r@.map_values(|p: (String, String)| pair_view(p)) == self.listed().subrange(
                    0,
                    i as int,
                ),
            decreases self.pairs.len() - i,
        {
            let ghost prev = r@;
            let s = self.pairs[i].0.clone();
            let d = self.pairs[i].1.clone();
            r.push((s, d));
            assert(r@ == prev.push((s, d)));
            assert(pair_view((s, d)) == self.listed()[i as int]);
            let ghost rv = r@.map_values(|p: (String, String)| pair_view(p));
            let ghost pv = prev.map_values(|p: (String, String)| pair_view(p));
            let ghost lv = self.listed();
            assert forall|j: int| 0 <= j <= i implies #[trigger] rv[j] == lv[j] by {
                if j < i {
                    assert(r@[j] == prev[j]);
                    assert(pv[j] == lv.subrange(0, i as int)[j]);
                }
            }
            assert(r@.map_values(|p: (String, String)| pair_view(p)) =~= self.listed().subrange(
                0,
                i + 1,
            ));
            i = i + 1;
        }
        assert(self.listed().subrange(0, i as int) =~= self.listed());
        r
    }
}

/// Which edges `retain_where` keeps, by mode: not the edge `(a, b)`; not from
/// `a`; not to `a`; neither from nor to `a`.
pub open spec fn keeps(mode: u8, a: Seq<char>, b: Seq<char>, e: EdgeView) -> bool {
    if mode == 0 {
        e != (a, b)
    } else if mode == 1 {
        e.0 != a
    } else if mode == 2 {
        e.1 != a
    } else {
        e.0 != a && e.1 != a
    }
}

proof fn lemma_filter_no_dup(s: Seq<EdgeView>, f: spec_fn(EdgeView) -> bool)
    requires
        s.no_duplicates(),
    ensures
        s.filter(f).no_duplicates(),
    decreases s.len(),
{
    reveal(Seq::filter);
    if s.len() > 0 {
        lemma_filter_no_dup(s.drop_last(), f);
        assert(s.drop_last().push(s.last()) =~= s);
        s.drop_last().lemma_filter_push(s.last(), f);
        if f(s.last()) {
            if s.drop_last().filter(f).contains(s.last()) {
                s.drop_last().lemma_filter_contains_rev(f, s.last());
                let k = choose|k: int| 0 <= k < s.drop_last().len() && s.drop_last()[k] == s.last();
                assert(s[k] == s[s.len() - 1]);
            }
            lemma_push_no_dup(s.drop_last().filter(f), s.last());
        }
    }
}

proof fn lemma_push_no_dup(s: Seq<EdgeView>, e: EdgeView)
    requires
        s.no_duplicates(),
        !s.contains(e),
    ensures
        s.push(e).no_duplicates(),
{
    let t = s.push(e);
    assert forall|i: int, j: int| 0 <= i < t.len() && 0 <= j < t.len() && i != j implies t[i]
        != t[j] by {
        if i == s.len() {
            assert(s[j] == t[j]);
        } else if j == s.len() {
            assert(s[i] == t[i]);
        } else {
            assert(s[i] == t[i] && s[j] == t[j]);
        }
    }
}

proof fn lemma_filter_to_set(s: Seq<EdgeView>, f: spec_fn(EdgeView) -> bool)
    ensures
        s.filter(f).to_set() == s.to_set().filter(f),
{
    assert forall|e: EdgeView| s.filter(f).to_set().contains(e) <==> s.to_set().filter(f).contains(
        e,
    ) by {
        if s.filter(f).contains(e) {
            s.lemma_filter_contains_rev(f, e);
        }
        if s.contains(e) && f(e) {
            let i = choose|i: int| 0 <= i < s.len() && s[i] == e;
            s.lemma_filter_contains(f, i);
        }
    }
    assert(s.filter(f).to_set() =~= s.to_set().filter(f));
}

} // verus!
