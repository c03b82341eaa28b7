//! Weighted directed adjacency-list multigraph keyed by `i64` vertex ids.
//!
//! The storage is an association list: one `(vertex, edge list)` entry per
//! vertex, with pairwise distinct vertex keys (`wf`). An edge may only be
//! inserted between two keys that already exist as vertices; inserting it
//! otherwise is a no-op, reported through the returned `Option`.

use vstd::prelude::*;

verus! {

broadcast use vstd::seq_lib::lemma_seq_contains_after_push;

#[derive(Debug)]
pub struct Graph {
    pub content: Vec<(i64, Vec<(i64, u64)>)>,
}

impl Graph {
    /// Well-formedness: every vertex key appears in at most one entry.
    pub open spec fn wf(self) -> bool {
        forall|i: int, j: int|
            0 <= i < j < self.content@.len() ==> (#[trigger] self.content@[i].0) != (
            #[trigger] self.content@[j].0)
    }

    pub open spec fn has_vertex(self, v: i64) -> bool {
        exists|i: int| 0 <= i < self.content@.len() && (#[trigger] self.content@[i].0) == v
    }

    /// The entry index holding vertex `v` (meaningful when `has_vertex(v)`).
    pub open spec fn idx_of(self, v: i64) -> int {
        choose|i: int| 0 <= i < self.content@.len() && (#[trigger] self.content@[i].0) == v
    }

    /// The adjacency list of `v`: its outgoing `(neighbor, weight)` pairs.
    pub open spec fn adj_of(self, v: i64) -> Seq<(i64, u64)> {
        self.content@[self.idx_of(v)].1@
    }

    /// Some edge from `a` to `b` with weight `w` is present.
    pub open spec fn spec_edge(self, a: i64, b: i64, w: u64) -> bool {
        self.has_vertex(a) && exists|k: int|
            0 <= k < self.adj_of(a).len() && #[trigger] self.adj_of(a)[k] == (b, w)
    }

    /// Some edge from `a` to `b` of any weight is present.
    pub open spec fn spec_edge_to(self, a: i64, b: i64) -> bool {
        self.has_vertex(a) && exists|k: int|
            0 <= k < self.adj_of(a).len() && (#[trigger] self.adj_of(a)[k]).0 == b
    }

    /// In a well-formed graph the entry of a present vertex is unique.
    pub proof fn lemma_idx_of(self, i: int, v: i64)
        requires
            self.wf(),
            0 <= i < self.content@.len(),
            self.content@[i].0 == v,
        ensures
            self.has_vertex(v),
            self.idx_of(v) == i,
            self.adj_of(v) == self.content@[i].1@,
    {
        assert(self.has_vertex(v));
        let j = self.idx_of(v);
        if i != j {
            if i < j {
                assert(self.content@[i].0 != self.content@[j].0);
            } else {
                assert(self.content@[j].0 != self.content@[i].0);
            }
        }
    }

    pub fn new() -> (r: Graph)
        ensures
            r.wf(),
            r.content@.len() == 0,
            forall|v: i64| !r.has_vertex(v),
    {
        Graph { content: Vec::new() }
    }

    pub fn is_empty(&self) -> (r: bool)
        ensures
            r == (self.content@.len() == 0),
    {
        self.content.len() == 0
    }

    /// The entry index of `vertex`, by linear search.
    fn find_entry(&self, vertex: i64) -> (r: Option<usize>)
        ensures
            match r {
                Some(i) => i < self.content@.len() && self.content@[i as int].0 == vertex,
                None => !self.has_vertex(vertex),
            },
    {
        let mut i: usize = 0;
        while i < self.content.len()
            invariant
                i <= self.content@.len(),
                forall|k: int| 0 <= k < i ==> (#[trigger] self.content@[k].0) != vertex,
            decreases self.content@.len() - i,
        {
            if self.content[i].0 == vertex {
                return Some(i);
            }
            i = i + 1;
        }
        None
    }

    /// Adds `vertex` with an empty adjacency list; if it already exists, the
    /// previous adjacency list is replaced by an empty one and handed back.
    pub fn insert_vertex(&mut self, vertex: i64) -> (r: Option<Vec<(i64, u64)>>)
        requires
            old(self).wf(),
        ensures
            final(self).wf(),
            final(self).has_vertex(vertex),
            final(self).adj_of(vertex) == Seq::<(i64, u64)>::empty(),
            forall|v: i64|
                #[trigger] final(self).has_vertex(v) == (old(self).has_vertex(v) || v == vertex),
            forall|v: i64|
                old(self).has_vertex(v) && v != vertex ==> #[trigger] final(self).adj_of(v) == old(
                    self,
                ).adj_of(v),
            old(self).has_vertex(vertex) ==> {
                &&& r matches Some(prior) && prior@ == old(self).adj_of(vertex)
                &&& final(self).content@.len() == old(self).content@.len()
            },
            !old(self).has_vertex(vertex) ==> {
                &&& r is None
                &&& final(self).content@.len() == old(self).content@.len() + 1
                &&& final(self).content@[old(self).content@.len() as int].0 == vertex
                &&& final(self).content@.subrange(0, old(self).content@.len() as int) == old(
                    self,
                ).content@
            },
    {
        match self.find_entry(vertex) {
            Some(i) => {
                let prior = copy_edges(&self.content[i].1);
                self.content[i] = (vertex, Vec::new());
                proof {
                    old(self).lemma_idx_of(i as int, vertex);
                    self.lemma_idx_of(i as int, vertex);
                    assert forall|v: i64| old(self).has_vertex(v) && v != vertex implies #[trigger] self.adj_of(v) == old(self).adj_of(v) by {
                        let k = old(self).idx_of(v);
                        old(self).lemma_idx_of(k, v);
                        self.lemma_idx_of(k, v);
                    }
                    assert forall|v: i64| #[trigger] self.has_vertex(v) == (old(self).has_vertex(v)
                        || v == vertex) by {
                        if self.has_vertex(v) && v != vertex {
                            let k = self.idx_of(v);
                            old(self).lemma_idx_of(k, v);
                        }
                        if old(self).has_vertex(v) && v != vertex {
                            let k = old(self).idx_of(v);
                            self.lemma_idx_of(k, v);
                        }
                    }
                }
                Some(prior)
            },
            None => {
                self.content.push((vertex, Vec::new()));
                proof {
                    let n = old(self).content@.len() as int;
                    assert(self.content@.subrange(0, n) =~= old(self).content@);
                    self.lemma_idx_of(n, vertex);
                    assert forall|v: i64| old(self).has_vertex(v) && v != vertex implies #[trigger] self.adj_of(v) == old(self).adj_of(v) by {
                        let k = old(self).idx_of(v);
                        old(self).lemma_idx_of(k, v);
                        self.lemma_idx_of(k, v);
                    }
                    assert forall|v: i64| #[trigger] self.has_vertex(v) == (old(self).has_vertex(v)
                        || v == vertex) by {
                        if self.has_vertex(v) && v != vertex {
                            let k = self.idx_of(v);
                            if k < n {
                                old(self).lemma_idx_of(k, v);
                            }
                        }
                        if old(self).has_vertex(v) {
                            let k = old(self).idx_of(v);
                            self.lemma_idx_of(k, v);
                        }
                    }
                }
                None
            },
        }
    }

    pub fn vertex_exists(&self, vertex: &i64) -> (r: bool)
        ensures
            r == self.has_vertex(*vertex),
    {
        match self.find_entry(*vertex) {
            Some(_) => true,
            None => false,
        }
    }

    pub fn vertex_count(&self) -> (r: usize)
        ensures
            r == self.content@.len(),
    {
        self.content.len()
    }

    /// The vertex keys, in entry order.
    pub fn get_vertices(&self) -> (r: Vec<i64>)
        ensures
            r@.len() == self.content@.len(),
            forall|i: int| 0 <= i < r@.len() ==> r@[i] == (#[trigger] self.content@[i]).0,
    {
        let mut out: Vec<i64> = Vec::new();
        let mut i: usize = 0;
        while i < self.content.len()
            invariant
                i <= self.content@.len(),
                out@.len() == i,
                forall|k: int| 0 <= k < i ==> out@[k] == (#[trigger] self.content@[k]).0,
            decreases self.content@.len() - i,
        {
            out.push(self.content[i].0);
            i = i + 1;
        }
        out
    }

    pub fn adjacency_list(&self, vertex: &i64) -> (r: Option<&Vec<(i64, u64)>>)
        requires
            self.wf(),
        ensures
            match r {
                Some(l) => self.has_vertex(*vertex) && l@ == self.adj_of(*vertex),
                None => !self.has_vertex(*vertex),
            },
    {
        match self.find_entry(*vertex) {
            Some(i) => {
                proof {
                    self.lemma_idx_of(i as int, *vertex);
                }
                Some(&self.content[i].1)
            },
            None => None,
        }
    }

    /// Appends `(to, value)` to `from`'s adjacency list; a no-op returning
    /// `None` unless both `from` and `to` already exist as vertices.
    pub fn insert_edge(&mut self, from: i64, to: i64, value: u64) -> (r: Option<()>)
        requires
            old(self).wf(),
        ensures
            final(self).wf(),
            r is Some <==> old(self).has_vertex(from) && old(self).has_vertex(to),
            !(old(self).has_vertex(from) && old(self).has_vertex(to)) ==> *final(self) == *old(
                self,
            ),
            old(self).has_vertex(from) && old(self).has_vertex(to) ==> {
                &&& final(self).adj_of(from) == old(self).adj_of(from).push((to, value))
                &&& forall|v: i64|
                    #[trigger] final(self).has_vertex(v) == old(self).has_vertex(v)
                &&& forall|v: i64|
                    old(self).has_vertex(v) && v != from ==> #[trigger] final(self).adj_of(v)
                        == old(self).adj_of(v)
                &&& final(self).content@.len() == old(self).content@.len()
            },
    {
        if self.vertex_exists(&from) && self.vertex_exists(&to) {
            let i = self.find_entry(from).unwrap();
            let mut list = copy_edges(&self.content[i].1);
            list.push((to, value));
            self.content[i] = (from, list);
            proof {
                old(self).lemma_idx_of(i as int, from);
                self.lemma_idx_of(i as int, from);
                assert forall|v: i64| old(self).has_vertex(v) && v != from implies #[trigger] self.adj_of(v) == old(self).adj_of(v) by {
                    let k = old(self).idx_of(v);
                    old(self).lemma_idx_of(k, v);
                    self.lemma_idx_of(k, v);
                }
                assert forall|v: i64| #[trigger] self.has_vertex(v) == old(self).has_vertex(v) by {
                    if self.has_vertex(v) {
                        let k = self.idx_of(v);
                        old(self).lemma_idx_of(k, v);
                    }
                    if old(self).has_vertex(v) {
                        let k = old(self).idx_of(v);
                        self.lemma_idx_of(k, v);
                    }
                }
            }
            Some(())
        } else {
            None
        }
    }

    /// True iff `from` exists and its adjacency list has an entry to `to`.
    pub fn edge_exists(&self, from: &i64, to: &i64) -> (r: bool)
        requires
            self.wf(),
        ensures
            r == self.spec_edge_to(*from, *to),
    {
        match self.find_entry(*from) {
            Some(i) => {
                proof {
                    self.lemma_idx_of(i as int, *from);
                }
                let list = &self.content[i].1;
                let mut k: usize = 0;
                while k < list.len()
                    invariant
                        k <= list@.len(),
                        list@ == self.adj_of(*from),
                        self.has_vertex(*from),
                        forall|m: int| 0 <= m < k ==> (#[trigger] list@[m]).0 != *to,
                    decreases list@.len() - k,
                {
                    if list[k].0 == *to {
                        return true;
                    }
                    k = k + 1;
                }
                false
            },
            None => false,
        }
    }

    /// The deduplicated set of vertices that `vertex` has an edge to.
    pub fn out_neighbors(&self, vertex: &i64) -> (r: Option<Vec<i64>>)
        requires
            self.wf(),
        ensures
            match r {
                Some(l) => {
                    &&& self.has_vertex(*vertex)
                    &&& l@.no_duplicates()
                    &&& forall|x: i64| l@.contains(x) <==> self.spec_edge_to(*vertex, x)
                    &&& l@.len() <= self.adj_of(*vertex).len()
                    &&& (forall|k1: int, k2: int|
                        0 <= k1 < k2 < self.adj_of(*vertex).len() ==> (
                        #[trigger] self.adj_of(*vertex)[k1]).0 != (
                        #[trigger] self.adj_of(*vertex)[k2]).0) ==> l@.len() == self.adj_of(
                        *vertex,
                    ).len()
                },
                None => !self.has_vertex(*vertex),
            },
    {
        match self.find_entry(*vertex) {
            Some(i) => {
                proof {
                    self.lemma_idx_of(i as int, *vertex);
                }
                let list = &self.content[i].1;
                let mut out: Vec<i64> = Vec::new();
                let mut k: usize = 0;
                while k < list.len()
                    invariant
                        k <= list@.len(),
                        list@ == self.adj_of(*vertex),
                        self.has_vertex(*vertex),
                        out@.no_duplicates(),
                        forall|x: i64|
                            out@.contains(x) <==> exists|m: int|
                                0 <= m < k && (#[trigger] list@[m]).0 == x,
                        out@.len() <= k,
                        (forall|k1: int, k2: int|
                            0 <= k1 < k2 < list@.len() ==> (#[trigger] list@[k1]).0 != (
                            #[trigger] list@[k2]).0) ==> out@.len() == k,
                    decreases list@.len() - k,
                {
                    let nb = list[k].0;
                    let ghost out0 = out@;
                    if !contains_vertex(&out, nb) {
                        out.push(nb);
                        proof {
                            assert forall|i: int, j: int|
                                0 <= i < out@.len() && 0 <= j < out@.len() && i != j implies out@[i]
                                != out@[j] by {
                                if j == out0.len() && out@[i] == out@[j] {
                                    assert(out0.contains(nb));
                                } else if i == out0.len() && out@[i] == out@[j] {
                                    assert(out0.contains(nb));
                                }
                            }
                        }
                    } else {
                        proof {
                            if forall|k1: int, k2: int|
                                0 <= k1 < k2 < list@.len() ==> (#[trigger] list@[k1]).0 != (
                                #[trigger] list@[k2]).0 {
                                let m = choose|m: int|
                                    0 <= m < k && (#[trigger] list@[m]).0 == nb;
                                assert(list@[m].0 == list@[k as int].0);
                                assert(false);
                            }
                        }
                    }
                    proof {
                        assert(list@[k as int].0 == nb);
                        assert forall|x: i64| out@.contains(x) implies exists|m: int|
                            0 <= m < k + 1 && (#[trigger] list@[m]).0 == x by {
                            if out0.contains(x) {
                                let m = choose|m: int|
                                    0 <= m < k && (#[trigger] list@[m]).0 == x;
                                assert(0 <= m < k + 1 && list@[m].0 == x);
                            } else {
                                assert(x == nb);
                            }
                        }
                    }
                    k = k + 1;
                }
                Some(out)
            },
            None => None,
        }
    }

    /// The deduplicated set of other vertices that have an edge to `vertex`,
    /// found by scanning every adjacency list.
    pub fn in_neighbors(&self, vertex: &i64) -> (r: Option<Vec<i64>>)
        requires
            self.wf(),
        ensures
            match r {
                Some(l) => {
                    &&& self.has_vertex(*vertex)
                    &&& l@.no_duplicates()
                    &&& forall|x: i64|
                        l@.contains(x) <==> (x != *vertex && self.spec_edge_to(x, *vertex))
                },
                None => !self.has_vertex(*vertex),
            },
    {
        if !self.vertex_exists(vertex) {
            return None;
        }
        let mut out: Vec<i64> = Vec::new();
        let mut i: usize = 0;
        while i < self.content.len()
            invariant
                self.wf(),
                self.has_vertex(*vertex),
                i <= self.content@.len(),
                out@.no_duplicates(),
                forall|x: i64|
                    out@.contains(x) <==> (x != *vertex && self.spec_edge_to(x, *vertex) && exists|
                        k: int,
                    | 0 <= k < i && (#[trigger] self.content@[k]).0 == x),
            decreases self.content@.len() - i,
        {
            let key = self.content[i].0;
            proof {
                self.lemma_idx_of(i as int, key);
            }
            let ghost out0 = out@;
            if key != *vertex && self.edge_exists(&key, vertex) {
                proof {
                    if out0.contains(key) {
                        let k = choose|k: int|
                            0 <= k < i && (#[trigger] self.content@[k]).0 == key;
                        assert(self.content@[k].0 != self.content@[i as int].0);
                    }
                }
                out.push(key);
                proof {
                    assert forall|a: int, b: int|
                        0 <= a < out@.len() && 0 <= b < out@.len() && a != b implies out@[a]
                        != out@[b] by {
                        if b == out0.len() && out@[a] == out@[b] {
                            assert(out0.contains(key));
                        } else if a == out0.len() && out@[a] == out@[b] {
                            assert(out0.contains(key));
                        }
                    }
                }
            }
            proof {
                assert(self.content@[i as int].0 == key);
                assert forall|x: i64| out@.contains(x) implies (x != *vertex && self.spec_edge_to(
                    x,
                    *vertex,
                ) && exists|k: int| 0 <= k < i + 1 && (#[trigger] self.content@[k]).0 == x) by {
                    if out0.contains(x) {
                        let k = choose|k: int|
                            0 <= k < i && (#[trigger] self.content@[k]).0 == x;
                        assert(0 <= k < i + 1 && self.content@[k].0 == x);
                    } else {
                        assert(x == key);
                    }
                }
            }
            i = i + 1;
        }
        Some(out)
    }
}

/// Element-wise copy of an edge list.
fn copy_edges(src: &Vec<(i64, u64)>) -> (r: Vec<(i64, u64)>)
    ensures
        r@ == src@,
{
    let mut out: Vec<(i64, u64)> = Vec::new();
    let mut i: usize = 0;
    while i < src.len()
        invariant
            i <= src@.len(),
            out@ == src@.subrange(0, i as int),
        decreases src@.len() - i,
    {
        out.push(src[i]);
        proof {
            assert(out@ =~= src@.subrange(0, i + 1));
        }
        i = i + 1;
    }
    proof {
        assert(out@ =~= src@);
    }
    out
}

/// Whether `list` already holds `v`.
fn contains_vertex(list: &Vec<i64>, v: i64) -> (r: bool)
    ensures
        r == list@.contains(v),
{
    let mut i: usize = 0;
    while i < list.len()
        invariant
            i <= list@.len(),
            forall|k: int| 0 <= k < i ==> list@[k] != v,
        decreases list@.len() - i,
    {
        if list[i] == v {
            return true;
        }
        i = i + 1;
    }
    proof {
        if list@.contains(v) {
            let k = choose|k: int| 0 <= k < list@.len() && list@[k] == v;
        }
    }
    false
}

} // verus!
