//! A character trie mapping readings to entry indices.
//!
//! Nodes live in one vector; node 0 is the root and every child has a
//! larger index than its parent. Each node is reached by exactly one
//! reading (its path), recorded as ghost state. The indices at a node are
//! kept highest frequency first, equal frequencies in insertion order.
use vstd::prelude::*;
use vstd::set_lib::{lemma_int_range, lemma_len_subset, lemma_map_size, lemma_set_disjoint_lens, set_int_range};
use crate::text::{chars_of, starts_with};

verus! {

pub struct TrieNode {
    child_chars: Vec<char>,
    child_nodes: Vec<usize>,
    /// Entry indices stored at this node, highest frequency first (equal
    /// frequencies in insertion order).
    pub entry_indices: Vec<usize>,
    /// The frequency each index was inserted with, in the same order.
    entry_freqs: Vec<u32>,
}

impl TrieNode {
    fn new() -> (r: Self)
        ensures
            r.child_chars@.len() == 0,
            r.child_nodes@.len() == 0,
            r.entry_indices@.len() == 0,
            r.entry_freqs@.len() == 0,
    {
        TrieNode { child_chars: Vec::new(), child_nodes: Vec::new(), entry_indices: Vec::new(), entry_freqs: Vec::new() }
    }
}

pub struct Trie {
    nodes: Vec<TrieNode>,
    paths: Ghost<Seq<Seq<char>>>,
}

/// `i` occurs in `a + b` exactly when it occurs in `a` or in `b`.
proof fn lemma_concat_contains(a: Seq<usize>, b: Seq<usize>, i: usize)
    ensures
        (a + b).contains(i) <==> a.contains(i) || b.contains(i),
{
    if (a + b).contains(i) {
        let x = choose|x: int| 0 <= x < (a + b).len() && (a + b)[x] == i;
        if x >= a.len() {
            assert(b[x - a.len()] == i);
        } else {
            assert(a[x] == i);
        }
    }
    if a.contains(i) {
        let x = choose|x: int| 0 <= x < a.len() && a[x] == i;
        assert((a + b)[x] == i);
    }
    if b.contains(i) {
        let x = choose|x: int| 0 <= x < b.len() && b[x] == i;
        assert((a + b)[a.len() + x] == i);
    }
}

/// Two sequences without repeats and without common elements concatenate
/// to one without repeats.
proof fn lemma_concat_no_dup(a: Seq<usize>, b: Seq<usize>)
    requires
        a.no_duplicates(),
        b.no_duplicates(),
        forall|i: usize| a.contains(i) ==> !b.contains(i),
    ensures
        (a + b).no_duplicates(),
{
    let c = a + b;
    assert forall|x: int, y: int| 0 <= x < c.len() && 0 <= y < c.len() && x != y implies c[x] != c[y] by {
        if x < a.len() && y >= a.len() {
            assert(a.contains(c[x]) && b[y - a.len()] == c[y]);
        } else if y < a.len() && x >= a.len() {
            assert(a.contains(c[y]) && b[x - a.len()] == c[x]);
        } else if x >= a.len() && y >= a.len() {
            assert(c[x] == b[x - a.len()] && c[y] == b[y - a.len()]);
        }
    }
}

/// Frequencies in non-increasing order.
pub open spec fn freqs_sorted(fs: Seq<u32>) -> bool {
    forall|a: int, b: int| 0 <= a < b < fs.len() ==> #[trigger] fs[a] >= #[trigger] fs[b]
}

/// Where frequency `f` goes among `fs` (searching from `k`): before the
/// first lower frequency, after all equal or higher ones.
pub open spec fn freq_slot(fs: Seq<u32>, f: u32, k: int) -> int
    decreases fs.len() - k,
{
    if k < 0 || k >= fs.len() || fs[k] < f {
        k
    } else {
        freq_slot(fs, f, k + 1)
    }
}

/// The slot of `f` (searching from `k`) lies at or after `k`; everything
/// before it is at least `f`, and what is at it is lower.
pub proof fn lemma_freq_slot(fs: Seq<u32>, f: u32, k: int)
    requires
        0 <= k <= fs.len(),
        forall|t: int| 0 <= t < k ==> #[trigger] fs[t] >= f,
    ensures
        k <= freq_slot(fs, f, k) <= fs.len(),
        forall|t: int| 0 <= t < freq_slot(fs, f, k) ==> #[trigger] fs[t] >= f,
        freq_slot(fs, f, k) < fs.len() ==> fs[freq_slot(fs, f, k)] < f,
    decreases fs.len() - k,
{
    if k < fs.len() && fs[k] >= f {
        lemma_freq_slot(fs, f, k + 1);
    }
}

/// Inserting a frequency at its slot keeps the order.
proof fn lemma_insert_sorted(fs: Seq<u32>, f: u32)
    requires
        freqs_sorted(fs),
    ensures
        freqs_sorted(fs.insert(freq_slot(fs, f, 0), f)),
{
    lemma_freq_slot(fs, f, 0);
    let p = freq_slot(fs, f, 0);
    let g = fs.insert(p, f);
    assert forall|a: int, b: int| 0 <= a < b < g.len() implies #[trigger] g[a] >= #[trigger] g[b] by {
        if b < p {
        } else if b == p {
            assert(g[a] == fs[a]);
        } else if a < p {
            assert(g[b] == fs[b - 1]);
            assert(g[a] == fs[a]);
        } else if a == p {
            assert(g[b] == fs[b - 1]);
            assert(fs[p] < f);
            if b - 1 > p {
                assert(fs[p] >= fs[b - 1]);
            }
        } else {
            assert(g[a] == fs[a - 1] && g[b] == fs[b - 1]);
        }
    }
}

impl Trie {
    /// Character of the `a`-th edge out of node `k`.
    pub closed spec fn edge_char(&self, k: int, a: int) -> char {
        self.nodes@[k].child_chars@[a]
    }

    /// Target of the `a`-th edge out of node `k`.
    pub closed spec fn edge_node(&self, k: int, a: int) -> int {
        self.nodes@[k].child_nodes@[a] as int
    }

    pub closed spec fn n_edges(&self, k: int) -> int {
        self.nodes@[k].child_nodes@.len() as int
    }

    pub closed spec fn n_nodes(&self) -> int {
        self.nodes@.len() as int
    }

    /// The reading that leads to node `k`.
    pub closed spec fn path(&self, k: int) -> Seq<char> {
        self.paths@[k]
    }

    /// Entry indices stored at node `k`.
    pub closed spec fn node_entries(&self, k: int) -> Seq<usize> {
        self.nodes@[k].entry_indices@
    }

    /// Frequencies of the entries stored at node `k`, in the same order.
    pub closed spec fn node_freqs(&self, k: int) -> Seq<u32> {
        self.nodes@[k].entry_freqs@
    }

    /// Node `j` is the target of an edge out of an earlier node.
    pub closed spec fn has_parent(&self, j: int) -> bool {
        exists|k: int, a: int| 0 <= k < j && 0 <= a < self.n_edges(k) && #[trigger] self.edge_node(k, a) == j
    }

    /// Structural well-formedness of the trie.
    pub closed spec fn wf(&self) -> bool {
        let n = self.nodes@.len() as int;
        &&& n >= 1
        &&& self.paths@.len() == n
        &&& self.paths@[0] == Seq::<char>::empty()
        &&& forall|k: int| 0 <= k < n ==> self.nodes@[k].child_chars@.len() == #[trigger] self.nodes@[k].child_nodes@.len()
        &&& forall|k: int, a: int| 0 <= k < n && 0 <= a < self.n_edges(k) ==> k < #[trigger] self.edge_node(k, a) < n
            && self.paths@[self.edge_node(k, a)] == self.paths@[k].push(self.edge_char(k, a))
        &&& forall|k: int, a: int, b: int| 0 <= k < n && 0 <= a < b < self.n_edges(k) ==> #[trigger] self.edge_char(k, a) != #[trigger] self.edge_char(k, b)
        &&& forall|j: int| 1 <= j < n ==> #[trigger] self.has_parent(j)
        &&& forall|j1: int, j2: int| 0 <= j1 < n && 0 <= j2 < n && j1 != j2 ==> #[trigger] self.paths@[j1] != #[trigger] self.paths@[j2]
        &&& forall|k: int| 0 <= k < n ==> (#[trigger] self.nodes@[k]).entry_indices@.no_duplicates()
            && self.nodes@[k].entry_freqs@.len() == self.nodes@[k].entry_indices@.len()
            && freqs_sorted(self.nodes@[k].entry_freqs@)
    }

    /// Whether some node is reached by reading `r`.
    pub closed spec fn has_node(&self, r: Seq<char>) -> bool {
        exists|m: int| 0 <= m < self.n_nodes() && #[trigger] self.path(m) == r
    }

    /// The entry indices stored under reading `r` (empty if none).
    pub closed spec fn indices(&self, r: Seq<char>) -> Seq<usize> {
        if self.has_node(r) {
            self.node_entries(choose|m: int| 0 <= m < self.n_nodes() && #[trigger] self.path(m) == r)
        } else {
            Seq::empty()
        }
    }

    /// The frequencies stored with the indices under reading `r`, in the same order.
    pub closed spec fn freqs(&self, r: Seq<char>) -> Seq<u32> {
        if self.has_node(r) {
            self.node_freqs(choose|m: int| 0 <= m < self.n_nodes() && #[trigger] self.path(m) == r)
        } else {
            Seq::empty()
        }
    }

    /// The indices under a reading come with one frequency each, highest first.
    pub proof fn lemma_reading_freqs(&self, r: Seq<char>)
        requires
            self.wf(),
        ensures
            self.freqs(r).len() == self.indices(r).len(),
            freqs_sorted(self.freqs(r)),
    {
        if self.has_node(r) {
            let m = choose|m: int| 0 <= m < self.n_nodes() && #[trigger] self.path(m) == r;
            assert(self.nodes@[m].entry_indices@.no_duplicates());
        }
    }

    /// Whether entry index `i` is stored under some reading that starts with `p`.
    pub closed spec fn under_prefix(&self, p: Seq<char>, i: usize) -> bool {
        exists|m: int| 0 <= m < self.n_nodes() && starts_with(#[trigger] self.path(m), p)
            && self.node_entries(m).contains(i)
    }

    /// An index lies under prefix `p` exactly when some reading that starts
    /// with `p` stores it.
    pub proof fn lemma_under_prefix(&self, p: Seq<char>, i: usize)
        requires
            self.wf(),
        ensures
            self.under_prefix(p, i) <==> exists|r: Seq<char>| starts_with(r, p) && #[trigger] self.indices(r).contains(i),
    {
        if self.under_prefix(p, i) {
            let m = choose|m: int| 0 <= m < self.n_nodes() && starts_with(#[trigger] self.path(m), p)
                && self.node_entries(m).contains(i);
            self.lemma_indices_at(m);
            assert(self.indices(self.path(m)).contains(i));
        }
        if exists|r: Seq<char>| starts_with(r, p) && #[trigger] self.indices(r).contains(i) {
            let r = choose|r: Seq<char>| starts_with(r, p) && #[trigger] self.indices(r).contains(i);
            assert(self.has_node(r));
            let m = choose|m: int| 0 <= m < self.n_nodes() && #[trigger] self.path(m) == r;
            assert(self.node_entries(m).contains(i));
        }
    }

    proof fn lemma_indices_at(&self, m: int)
        requires
            self.wf(),
            0 <= m < self.n_nodes(),
        ensures
            self.has_node(self.path(m)),
            self.indices(self.path(m)) == self.node_entries(m),
            self.freqs(self.path(m)) == self.node_freqs(m),
    {
        let r = self.path(m);
        assert(self.has_node(r));
        let m2 = choose|m2: int| 0 <= m2 < self.n_nodes() && #[trigger] self.path(m2) == r;
        if m2 != m {
            assert(self.paths@[m2] != self.paths@[m]);
        }
    }

    /// Every prefix of a node's reading is itself the reading of some node.
    proof fn lemma_prefix_node(&self, j: int, q: Seq<char>)
        requires
            self.wf(),
            0 <= j < self.n_nodes(),
            starts_with(self.path(j), q),
        ensures
            self.has_node(q),
        decreases j,
    {
        if self.path(j) == q {
            assert(self.path(j) == q);
        } else {
            assert(self.path(j).len() > q.len()) by {
                if self.path(j).len() == q.len() {
                    assert(self.path(j).subrange(0, q.len() as int) =~= self.path(j));
                }
            }
            assert(j != 0);
            assert(self.has_parent(j));
            let (k, a) = choose|k: int, a: int| 0 <= k < j && 0 <= a < self.n_edges(k) && #[trigger] self.edge_node(k, a) == j;
            let pk = self.path(k);
            assert(self.path(j) == pk.push(self.edge_char(k, a)));
            assert(starts_with(pk, q)) by {
                assert(pk.subrange(0, q.len() as int) =~= self.path(j).subrange(0, q.len() as int));
            }
            self.lemma_prefix_node(k, q);
        }
    }

    /// A node whose reading extends node `k`'s by one character is a child of `k`.
    proof fn lemma_child_of(&self, k: int, m: int, c: char)
        requires
            self.wf(),
            0 <= k < self.n_nodes(),
            0 <= m < self.n_nodes(),
            self.path(m) == self.path(k).push(c),
        ensures
            exists|a: int| 0 <= a < self.n_edges(k) && #[trigger] self.edge_node(k, a) == m && self.edge_char(k, a) == c,
    {
        assert(m != 0) by {
            assert(self.path(m).len() > 0);
        }
        assert(self.has_parent(m));
        let (p, a) = choose|p: int, a: int| 0 <= p < m && 0 <= a < self.n_edges(p) && #[trigger] self.edge_node(p, a) == m;
        assert(self.path(m) == self.path(p).push(self.edge_char(p, a)));
        assert(self.path(p) =~= self.path(m).drop_last());
        assert(self.path(k) =~= self.path(m).drop_last());
        if p != k {
            assert(self.paths@[p] != self.paths@[k]);
        }
        assert(self.edge_char(k, a) == self.path(m).last());
    }

    /// A node strictly below `k` lies below one of `k`'s children.
    proof fn lemma_below_child(&self, k: int, m: int)
        requires
            self.wf(),
            0 <= k < self.n_nodes(),
            0 <= m < self.n_nodes(),
            m != k,
            starts_with(self.path(m), self.path(k)),
        ensures
            exists|a: int| 0 <= a < self.n_edges(k) && starts_with(self.path(m), self.path(#[trigger] self.edge_node(k, a))),
    {
        let pk = self.path(k);
        let pm = self.path(m);
        assert(pm.len() > pk.len()) by {
            if pm.len() == pk.len() {
                assert(pm.subrange(0, pk.len() as int) =~= pm);
                assert(self.paths@[m] != self.paths@[k]);
            }
        }
        let q = pm.subrange(0, pk.len() + 1 as int);
        assert(starts_with(pm, q)) by {
            assert(pm.subrange(0, q.len() as int) =~= q);
        }
        self.lemma_prefix_node(m, q);
        let m2 = choose|m2: int| 0 <= m2 < self.n_nodes() && #[trigger] self.path(m2) == q;
        assert(q =~= pk.push(pm[pk.len() as int])) by {
            assert(pm.subrange(0, pk.len() as int) == pk);
        }
        self.lemma_child_of(k, m2, pm[pk.len() as int]);
        let a = choose|a: int| 0 <= a < self.n_edges(k) && #[trigger] self.edge_node(k, a) == m2 && self.edge_char(k, a) == pm[pk.len() as int];
        assert(starts_with(pm, self.path(self.edge_node(k, a))));
    }

    /// Changing only the entry lists keeps the trie well-formed.
    proof fn lemma_same_shape(a: Trie, b: Trie)
        requires
            a.wf(),
            a.nodes@.len() == b.nodes@.len(),
            a.paths@ == b.paths@,
            forall|kk: int| 0 <= kk < b.n_nodes() ==> (#[trigger] b.nodes@[kk]).child_chars@ == a.nodes@[kk].child_chars@
                && b.nodes@[kk].child_nodes@ == a.nodes@[kk].child_nodes@,
            forall|kk: int| 0 <= kk < b.n_nodes() ==> (#[trigger] b.nodes@[kk]).entry_indices@.no_duplicates()
                && b.nodes@[kk].entry_freqs@.len() == b.nodes@[kk].entry_indices@.len()
                && freqs_sorted(b.nodes@[kk].entry_freqs@),
        ensures
            b.wf(),
    {
        assert forall|kk: int, x: int| 0 <= kk < b.n_nodes() && 0 <= x < b.n_edges(kk) implies #[trigger] b.edge_node(kk, x) == a.edge_node(kk, x) && b.edge_char(kk, x) == a.edge_char(kk, x) by {
            assert(b.nodes@[kk].child_chars@ == a.nodes@[kk].child_chars@);
            assert(b.nodes@[kk].child_nodes@ == a.nodes@[kk].child_nodes@);
        }
        assert forall|kk: int| 0 <= kk < b.n_nodes() implies #[trigger] b.n_edges(kk) == a.n_edges(kk) by {
            assert(b.nodes@[kk].child_nodes@ == a.nodes@[kk].child_nodes@);
        }
        assert forall|j: int| 1 <= j < b.n_nodes() implies #[trigger] b.has_parent(j) by {
            assert(a.has_parent(j));
            let (k, x) = choose|k: int, x: int| 0 <= k < j && 0 <= x < a.n_edges(k) && #[trigger] a.edge_node(k, x) == j;
            assert(b.edge_node(k, x) == j);
        }
        assert forall|kk: int| 0 <= kk < b.n_nodes() implies b.nodes@[kk].child_chars@.len() == #[trigger] b.nodes@[kk].child_nodes@.len() by {
            assert(b.nodes@[kk].child_chars@ == a.nodes@[kk].child_chars@);
            assert(a.nodes@[kk].child_chars@.len() == a.nodes@[kk].child_nodes@.len());
        }
        assert forall|kk: int, x: int, y: int| 0 <= kk < b.n_nodes() && 0 <= x < y < b.n_edges(kk) implies #[trigger] b.edge_char(kk, x) != #[trigger] b.edge_char(kk, y) by {
            assert(a.edge_char(kk, x) != a.edge_char(kk, y));
        }
    }

    /// An empty trie (only the root).
    pub fn new() -> (r: Self)
        ensures
            r.wf(),
            forall|s: Seq<char>| #[trigger] r.indices(s) == Seq::<usize>::empty(),
            forall|s: Seq<char>| #[trigger] r.freqs(s) == Seq::<u32>::empty(),
    {
        let mut nodes = Vec::new();
        nodes.push(TrieNode::new());
        let paths: Ghost<Seq<Seq<char>>> = Ghost(Seq::<Seq<char>>::empty().push(Seq::<char>::empty()));
        let r = Trie { nodes, paths };
        assert forall|s: Seq<char>| #[trigger] r.indices(s) == Seq::<usize>::empty() by {
            if r.has_node(s) {
                let m = choose|m: int| 0 <= m < r.n_nodes() && #[trigger] r.path(m) == s;
                assert(m == 0);
            }
        }
        assert forall|s: Seq<char>| #[trigger] r.freqs(s) == Seq::<u32>::empty() by {
            if r.has_node(s) {
                let m = choose|m: int| 0 <= m < r.n_nodes() && #[trigger] r.path(m) == s;
                assert(m == 0);
            }
        }
        r
    }

    /// The child of node `k` along character `c`, if any.
    fn find_child(&self, k: usize, c: char) -> (r: Option<usize>)
        requires
            self.wf(),
            k < self.n_nodes(),
        ensures
            match r {
                Some(j) => j < self.n_nodes() && self.path(j as int) == self.path(k as int).push(c),
                None => forall|a: int| 0 <= a < self.n_edges(k as int) ==> #[trigger] self.edge_char(k as int, a) != c,
            },
    {
        let node = &self.nodes[k];
        let mut a: usize = 0;
        while a < node.child_chars.len()
            invariant
                self.wf(),
                k < self.n_nodes(),
                node == &self.nodes@[k as int],
                a <= node.child_chars@.len(),
                forall|b: int| 0 <= b < a ==> #[trigger] self.edge_char(k as int, b) != c,
            decreases node.child_chars@.len() - a,
        {
            if node.child_chars[a] == c {
                assert(self.edge_char(k as int, a as int) == c);
                let j = node.child_nodes[a];
                assert(self.edge_node(k as int, a as int) == j);
                return Some(j);
            }
            a += 1;
        }
        None
    }

    /// The node reached by reading `r`, if any.
    fn find_node(&self, r: &Vec<char>) -> (res: Option<usize>)
        requires
            self.wf(),
        ensures
            match res {
                Some(k) => k < self.n_nodes() && self.path(k as int) == r@,
                None => !self.has_node(r@),
            },
    {
        let mut k: usize = 0;
        let mut i: usize = 0;
        while i < r.len()
            invariant
                self.wf(),
                i <= r.len(),
                k < self.n_nodes(),
                self.path(k as int) == r@.take(i as int),
            decreases r.len() - i,
        {
            match self.find_child(k, r[i]) {
                Some(j) => {
                    assert(r@.take(i + 1) =~= r@.take(i as int).push(r@[i as int]));
                    k = j;
                    i += 1;
                },
                None => {
                    proof {
                        if self.has_node(r@) {
                            let m = choose|m: int| 0 <= m < self.n_nodes() && #[trigger] self.path(m) == r@;
                            let q = r@.take(i + 1);
                            assert(starts_with(self.path(m), q)) by {
                                assert(r@.subrange(0, q.len() as int) =~= q);
                            }
                            self.lemma_prefix_node(m, q);
                            let m2 = choose|m2: int| 0 <= m2 < self.n_nodes() && #[trigger] self.path(m2) == q;
                            assert(q =~= self.path(k as int).push(r@[i as int]));
                            self.lemma_child_of(k as int, m2, r@[i as int]);
                        }
                    }
                    return None;
                },
            }
        }
        assert(r@.take(r.len() as int) =~= r@);
        Some(k)
    }

    /// Adds a new node below `k` along character `c` (which `k` has no
    /// edge for) and returns its index.
    fn add_child(&mut self, k: usize, c: char) -> (n: usize)
        requires
            old(self).wf(),
            k < old(self).n_nodes(),
            forall|a: int| 0 <= a < old(self).n_edges(k as int) ==> #[trigger] old(self).edge_char(k as int, a) != c,
        ensures
            final(self).wf(),
            n == old(self).n_nodes(),
            final(self).n_nodes() == n + 1,
            final(self).path(n as int) == old(self).path(k as int).push(c),
            final(self).node_entries(n as int).len() == 0,
            forall|m: int| 0 <= m < n ==> #[trigger] final(self).path(m) == old(self).path(m)
                && final(self).node_entries(m) == old(self).node_entries(m)
                && final(self).node_freqs(m) == old(self).node_freqs(m),
    {
        let n = self.nodes.len();
        let ghost before = *self;
        let ghost new_path = self.path(k as int).push(c);
        proof {
            assert forall|m: int| 0 <= m < n implies #[trigger] self.path(m) != new_path by {
                if self.path(m) == new_path {
                    self.lemma_child_of(k as int, m, c);
                }
            }
        }
        let fresh = TrieNode::new();
        self.nodes.push(fresh);
        let new_paths: Ghost<Seq<Seq<char>>> = Ghost(self.paths@.push(new_path));
        self.paths = new_paths;
        let mut node = TrieNode::new();
        self.nodes.set_and_swap(k, &mut node);
        node.child_chars.push(c);
        node.child_nodes.push(n);
        self.nodes.set(k, node);
        proof {
            let t = *self;
            assert(t.nodes@.len() == n + 1);
            assert(t.nodes@[n as int] == fresh);
            assert forall|kk: int, a: int| 0 <= kk < t.n_nodes() && 0 <= a < t.n_edges(kk) implies kk < #[trigger] t.edge_node(kk, a) < t.n_nodes()
                && t.paths@[t.edge_node(kk, a)] == t.paths@[kk].push(t.edge_char(kk, a)) by {
                if kk == k && a == before.n_edges(kk) {
                } else if kk < n {
                    assert(t.edge_node(kk, a) == before.edge_node(kk, a));
                    assert(t.edge_char(kk, a) == before.edge_char(kk, a));
                }
            }
            assert forall|kk: int, a: int, b: int| 0 <= kk < t.n_nodes() && 0 <= a < b < t.n_edges(kk) implies #[trigger] t.edge_char(kk, a) != #[trigger] t.edge_char(kk, b) by {
                if kk == k && b == before.n_edges(kk) {
                    assert(t.edge_char(kk, a) == before.edge_char(kk, a));
                } else if kk < n {
                    assert(t.edge_char(kk, a) == before.edge_char(kk, a));
                    assert(t.edge_char(kk, b) == before.edge_char(kk, b));
                }
            }
            assert forall|j: int| 1 <= j < t.n_nodes() implies #[trigger] t.has_parent(j) by {
                if j == n {
                    assert(t.edge_node(k as int, before.n_edges(k as int)) == j);
                } else {
                    assert(before.has_parent(j));
                    let (kk, a) = choose|kk: int, a: int| 0 <= kk < j && 0 <= a < before.n_edges(kk) && #[trigger] before.edge_node(kk, a) == j;
                    assert(t.edge_node(kk, a) == j);
                }
            }
            assert forall|j1: int, j2: int| 0 <= j1 < t.n_nodes() && 0 <= j2 < t.n_nodes() && j1 != j2 implies #[trigger] t.paths@[j1] != #[trigger] t.paths@[j2] by {
                if j1 == n {
                    assert(t.path(j2) == before.path(j2));
                } else if j2 == n {
                    assert(t.path(j1) == before.path(j1));
                } else {
                    assert(before.paths@[j1] != before.paths@[j2]);
                }
            }
            assert forall|kk: int| 0 <= kk < t.n_nodes() implies (#[trigger] t.nodes@[kk]).entry_indices@.no_duplicates()
                && t.nodes@[kk].entry_freqs@.len() == t.nodes@[kk].entry_indices@.len()
                && freqs_sorted(t.nodes@[kk].entry_freqs@) by {
                if kk < n {
                    assert(t.nodes@[kk].entry_indices@ == before.nodes@[kk].entry_indices@);
                    assert(t.nodes@[kk].entry_freqs@ == before.nodes@[kk].entry_freqs@);
                }
            }
            assert forall|kk: int| 0 <= kk < t.n_nodes() implies t.nodes@[kk].child_chars@.len() == #[trigger] t.nodes@[kk].child_nodes@.len() by {
                if kk < n && kk != k {
                    assert(t.nodes@[kk] == before.nodes@[kk]);
                }
            }
            assert forall|m: int| 0 <= m < n implies #[trigger] t.path(m) == before.path(m)
                && t.node_entries(m) == before.node_entries(m) && t.node_freqs(m) == before.node_freqs(m) by {
            }
        }
        n
    }

    /// Stores `idx` with frequency `freq` at node `k` (unless already
    /// there): before the first entry with a lower frequency.
    fn add_index_at(&mut self, k: usize, idx: usize, freq: u32)
        requires
            old(self).wf(),
            k < old(self).n_nodes(),
        ensures
            final(self).wf(),
            final(self).n_nodes() == old(self).n_nodes(),
            forall|m: int| 0 <= m < final(self).n_nodes() ==> #[trigger] final(self).path(m) == old(self).path(m),
            forall|m: int| 0 <= m < final(self).n_nodes() && m != k ==> #[trigger] final(self).node_entries(m) == old(self).node_entries(m)
                && final(self).node_freqs(m) == old(self).node_freqs(m),
            old(self).node_entries(k as int).contains(idx) ==> final(self).node_entries(k as int) == old(self).node_entries(k as int)
                && final(self).node_freqs(k as int) == old(self).node_freqs(k as int),
            !old(self).node_entries(k as int).contains(idx) ==> {
                let p = freq_slot(old(self).node_freqs(k as int), freq, 0);
                &&& final(self).node_entries(k as int) == old(self).node_entries(k as int).insert(p, idx)
                &&& final(self).node_freqs(k as int) == old(self).node_freqs(k as int).insert(p, freq)
            },
    {
        let ghost pre = *self;
        let mut node = TrieNode::new();
        self.nodes.set_and_swap(k, &mut node);
        let mut present = false;
        let mut a: usize = 0;
        while a < node.entry_indices.len()
            invariant
                a <= node.entry_indices@.len(),
                present == (exists|b: int| 0 <= b < a && node.entry_indices@[b] == idx),
            decreases node.entry_indices@.len() - a,
        {
            if node.entry_indices[a] == idx {
                present = true;
            }
            a += 1;
        }
        let ghost before_entries = node.entry_indices@;
        let ghost before_freqs = node.entry_freqs@;
        assert(before_entries == pre.node_entries(k as int));
        assert(before_freqs == pre.node_freqs(k as int));
        assert(pre.nodes@[k as int].entry_indices@.no_duplicates());
        if !present {
            let mut p: usize = 0;
            proof { lemma_freq_slot(before_freqs, freq, 0); }
            while p < node.entry_freqs.len() && node.entry_freqs[p] >= freq
                invariant
                    node.entry_freqs@ == before_freqs,
                    p <= before_freqs.len(),
                    forall|t: int| 0 <= t < p ==> #[trigger] before_freqs[t] >= freq,
                    freq_slot(before_freqs, freq, 0) == freq_slot(before_freqs, freq, p as int),
                decreases before_freqs.len() - p,
            {
                p += 1;
            }
            assert(freq_slot(before_freqs, freq, p as int) == p);
            node.entry_indices.insert(p, idx);
            node.entry_freqs.insert(p, freq);
        }
        self.nodes.set(k, node);
        proof {
            let t = *self;
            assert(present == before_entries.contains(idx));
            assert forall|kk: int| 0 <= kk < t.n_nodes() implies (#[trigger] t.nodes@[kk]).child_chars@ == pre.nodes@[kk].child_chars@
                && t.nodes@[kk].child_nodes@ == pre.nodes@[kk].child_nodes@ by {
            }
            assert forall|kk: int| 0 <= kk < t.n_nodes() implies (#[trigger] t.nodes@[kk]).entry_indices@.no_duplicates()
                && t.nodes@[kk].entry_freqs@.len() == t.nodes@[kk].entry_indices@.len()
                && freqs_sorted(t.nodes@[kk].entry_freqs@) by {
                if kk == k && !present {
                    let p = freq_slot(before_freqs, freq, 0);
                    lemma_freq_slot(before_freqs, freq, 0);
                    let e = t.nodes@[kk].entry_indices@;
                    assert(e == before_entries.insert(p, idx));
                    assert forall|x: int, y: int| 0 <= x < e.len() && 0 <= y < e.len() && x != y implies e[x] != e[y] by {
                        let x1 = if x < p { x } else { x - 1 };
                        let y1 = if y < p { y } else { y - 1 };
                        if x != p && y != p {
                            assert(e[x] == before_entries[x1] && e[y] == before_entries[y1]);
                        } else if x == p {
                            assert(e[y] == before_entries[y1]);
                        } else {
                            assert(e[x] == before_entries[x1]);
                        }
                    }
                    lemma_insert_sorted(before_freqs, freq);
                } else if kk != k {
                    assert(pre.nodes@[kk].entry_indices@.no_duplicates());
                }
            }
            Self::lemma_same_shape(pre, t);
        }
    }

    /// Inserts entry index `entry_idx` under `reading`, keeping the indices
    /// of a reading in descending frequency (equal frequencies in insertion
    /// order); an index already stored there is not stored twice.
    pub fn insert(&mut self, reading: &str, entry_idx: usize, frequency: u32)
        requires
            old(self).wf(),
        ensures
            final(self).wf(),
            forall|s: Seq<char>| s != reading@ ==> #[trigger] final(self).indices(s) == old(self).indices(s)
                && final(self).freqs(s) == old(self).freqs(s),
            old(self).indices(reading@).contains(entry_idx) ==> final(self).indices(reading@) == old(self).indices(reading@)
                && final(self).freqs(reading@) == old(self).freqs(reading@),
            !old(self).indices(reading@).contains(entry_idx) ==> {
                let p = freq_slot(old(self).freqs(reading@), frequency, 0);
                &&& final(self).indices(reading@) == old(self).indices(reading@).insert(p, entry_idx)
                &&& final(self).freqs(reading@) == old(self).freqs(reading@).insert(p, frequency)
            },
    {
        let r = chars_of(reading);
        let ghost old_trie = *self;
        let mut k: usize = 0;
        let mut i: usize = 0;
        while i < r.len()
            invariant
                self.wf(),
                i <= r.len(),
                k < self.n_nodes(),
                self.path(k as int) == r@.take(i as int),
                r@ == reading@,
                self.n_nodes() >= old_trie.n_nodes(),
                forall|m: int| #![trigger self.path(m)] #![trigger self.node_entries(m)] 0 <= m < old_trie.n_nodes() ==> self.path(m) == old_trie.path(m) && self.node_entries(m) == old_trie.node_entries(m)
                    && self.node_freqs(m) == old_trie.node_freqs(m),
                forall|m: int| old_trie.n_nodes() <= m < self.n_nodes() ==> #[trigger] self.node_entries(m).len() == 0,
            decreases r.len() - i,
        {
            let c = r[i];
            assert(r@.take(i + 1) =~= r@.take(i as int).push(c));
            match self.find_child(k, c) {
                Some(j) => {
                    k = j;
                },
                None => {
                    let ghost before = *self;
                    let n = self.add_child(k, c);
                    proof {
                        Self::lemma_extend_agree(old_trie, before, *self, n as int);
                    }
                    k = n;
                },
            }
            i += 1;
        }
        assert(r@.take(r.len() as int) =~= r@);
        let ghost pre = *self;
        self.add_index_at(k, entry_idx, frequency);
        proof {
            Self::lemma_insert_views(old_trie, pre, *self, reading@, k as int, entry_idx, frequency);
        }
    }

    /// Agreement with the trie before the change survives adding a node.
    proof fn lemma_extend_agree(old_trie: Trie, before: Trie, t: Trie, n: int)
        requires
            before.n_nodes() == n,
            t.n_nodes() == n + 1,
            t.node_entries(n).len() == 0,
            n >= old_trie.n_nodes(),
            forall|m: int| #![trigger t.path(m)] #![trigger t.node_entries(m)] 0 <= m < n ==> t.path(m) == before.path(m) && t.node_entries(m) == before.node_entries(m)
                && t.node_freqs(m) == before.node_freqs(m),
            forall|m: int| #![trigger before.path(m)] #![trigger before.node_entries(m)] 0 <= m < old_trie.n_nodes() ==> before.path(m) == old_trie.path(m) && before.node_entries(m) == old_trie.node_entries(m)
                && before.node_freqs(m) == old_trie.node_freqs(m),
            forall|m: int| old_trie.n_nodes() <= m < before.n_nodes() ==> #[trigger] before.node_entries(m).len() == 0,
        ensures
            forall|m: int| #![trigger t.path(m)] #![trigger t.node_entries(m)] 0 <= m < old_trie.n_nodes() ==> t.path(m) == old_trie.path(m) && t.node_entries(m) == old_trie.node_entries(m)
                && t.node_freqs(m) == old_trie.node_freqs(m),
            forall|m: int| old_trie.n_nodes() <= m < t.n_nodes() ==> #[trigger] t.node_entries(m).len() == 0,
    {
        assert forall|m: int| #![trigger t.path(m)] #![trigger t.node_entries(m)] 0 <= m < old_trie.n_nodes() implies t.path(m) == old_trie.path(m) && t.node_entries(m) == old_trie.node_entries(m)
            && t.node_freqs(m) == old_trie.node_freqs(m) by {
            assert(t.path(m) == before.path(m));
            assert(before.path(m) == old_trie.path(m));
        }
        assert forall|m: int| old_trie.n_nodes() <= m < t.n_nodes() implies #[trigger] t.node_entries(m).len() == 0 by {
            if m < n {
                assert(t.path(m) == before.path(m));
                assert(t.node_entries(m) == before.node_entries(m));
            }
        }
    }

    /// How the reading view changes across an insertion.
    proof fn lemma_insert_views(old_trie: Trie, pre: Trie, t: Trie, r: Seq<char>, k: int, idx: usize, freq: u32)
        requires
            old_trie.wf(),
            pre.wf(),
            t.wf(),
            0 <= k < pre.n_nodes(),
            pre.path(k) == r,
            pre.n_nodes() >= old_trie.n_nodes(),
            forall|m: int| #![trigger pre.path(m)] #![trigger pre.node_entries(m)] 0 <= m < old_trie.n_nodes() ==> pre.path(m) == old_trie.path(m) && pre.node_entries(m) == old_trie.node_entries(m)
                && pre.node_freqs(m) == old_trie.node_freqs(m),
            forall|m: int| old_trie.n_nodes() <= m < pre.n_nodes() ==> #[trigger] pre.node_entries(m).len() == 0,
            t.n_nodes() == pre.n_nodes(),
            forall|m: int| 0 <= m < t.n_nodes() ==> #[trigger] t.path(m) == pre.path(m),
            forall|m: int| 0 <= m < t.n_nodes() && m != k ==> #[trigger] t.node_entries(m) == pre.node_entries(m)
                && t.node_freqs(m) == pre.node_freqs(m),
            pre.node_entries(k).contains(idx) ==> t.node_entries(k) == pre.node_entries(k) && t.node_freqs(k) == pre.node_freqs(k),
            !pre.node_entries(k).contains(idx) ==> t.node_entries(k) == pre.node_entries(k).insert(freq_slot(pre.node_freqs(k), freq, 0), idx)
                && t.node_freqs(k) == pre.node_freqs(k).insert(freq_slot(pre.node_freqs(k), freq, 0), freq),
        ensures
            forall|s: Seq<char>| s != r ==> #[trigger] t.indices(s) == old_trie.indices(s) && t.freqs(s) == old_trie.freqs(s),
            old_trie.indices(r).contains(idx) ==> t.indices(r) == old_trie.indices(r) && t.freqs(r) == old_trie.freqs(r),
            !old_trie.indices(r).contains(idx) ==> t.indices(r) == old_trie.indices(r).insert(freq_slot(old_trie.freqs(r), freq, 0), idx)
                && t.freqs(r) == old_trie.freqs(r).insert(freq_slot(old_trie.freqs(r), freq, 0), freq),
    {
        assert forall|s: Seq<char>| s != r implies #[trigger] t.indices(s) == old_trie.indices(s) && t.freqs(s) == old_trie.freqs(s) by {
            if t.has_node(s) {
                let m = choose|m: int| 0 <= m < t.n_nodes() && #[trigger] t.path(m) == s;
                t.lemma_indices_at(m);
                assert(m != k);
                assert(t.node_entries(m) == pre.node_entries(m));
                if m < old_trie.n_nodes() {
                    assert(pre.path(m) == old_trie.path(m) && pre.node_entries(m) == old_trie.node_entries(m));
                    old_trie.lemma_indices_at(m);
                } else {
                    assert(pre.node_entries(m).len() == 0);
                    assert(pre.nodes@[m].entry_indices@.no_duplicates());
                    assert(pre.node_freqs(m).len() == 0);
                    if old_trie.has_node(s) {
                        let m0 = choose|m0: int| 0 <= m0 < old_trie.n_nodes() && #[trigger] old_trie.path(m0) == s;
                        assert(pre.path(m0) == old_trie.path(m0));
                        assert(t.path(m0) == s);
                        assert(t.paths@[m0] != t.paths@[m]);
                    }
                    assert(old_trie.indices(s) =~= t.indices(s));
                    assert(old_trie.freqs(s) =~= t.freqs(s));
                }
            } else {
                if old_trie.has_node(s) {
                    let m0 = choose|m0: int| 0 <= m0 < old_trie.n_nodes() && #[trigger] old_trie.path(m0) == s;
                    assert(pre.path(m0) == old_trie.path(m0));
                    assert(t.path(m0) == s);
                }
            }
        }
        t.lemma_indices_at(k);
        assert(t.path(k) == r);
        if k < old_trie.n_nodes() {
            assert(pre.path(k) == old_trie.path(k) && pre.node_entries(k) == old_trie.node_entries(k));
            old_trie.lemma_indices_at(k);
        } else {
            if old_trie.has_node(r) {
                let m0 = choose|m0: int| 0 <= m0 < old_trie.n_nodes() && #[trigger] old_trie.path(m0) == r;
                assert(pre.path(m0) == old_trie.path(m0));
                assert(pre.paths@[m0] != pre.paths@[k]);
            }
            assert(pre.node_entries(k).len() == 0);
            assert(pre.nodes@[k].entry_indices@.no_duplicates());
            assert(pre.node_freqs(k).len() == 0);
            assert(old_trie.indices(r) =~= pre.node_entries(k));
            assert(old_trie.freqs(r) =~= pre.node_freqs(k));
        }
    }

    /// The entry indices stored under exactly `reading`.
    pub fn exact_lookup(&self, reading: &str) -> (r: Vec<usize>)
        requires
            self.wf(),
        ensures
            r@ == self.indices(reading@),
    {
        let key = chars_of(reading);
        match self.find_node(&key) {
            Some(k) => {
                proof { self.lemma_indices_at(k as int); }
                self.nodes[k].entry_indices.clone()
            },
            None => Vec::new(),
        }
    }

    /// The (length, indices) pairs for the prefixes `s[..1]`, ..., `s[..upto]`
    /// that store at least one entry, shortest first.
    pub open spec fn prefix_hits(&self, s: Seq<char>, upto: int) -> Seq<(usize, Seq<usize>)>
        decreases upto,
    {
        if upto <= 0 {
            Seq::empty()
        } else {
            let prev = self.prefix_hits(s, upto - 1);
            let ix = self.indices(s.take(upto));
            if ix.len() > 0 {
                prev.push((upto as usize, ix))
            } else {
                prev
            }
        }
    }

    proof fn lemma_no_hits_beyond(&self, s: Seq<char>, k: int, i: int, upto: int)
        requires
            self.wf(),
            0 <= k < self.n_nodes(),
            0 <= i < s.len(),
            i <= upto <= s.len(),
            self.path(k) == s.take(i),
            forall|a: int| 0 <= a < self.n_edges(k) ==> #[trigger] self.edge_char(k, a) != s[i],
        ensures
            self.prefix_hits(s, upto) == self.prefix_hits(s, i),
        decreases upto - i,
    {
        if upto > i {
            self.lemma_no_hits_beyond(s, k, i, upto - 1);
            let q = s.take(upto);
            if self.has_node(q) {
                let m = choose|m: int| 0 <= m < self.n_nodes() && #[trigger] self.path(m) == q;
                let q1 = s.take(i + 1);
                assert(starts_with(self.path(m), q1)) by {
                    assert(q.subrange(0, q1.len() as int) =~= q1);
                }
                self.lemma_prefix_node(m, q1);
                let m1 = choose|m1: int| 0 <= m1 < self.n_nodes() && #[trigger] self.path(m1) == q1;
                assert(q1 =~= self.path(k).push(s[i]));
                self.lemma_child_of(k, m1, s[i]);
            }
        }
    }

    /// All dictionary words that are prefixes of `input`: pairs of prefix
    /// length (in characters) and the indices stored under that prefix,
    /// shortest prefix first.
    pub fn common_prefix_search(&self, input: &str) -> (r: Vec<(usize, Vec<usize>)>)
        requires
            self.wf(),
        ensures
            r@.map_values(|p: (usize, Vec<usize>)| (p.0, p.1@)) == self.prefix_hits(input@, input@.len() as int),
    {
        let s = chars_of(input);
        let mut results: Vec<(usize, Vec<usize>)> = Vec::new();
        let mut k: usize = 0;
        let mut char_len: usize = 0;
        while char_len < s.len()
            invariant
                self.wf(),
                s@ == input@,
                char_len <= s.len(),
                k < self.n_nodes(),
                self.path(k as int) == s@.take(char_len as int),
                results@.map_values(|p: (usize, Vec<usize>)| (p.0, p.1@)) == self.prefix_hits(s@, char_len as int),
            decreases s.len() - char_len,
        {
            match self.find_child(k, s[char_len]) {
                Some(child) => {
                    let ghost prev = results@;
                    k = child;
                    char_len += 1;
                    assert(s@.take(char_len as int) =~= s@.take(char_len - 1).push(s@[char_len - 1]));
                    proof { self.lemma_indices_at(k as int); }
                    if self.nodes[k].entry_indices.len() > 0 {
                        let ix = self.nodes[k].entry_indices.clone();
                        results.push((char_len, ix));
                        assert(results@.map_values(|p: (usize, Vec<usize>)| (p.0, p.1@)) =~= prev.map_values(|p: (usize, Vec<usize>)| (p.0, p.1@)).push((char_len, self.node_entries(k as int))));
                    }
                },
                None => {
                    proof {
                        self.lemma_no_hits_beyond(s@, k as int, char_len as int, s@.len() as int);
                    }
                    return results;
                },
            }
        }
        results
    }

    /// Whether entry index `i` is stored at node `k` or below it.
    pub closed spec fn in_subtree(&self, k: int, i: usize) -> bool {
        exists|m: int| 0 <= m < self.n_nodes() && starts_with(#[trigger] self.path(m), self.path(k))
            && self.node_entries(m).contains(i)
    }

    /// No entry index is stored at two nodes.
    pub closed spec fn separate(&self) -> bool {
        forall|m1: int, m2: int, i: usize|
            0 <= m1 < self.n_nodes() && 0 <= m2 < self.n_nodes() && m1 != m2
                && #[trigger] self.node_entries(m1).contains(i) ==> !#[trigger] self.node_entries(m2).contains(i)
    }

    /// Indices are stored at one node each when no index is stored under two readings.
    pub proof fn lemma_separate(&self)
        requires
            self.wf(),
            forall|r1: Seq<char>, r2: Seq<char>, i: usize|
                r1 != r2 && #[trigger] self.indices(r1).contains(i) ==> !#[trigger] self.indices(r2).contains(i),
        ensures
            self.separate(),
    {
        assert forall|m1: int, m2: int, i: usize|
            0 <= m1 < self.n_nodes() && 0 <= m2 < self.n_nodes() && m1 != m2
                && #[trigger] self.node_entries(m1).contains(i) implies !#[trigger] self.node_entries(m2).contains(i) by {
            self.lemma_indices_at(m1);
            self.lemma_indices_at(m2);
            assert(self.paths@[m1] != self.paths@[m2]);
            assert(self.indices(self.path(m1)).contains(i));
        }
    }

    /// What lies below a child of `k` lies below `k`.
    proof fn lemma_child_subtree(&self, k: int, a: int, i: usize)
        requires
            self.wf(),
            0 <= k < self.n_nodes(),
            0 <= a < self.n_edges(k),
            self.in_subtree(self.edge_node(k, a), i),
        ensures
            self.in_subtree(k, i),
    {
        let c = self.edge_node(k, a);
        let m = choose|m: int| 0 <= m < self.n_nodes() && starts_with(#[trigger] self.path(m), self.path(c))
            && self.node_entries(m).contains(i);
        assert(starts_with(self.path(m), self.path(k))) by {
            assert(self.path(c) == self.path(k).push(self.edge_char(k, a)));
            assert(self.path(m).subrange(0, self.path(k).len() as int) =~= self.path(c).subrange(0, self.path(k).len() as int));
            assert(self.path(c).subrange(0, self.path(k).len() as int) =~= self.path(k));
        }
    }

    /// Below two different children of `k`, no index occurs twice.
    proof fn lemma_children_apart(&self, k: int, a: int, b: int, i: usize)
        requires
            self.wf(),
            self.separate(),
            0 <= k < self.n_nodes(),
            0 <= a < self.n_edges(k),
            0 <= b < self.n_edges(k),
            a != b,
            self.in_subtree(self.edge_node(k, a), i),
        ensures
            !self.in_subtree(self.edge_node(k, b), i),
    {
        let ca = self.edge_node(k, a);
        let cb = self.edge_node(k, b);
        let m1 = choose|m: int| 0 <= m < self.n_nodes() && starts_with(#[trigger] self.path(m), self.path(ca))
            && self.node_entries(m).contains(i);
        if self.in_subtree(cb, i) {
            let m2 = choose|m: int| 0 <= m < self.n_nodes() && starts_with(#[trigger] self.path(m), self.path(cb))
                && self.node_entries(m).contains(i);
            let n = self.path(k).len() as int;
            assert(self.path(ca) == self.path(k).push(self.edge_char(k, a)));
            assert(self.path(cb) == self.path(k).push(self.edge_char(k, b)));
            assert(self.path(m1)[n] == self.path(ca)[n]) by {
                assert(self.path(m1).subrange(0, self.path(ca).len() as int)[n] == self.path(m1)[n]);
            }
            assert(self.path(m2)[n] == self.path(cb)[n]) by {
                assert(self.path(m2).subrange(0, self.path(cb).len() as int)[n] == self.path(m2)[n]);
            }
            if a < b {
                assert(self.edge_char(k, a) != self.edge_char(k, b));
            } else {
                assert(self.edge_char(k, b) != self.edge_char(k, a));
            }
            assert(m1 != m2);
        }
    }

    /// What is stored at `k` is not stored below a child of `k`.
    proof fn lemma_own_apart(&self, k: int, a: int, i: usize)
        requires
            self.wf(),
            self.separate(),
            0 <= k < self.n_nodes(),
            0 <= a < self.n_edges(k),
            self.node_entries(k).contains(i),
        ensures
            !self.in_subtree(self.edge_node(k, a), i),
    {
        let c = self.edge_node(k, a);
        if self.in_subtree(c, i) {
            let m = choose|m: int| 0 <= m < self.n_nodes() && starts_with(#[trigger] self.path(m), self.path(c))
                && self.node_entries(m).contains(i);
            assert(self.path(c) == self.path(k).push(self.edge_char(k, a)));
            assert(self.path(m).len() > self.path(k).len());
            assert(m != k);
        }
    }

    /// Nodes at or below node `k` that store index `i`.
    pub closed spec fn holders(&self, k: int, i: usize) -> Set<int> {
        Set::new(|m: int| 0 <= m < self.n_nodes() && starts_with(self.path(m), self.path(k)) && self.node_entries(m).contains(i))
    }

    /// Those of them that are `k` itself or lie below one of its first `a` children.
    closed spec fn holders_upto(&self, k: int, a: int, i: usize) -> Set<int> {
        Set::new(|m: int| self.holders(k, i).contains(m)
            && (m == k || exists|b: int| 0 <= b < a && starts_with(self.path(m), self.path(#[trigger] self.edge_node(k, b)))))
    }

    /// The readings that start with `p` and store index `i` (see
    /// `lemma_readings_with`).
    pub closed spec fn readings_with(&self, p: Seq<char>, i: usize) -> Set<Seq<char>> {
        Set::new(|r: Seq<char>| starts_with(r, p) && self.indices(r).contains(i))
    }

    /// What `readings_with` holds.
    pub proof fn lemma_readings_with(&self, p: Seq<char>, i: usize, r: Seq<char>)
        ensures
            self.readings_with(p, i).contains(r) <==> starts_with(r, p) && self.indices(r).contains(i),
    {
    }

    proof fn lemma_holders_finite(&self, k: int, i: usize)
        ensures
            self.holders(k, i).finite(),
            forall|a: int| #[trigger] self.holders_upto(k, a, i).finite(),
    {
        lemma_int_range(0, self.n_nodes());
        assert(self.holders(k, i).subset_of(set_int_range(0, self.n_nodes())));
        lemma_len_subset(self.holders(k, i), set_int_range(0, self.n_nodes()));
        assert forall|a: int| #[trigger] self.holders_upto(k, a, i).finite() by {
            assert(self.holders_upto(k, a, i).subset_of(self.holders(k, i)));
            lemma_len_subset(self.holders_upto(k, a, i), self.holders(k, i));
        }
    }

    /// A reading that starts with `y` followed by `c` starts with `y` and has `c` next.
    proof fn lemma_starts_with_push(x: Seq<char>, y: Seq<char>, c: char)
        requires
            starts_with(x, y.push(c)),
        ensures
            starts_with(x, y),
            x.len() > y.len(),
            x[y.len() as int] == c,
    {
        assert(x.subrange(0, y.len() + 1int)[y.len() as int] == c);
        assert(x.subrange(0, y.len() as int) =~= x.subrange(0, y.len() + 1int).drop_last());
        assert(y.push(c).drop_last() =~= y);
    }

    proof fn lemma_holders_upto_zero(&self, k: int, i: usize)
        requires
            self.wf(),
            0 <= k < self.n_nodes(),
        ensures
            self.holders_upto(k, 0, i).len() == (if self.node_entries(k).contains(i) { 1int } else { 0int }),
    {
        assert(starts_with(self.path(k), self.path(k))) by {
            assert(self.path(k).subrange(0, self.path(k).len() as int) =~= self.path(k));
        }
        if self.node_entries(k).contains(i) {
            assert(self.holders_upto(k, 0, i) =~= Set::empty().insert(k));
        } else {
            assert(self.holders_upto(k, 0, i) =~= Set::<int>::empty());
        }
    }

    proof fn lemma_holders_upto_step(&self, k: int, a: int, i: usize)
        requires
            self.wf(),
            0 <= k < self.n_nodes(),
            0 <= a < self.n_edges(k),
        ensures
            self.holders_upto(k, a + 1, i).len() == self.holders_upto(k, a, i).len() + self.holders(self.edge_node(k, a), i).len(),
    {
        let c = self.edge_node(k, a);
        let u = self.holders_upto(k, a, i);
        let h = self.holders(c, i);
        let u2 = self.holders_upto(k, a + 1, i);
        assert(self.path(c) == self.path(k).push(self.edge_char(k, a)));
        self.lemma_holders_finite(k, i);
        self.lemma_holders_finite(c, i);
        assert forall|m: int| #[trigger] h.contains(m) implies u2.contains(m) && !u.contains(m) by {
            Self::lemma_starts_with_push(self.path(m), self.path(k), self.edge_char(k, a));
            assert(self.holders(k, i).contains(m));
            assert(m != k);
            if u.contains(m) {
                let b = choose|b: int| 0 <= b < a && starts_with(self.path(m), self.path(#[trigger] self.edge_node(k, b)));
                assert(self.path(self.edge_node(k, b)) == self.path(k).push(self.edge_char(k, b)));
                Self::lemma_starts_with_push(self.path(m), self.path(k), self.edge_char(k, b));
                assert(self.edge_char(k, b) != self.edge_char(k, a));
            }
        }
        assert forall|m: int| #[trigger] u2.contains(m) implies u.contains(m) || h.contains(m) by {
            if m != k && !u.contains(m) {
                let b = choose|b: int| 0 <= b < a + 1 && starts_with(self.path(m), self.path(#[trigger] self.edge_node(k, b)));
                assert(b == a);
            }
        }
        assert(u2 =~= u + h);
        assert(u.disjoint(h));
        lemma_set_disjoint_lens(u, h);
    }

    proof fn lemma_holders_upto_all(&self, k: int, i: usize)
        requires
            self.wf(),
            0 <= k < self.n_nodes(),
        ensures
            self.holders_upto(k, self.n_edges(k), i) == self.holders(k, i),
    {
        assert forall|m: int| #[trigger] self.holders(k, i).contains(m) implies self.holders_upto(k, self.n_edges(k), i).contains(m) by {
            if m != k {
                self.lemma_below_child(k, m);
            }
        }
        assert(self.holders_upto(k, self.n_edges(k), i) =~= self.holders(k, i));
    }

    /// Appends the indices stored at node `k` and below it; when indices are
    /// stored once each and none of them is already in `results`, nothing
    /// repeats.
    fn collect_all(&self, k: usize, results: &mut Vec<usize>)
        requires
            self.wf(),
            k < self.n_nodes(),
        ensures
            forall|i: usize| #[trigger] final(results)@.contains(i) <==> old(results)@.contains(i) || self.in_subtree(k as int, i),
            self.separate() && old(results)@.no_duplicates()
                && (forall|i: usize| #[trigger] old(results)@.contains(i) ==> !self.in_subtree(k as int, i))
                ==> final(results)@.no_duplicates(),
            forall|i: usize| #[trigger] final(results)@.to_multiset().count(i)
                == old(results)@.to_multiset().count(i) + self.holders(k as int, i).len(),
        decreases self.n_nodes() - k,
    {
        let ghost cond = self.separate() && old(results)@.no_duplicates()
            && (forall|i: usize| #[trigger] old(results)@.contains(i) ==> !self.in_subtree(k as int, i));
        let node = &self.nodes[k];
        let mut e: usize = 0;
        while e < node.entry_indices.len()
            invariant
                node == &self.nodes@[k as int],
                e <= node.entry_indices@.len(),
                results@ == old(results)@ + node.entry_indices@.take(e as int),
            decreases node.entry_indices@.len() - e,
        {
            results.push(node.entry_indices[e]);
            e += 1;
            assert(results@ =~= old(results)@ + node.entry_indices@.take(e as int));
        }
        assert(node.entry_indices@.take(node.entry_indices@.len() as int) =~= node.entry_indices@);
        let ghost after_own = results@;
        proof {
            let own = self.node_entries(k as int);
            assert(self.nodes@[k as int].entry_indices@.no_duplicates());
            own.lemma_multiset_has_no_duplicates();
            vstd::seq_lib::lemma_multiset_commutative(old(results)@, own);
            assert forall|i: usize| #[trigger] results@.to_multiset().count(i)
                == old(results)@.to_multiset().count(i) + self.holders_upto(k as int, 0, i).len() by {
                self.lemma_holders_upto_zero(k as int, i);
                vstd::seq_lib::to_multiset_contains(own, i);
            }
        }
        proof {
            if cond {
                assert forall|i: usize| old(results)@.contains(i) implies !self.node_entries(k as int).contains(i) by {
                    if self.node_entries(k as int).contains(i) {
                        assert(starts_with(self.path(k as int), self.path(k as int))) by {
                            assert(self.path(k as int).subrange(0, self.path(k as int).len() as int) =~= self.path(k as int));
                        }
                        assert(self.in_subtree(k as int, i));
                    }
                }
                lemma_concat_no_dup(old(results)@, self.node_entries(k as int));
            }
        }
        let mut a: usize = 0;
        while a < node.child_nodes.len()
            invariant
                self.wf(),
                k < self.n_nodes(),
                node == &self.nodes@[k as int],
                a <= node.child_nodes@.len(),
                after_own == old(results)@ + self.node_entries(k as int),
                forall|i: usize| #[trigger] results@.contains(i) <==> after_own.contains(i)
                    || exists|b: int| 0 <= b < a && self.in_subtree(#[trigger] self.edge_node(k as int, b), i),
                cond == (self.separate() && old(results)@.no_duplicates()
                    && (forall|i: usize| #[trigger] old(results)@.contains(i) ==> !self.in_subtree(k as int, i))),
                cond ==> results@.no_duplicates(),
                forall|i: usize| #[trigger] results@.to_multiset().count(i)
                    == old(results)@.to_multiset().count(i) + self.holders_upto(k as int, a as int, i).len(),
            decreases node.child_nodes@.len() - a,
        {
            let child = node.child_nodes[a];
            assert(self.edge_node(k as int, a as int) == child);
            let ghost before = results@;
            proof {
                if cond {
                    assert forall|i: usize| #[trigger] results@.contains(i) implies !self.in_subtree(child as int, i) by {
                        if self.in_subtree(child as int, i) {
                            lemma_concat_contains(old(results)@, self.node_entries(k as int), i);
                            if old(results)@.contains(i) {
                                self.lemma_child_subtree(k as int, a as int, i);
                            } else if self.node_entries(k as int).contains(i) {
                                self.lemma_own_apart(k as int, a as int, i);
                            } else {
                                let b = choose|b: int| 0 <= b < a && self.in_subtree(#[trigger] self.edge_node(k as int, b), i);
                                self.lemma_children_apart(k as int, b, a as int, i);
                            }
                        }
                    }
                }
            }
            let ghost before_call = results@;
            self.collect_all(child, results);
            proof {
                assert forall|i: usize| #[trigger] results@.to_multiset().count(i)
                    == old(results)@.to_multiset().count(i) + self.holders_upto(k as int, a + 1, i).len() by {
                    assert(before_call.to_multiset().count(i)
                        == old(results)@.to_multiset().count(i) + self.holders_upto(k as int, a as int, i).len());
                    self.lemma_holders_upto_step(k as int, a as int, i);
                }
            }
            assert forall|i: usize| #[trigger] results@.contains(i) <==> after_own.contains(i)
                || exists|b: int| 0 <= b < a + 1 && self.in_subtree(#[trigger] self.edge_node(k as int, b), i) by {
                if before.contains(i) {
                }
                if self.in_subtree(child as int, i) {
                    assert(self.in_subtree(self.edge_node(k as int, a as int), i));
                }
                if exists|b: int| 0 <= b < a + 1 && self.in_subtree(#[trigger] self.edge_node(k as int, b), i) {
                    let b = choose|b: int| 0 <= b < a + 1 && self.in_subtree(#[trigger] self.edge_node(k as int, b), i);
                    if b < a {
                        assert(exists|b2: int| 0 <= b2 < a && self.in_subtree(#[trigger] self.edge_node(k as int, b2), i));
                    }
                }
            }
            a += 1;
        }
        proof {
            assert forall|i: usize| #[trigger] results@.contains(i) <==> old(results)@.contains(i) || self.in_subtree(k as int, i) by {
                lemma_concat_contains(old(results)@, self.node_entries(k as int), i);
                if self.node_entries(k as int).contains(i) {
                    assert(starts_with(self.path(k as int), self.path(k as int))) by {
                        assert(self.path(k as int).subrange(0, self.path(k as int).len() as int) =~= self.path(k as int));
                    }
                }
                if exists|b: int| 0 <= b < a && self.in_subtree(#[trigger] self.edge_node(k as int, b), i) {
                    let b = choose|b: int| 0 <= b < a && self.in_subtree(#[trigger] self.edge_node(k as int, b), i);
                    let c = self.edge_node(k as int, b);
                    let m = choose|m: int| 0 <= m < self.n_nodes() && starts_with(#[trigger] self.path(m), self.path(c))
                        && self.node_entries(m).contains(i);
                    assert(starts_with(self.path(m), self.path(k as int))) by {
                        assert(self.path(c) == self.path(k as int).push(self.edge_char(k as int, b)));
                        assert(self.path(m).subrange(0, self.path(k as int).len() as int) =~= self.path(c).subrange(0, self.path(k as int).len() as int));
                        assert(self.path(c).subrange(0, self.path(k as int).len() as int) =~= self.path(k as int));
                    }
                }
                if self.in_subtree(k as int, i) {
                    let m = choose|m: int| 0 <= m < self.n_nodes() && starts_with(#[trigger] self.path(m), self.path(k as int))
                        && self.node_entries(m).contains(i);
                    if m == k {
                    } else {
                        self.lemma_below_child(k as int, m);
                        let b = choose|b: int| 0 <= b < self.n_edges(k as int) && starts_with(self.path(m), self.path(#[trigger] self.edge_node(k as int, b)));
                        assert(self.in_subtree(self.edge_node(k as int, b), i));
                    }
                }
            }
            assert forall|i: usize| #[trigger] results@.to_multiset().count(i)
                == old(results)@.to_multiset().count(i) + self.holders(k as int, i).len() by {
                self.lemma_holders_upto_all(k as int, i);
            }
        }
    }

    /// All entry indices stored under readings that start with `prefix`,
    /// none twice when every index is stored at one node only. The order of
    /// the result is not specified.
    pub fn prefix_lookup(&self, prefix: &str) -> (r: Vec<usize>)
        requires
            self.wf(),
        ensures
            forall|i: usize| #[trigger] r@.contains(i) <==> self.under_prefix(prefix@, i),
            self.separate() ==> r@.no_duplicates(),
            forall|i: usize| #[trigger] self.readings_with(prefix@, i).finite(),
            forall|i: usize| #[trigger] r@.to_multiset().count(i) == self.readings_with(prefix@, i).len(),
    {
        let p = chars_of(prefix);
        match self.find_node(&p) {
            Some(k) => {
                let mut results = Vec::new();
                let ghost init = results@;
                self.collect_all(k, &mut results);
                assert forall|i: usize| #[trigger] results@.contains(i) <==> self.under_prefix(prefix@, i) by {
                    assert(self.path(k as int) == prefix@);
                }
                assert forall|i: usize| #![trigger results@.to_multiset().count(i)] #![trigger self.readings_with(prefix@, i)]
                    self.readings_with(prefix@, i).finite()
                    && results@.to_multiset().count(i) == self.readings_with(prefix@, i).len() by {
                    assert(self.path(k as int) == prefix@);
                    self.lemma_holders_readings(k as int, i);
                    vstd::seq_lib::to_multiset_contains(init, i);
                    assert(init.len() == 0);
                }
                results
            },
            None => {
                let results: Vec<usize> = Vec::new();
                assert forall|i: usize| #[trigger] results@.contains(i) <==> self.under_prefix(prefix@, i) by {
                    if self.under_prefix(prefix@, i) {
                        let m = choose|m: int| 0 <= m < self.n_nodes() && starts_with(#[trigger] self.path(m), prefix@)
                            && self.node_entries(m).contains(i);
                        self.lemma_prefix_node(m, prefix@);
                    }
                }
                assert forall|i: usize| #![trigger results@.to_multiset().count(i)] #![trigger self.readings_with(prefix@, i)]
                    self.readings_with(prefix@, i).finite()
                    && results@.to_multiset().count(i) == self.readings_with(prefix@, i).len() by {
                    assert forall|r: Seq<char>| !(#[trigger] self.readings_with(prefix@, i).contains(r)) by {
                        if self.readings_with(prefix@, i).contains(r) {
                            assert(self.has_node(r));
                            let m = choose|m: int| 0 <= m < self.n_nodes() && #[trigger] self.path(m) == r;
                            self.lemma_prefix_node(m, prefix@);
                        }
                    }
                    assert(self.readings_with(prefix@, i) =~= Set::<Seq<char>>::empty());
                    vstd::seq_lib::to_multiset_contains(results@, i);
                }
                results
            },
        }
    }

    /// The holders below the node of reading `p` correspond one to one to
    /// the readings that start with `p` and store `i`.
    proof fn lemma_holders_readings(&self, k: int, i: usize)
        requires
            self.wf(),
            0 <= k < self.n_nodes(),
        ensures
            self.readings_with(self.path(k), i).finite(),
            self.readings_with(self.path(k), i).len() == self.holders(k, i).len(),
    {
        let h = self.holders(k, i);
        let f = |m: int| self.path(m);
        self.lemma_holders_finite(k, i);
        assert forall|r: Seq<char>| #[trigger] h.map(f).contains(r) <==> self.readings_with(self.path(k), i).contains(r) by {
            if h.map(f).contains(r) {
                let m = choose|m: int| h.contains(m) && f(m) == r;
                self.lemma_indices_at(m);
            }
            if self.readings_with(self.path(k), i).contains(r) {
                assert(self.has_node(r));
                let m = choose|m: int| 0 <= m < self.n_nodes() && #[trigger] self.path(m) == r;
                self.lemma_indices_at(m);
                assert(h.contains(m));
                assert(f(m) == r);
            }
        }
        assert(h.map(f) =~= self.readings_with(self.path(k), i));
        assert forall|m1: int, m2: int| h.contains(m1) && h.contains(m2) && #[trigger] f(m1) == #[trigger] f(m2) implies m1 == m2 by {
            if m1 != m2 {
                assert(self.paths@[m1] != self.paths@[m2]);
            }
        }
        lemma_map_size(h, self.readings_with(self.path(k), i), f);
    }
}

} // verus!
