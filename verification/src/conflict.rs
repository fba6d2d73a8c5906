//! Conflict graphs: partitioning work into groups that may run together.
//!
//! Each item declares the dependencies it reads and the exclusive dependencies
//! it writes. Two items conflict when an exclusive dependency of one equals a
//! dependency or an exclusive dependency of the other. The graph colors its
//! items so that conflicting items get different colors, always coloring next
//! the uncolored item with the most colored neighbours (then the most uncolored
//! ones), with the smallest color none of its colored neighbours has. Building
//! the graph groups the items by color: no two items of a group conflict.

use vstd::prelude::*;
use vstd::std_specs::cmp::PartialEqSpec;

verus! {

/// Something that depends on shared and exclusive resources.
pub trait Dependent {
    type Dependency: PartialEq;

    /// The resources it declares to read. Implementations verified here give
    /// their own definition; the default declares none.
    open spec fn declared_dependencies(&self) -> Seq<Self::Dependency> {
        Seq::empty()
    }

    /// The resources it declares to write. Implementations verified here give
    /// their own definition; the default declares none.
    open spec fn declared_exclusive_dependencies(&self) -> Seq<Self::Dependency> {
        Seq::empty()
    }

    /// The resources read.
    fn dependencies(&self) -> (r: Vec<Self::Dependency>)
        ensures
            r@ == self.declared_dependencies(),
    ;

    /// The resources written, which no other item may use at the same time;
    /// an item that writes nothing returns an empty vector.
    fn exclusive_dependencies(&self) -> (r: Vec<Self::Dependency>)
        ensures
            r@ == self.declared_exclusive_dependencies(),
    ;
}

/// True when an exclusive dependency in `exc` equals a dependency in `dep`
/// or an exclusive dependency in `other_exc`.
pub open spec fn claims_conflict<D: PartialEq>(exc: Seq<D>, dep: Seq<D>, other_exc: Seq<D>) -> bool {
    exists|a: int, b: int|
        #![trigger exc[a], dep[b]]
        #![trigger exc[a], other_exc[b]]
        0 <= a < exc.len() && (
            (0 <= b < dep.len() && exc[a].eq_spec(&dep[b]))
            || (0 <= b < other_exc.len() && exc[a].eq_spec(&other_exc[b])))
}

/// Law: with raw ids as dependencies, an item that writes `x` conflicts with
/// any other item that reads `x` or also writes `x`.
pub proof fn lemma_shared_resource_conflicts(exc: Seq<u64>, dep: Seq<u64>, other_exc: Seq<u64>, x: u64)
    requires
        exc.contains(x),
        dep.contains(x) || other_exc.contains(x),
    ensures
        claims_conflict(exc, dep, other_exc),
{
    let a = exc.index_of(x);
    if dep.contains(x) {
        let b = dep.index_of(x);
        assert(exc[a].eq_spec(&dep[b]));
    } else {
        let b = other_exc.index_of(x);
        assert(exc[a].eq_spec(&other_exc[b]));
    }
}

/// The color of an item; items of one color do not conflict.
#[derive(Debug, Clone, Copy, PartialEq, Eq, Structural, PartialOrd, Ord, Hash)]
pub struct ConflictColor(pub usize);

impl ConflictColor {
    pub fn as_usize(&self) -> (r: usize)
        ensures
            r == self.0,
    {
        self.0
    }
}

/// An item of the graph with its key and its dependencies.
#[derive(Debug)]
pub struct ConflictGraphNode<K, V, D> {
    pub key: K,
    pub val: V,
    pub dep: Vec<D>,
    pub exc: Vec<D>,
}

/// The graph while items are being inserted: the items, and for each pair of
/// items whether they conflict.
#[derive(Debug)]
pub struct Init<K, V, D> {
    nodes: Vec<ConflictGraphNode<K, V, D>>,
    edges: Vec<Vec<bool>>,
}

impl<K, V, D> Init<K, V, D> {
    pub closed spec fn node_count(self) -> nat {
        self.nodes@.len()
    }

    pub closed spec fn edge_row_count(self) -> nat {
        self.edges@.len()
    }

    pub fn new() -> (r: Init<K, V, D>)
        ensures
            r.node_count() == 0,
            r.edge_row_count() == 0,
    {
        Init { nodes: Vec::new(), edges: Vec::new() }
    }
}

/// The built graph: the items grouped by color.
pub struct Built<K, V> {
    buckets: Vec<Vec<(K, V)>>,
    /// For each group, the positions of its items in the order of insertion.
    origin: Ghost<Seq<Seq<int>>>,
    /// Whether the items at two positions conflict.
    adjacency: Ghost<Seq<Seq<bool>>>,
}

impl<K, V> Built<K, V> {
    /// The groups: the items of each color, in the order of insertion.
    pub closed spec fn groups(self) -> Seq<Seq<(K, V)>> {
        self.buckets@.map_values(|b: Vec<(K, V)>| b@)
    }

    /// For each group, the positions its items had in the graph.
    pub closed spec fn origin(self) -> Seq<Seq<int>> {
        self.origin@
    }

    /// Whether the items at two positions of the graph conflict.
    pub closed spec fn adjacency(self) -> Seq<Seq<bool>> {
        self.adjacency@
    }

    /// Each group is non-empty, lists distinct positions in increasing order,
    /// and holds no two positions that conflict.
    pub open spec fn valid(self) -> bool {
        &&& self.groups().len() == self.origin().len()
        &&& forall|c: int| 0 <= c < self.origin().len() ==> {
            &&& #[trigger] self.origin()[c].len() == self.groups()[c].len()
            &&& self.origin()[c].len() > 0
            &&& forall|k: int| 0 <= k < self.origin()[c].len() ==> 0 <= #[trigger] self.origin()[c][k] < self.adjacency().len()
            &&& forall|k1: int, k2: int| 0 <= k1 < k2 < self.origin()[c].len() ==> #[trigger] self.origin()[c][k1] < #[trigger] self.origin()[c][k2]
            &&& forall|k1: int, k2: int| 0 <= k1 < self.origin()[c].len() && 0 <= k2 < self.origin()[c].len() ==>
                !#[trigger] self.adjacency()[self.origin()[c][k1]][self.origin()[c][k2]]
        }
    }

    /// The groups of non-conflicting items.
    pub fn iter(&self) -> (r: &Vec<Vec<(K, V)>>)
        ensures
            r@.map_values(|b: Vec<(K, V)>| b@) == self.groups(),
    {
        &self.buckets
    }

    /// Takes the groups of non-conflicting items.
    pub fn into_groups(self) -> (r: Vec<Vec<(K, V)>>)
        ensures
            r@.map_values(|b: Vec<(K, V)>| b@) == self.groups(),
    {
        self.buckets
    }
}

/// Law: no two items of one group of a built graph conflict.
pub proof fn lemma_groups_conflict_free<K, V>(b: Built<K, V>, c: int, k1: int, k2: int)
    requires
        b.valid(),
        0 <= c < b.origin().len(),
        0 <= k1 < b.origin()[c].len(),
        0 <= k2 < b.origin()[c].len(),
    ensures
        !b.adjacency()[b.origin()[c][k1]][b.origin()[c][k2]],
{
}

/// Marks the two states of a conflict graph.
pub trait ConflictGraphState {}

impl<K, V, D> ConflictGraphState for Init<K, V, D> {}

impl<K, V> ConflictGraphState for Built<K, V> {}

/// The adjacency relation is square, symmetric and has no loops.
pub open spec fn symmetric_graph(adj: Seq<Seq<bool>>) -> bool {
    &&& forall|i: int| 0 <= i < adj.len() ==> #[trigger] adj[i].len() == adj.len()
    &&& forall|i: int, j: int| 0 <= i < adj.len() && 0 <= j < adj.len() ==> #[trigger] adj[i][j] == adj[j][i]
    &&& forall|i: int| 0 <= i < adj.len() ==> !#[trigger] adj[i][i]
}

/// No two adjacent colored positions share a color.
pub open spec fn proper_partial_coloring(adj: Seq<Seq<bool>>, colors: Seq<Option<usize>>) -> bool {
    forall|i: int, j: int|
        0 <= i < adj.len() && 0 <= j < adj.len() && #[trigger] adj[i][j]
            && colors[i] is Some && colors[j] is Some ==> #[trigger] colors[i] != #[trigger] colors[j]
}

/// The number of neighbours of `i` below position `upto` which are colored (or,
/// when `colored` is false, which are not).
pub open spec fn neighbour_count(adj_row: Seq<bool>, colors: Seq<Option<usize>>, colored: bool, upto: int) -> nat
    decreases upto,
{
    if upto <= 0 {
        0
    } else {
        neighbour_count(adj_row, colors, colored, upto - 1)
            + (if adj_row[upto - 1] && (colors[upto - 1] is Some) == colored { 1nat } else { 0nat })
    }
}

/// The priority of an uncolored position: its colored neighbours, then its uncolored ones.
pub open spec fn priority(adj: Seq<Seq<bool>>, colors: Seq<Option<usize>>, i: int) -> (nat, nat) {
    (neighbour_count(adj[i], colors, true, adj.len() as int), neighbour_count(adj[i], colors, false, adj.len() as int))
}

pub open spec fn priority_lt(a: (nat, nat), b: (nat, nat)) -> bool {
    a.0 < b.0 || (a.0 == b.0 && a.1 < b.1)
}

/// Items keyed by `K`, depending on resources as `V` declares.
#[derive(Debug)]
pub struct ConflictGraph<K, V: Dependent> {
    state: Init<K, V, V::Dependency>,
}

impl<K, V: Dependent> ConflictGraph<K, V> {
    /// The items, in the order of insertion.
    pub closed spec fn nodes(self) -> Seq<ConflictGraphNode<K, V, V::Dependency>> {
        self.state.nodes@
    }

    /// Whether the items at two positions conflict.
    pub closed spec fn adjacency(self) -> Seq<Seq<bool>> {
        self.state.edges@.map_values(|row: Vec<bool>| row@)
    }

    /// The graph relates each pair of distinct items by whether they conflict.
    pub open spec fn wf(self) -> bool {
        &&& self.adjacency().len() == self.nodes().len()
        &&& symmetric_graph(self.adjacency())
        &&& V::Dependency::obeys_eq_spec() ==> forall|i: int, j: int|
            0 <= i < self.nodes().len() && 0 <= j < self.nodes().len() ==>
                #[trigger] self.adjacency()[i][j] == (i != j && Self::conflicting(self.nodes(), i, j))
    }

    /// A graph without items.
    pub fn new() -> (r: ConflictGraph<K, V>)
        ensures
            r.wf(),
            r.nodes().len() == 0,
    {
        let r = ConflictGraph { state: Init::new() };
        assert(r.adjacency() =~= Seq::<Seq<bool>>::empty());
        r
    }

    /// Adds an item, taking its dependencies from `val`.
    pub fn insert(&mut self, key: K, val: V)
        requires
            old(self).wf(),
        ensures
            final(self).wf(),
            final(self).nodes().len() == old(self).nodes().len() + 1,
            final(self).nodes().drop_last() == old(self).nodes(),
            final(self).nodes().last().key == key,
            final(self).nodes().last().val == val,
            final(self).nodes().last().dep@ == val.declared_dependencies(),
            final(self).nodes().last().exc@ == val.declared_exclusive_dependencies(),
    {
        let dep = val.dependencies();
        let exc = val.exclusive_dependencies();
        self.insert_with(key, val, dep, exc);
    }

    /// Adds an item whose dependencies the caller has already taken from it.
    pub fn insert_with(&mut self, key: K, val: V, dep: Vec<V::Dependency>, exc: Vec<V::Dependency>)
        requires
            old(self).wf(),
        ensures
            final(self).wf(),
            final(self).nodes() == old(self).nodes().push(ConflictGraphNode { key, val, dep, exc }),
    {
        self.state.nodes.push(ConflictGraphNode { key, val, dep, exc });
        self.resolve_edges();
    }

    /// Colors the items and groups them by color; the groups come in the order of
    /// their colors, and each group keeps the order of insertion. Each item took
    /// the smallest color its already colored neighbours left free, so an item of
    /// a later group conflicts with some item of every earlier group.
    pub fn build(self) -> (r: Built<K, V>)
        requires
            self.wf(),
        ensures
            r.valid(),
            r.adjacency() == self.adjacency(),
            forall|i: int| 0 <= i < self.nodes().len() ==> #[trigger] placed(r.origin(), i),
            forall|c1: int, k1: int, c2: int, k2: int|
                0 <= c1 < r.origin().len() && 0 <= k1 < r.origin()[c1].len()
                && 0 <= c2 < r.origin().len() && 0 <= k2 < r.origin()[c2].len()
                && #[trigger] r.origin()[c1][k1] == #[trigger] r.origin()[c2][k2] ==> c1 == c2 && k1 == k2,
            forall|c: int, k: int| 0 <= c < r.origin().len() && 0 <= k < r.origin()[c].len() ==>
                #[trigger] r.groups()[c][k] == (self.nodes()[r.origin()[c][k]].key, self.nodes()[r.origin()[c][k]].val),
            V::Dependency::obeys_eq_spec() ==> forall|c: int, k1: int, k2: int|
                0 <= c < r.origin().len() && 0 <= k1 < r.origin()[c].len() && 0 <= k2 < r.origin()[c].len() && k1 != k2 ==>
                !Self::conflicting(self.nodes(), #[trigger] r.origin()[c][k1], #[trigger] r.origin()[c][k2]),
            forall|c: int, k: int, d: int| 0 <= c < r.origin().len() && 0 <= k < r.origin()[c].len() && 0 <= d < c ==>
                #[trigger] group_has_neighbour(r.adjacency(), r.origin()[d], r.origin()[c][k]),
    {
        let ghost nodes0 = self.nodes();
        let ghost adj0 = self.adjacency();
        let (colors, palette) = color_graph(&self.state.edges);
        let n = self.state.nodes.len();
        let mut buckets: Vec<Vec<(K, V)>> = Vec::new();
        let mut c: usize = 0;
        while c < palette
            invariant
                c <= palette,
                buckets@.len() == c,
                forall|d: int| 0 <= d < c ==> (#[trigger] buckets@[d])@.len() == 0,
            decreases palette - c,
        {
            buckets.push(Vec::new());
            c = c + 1;
        }
        let ghost mut origin: Seq<Seq<int>> = Seq::new(palette as nat, |d: int| Seq::<int>::empty());
        let Init { mut nodes, edges: _ } = self.state;
        let mut i: usize = n;
        while i > 0
            invariant
                n == nodes0.len(),
                i <= n,
                nodes@ == nodes0.take(i as int),
                colors@.len() == n,
                forall|a: int| 0 <= a < n ==> #[trigger] colors@[a] < palette,
                buckets@.len() == palette,
                origin.len() == palette,
                forall|d: int| 0 <= d < palette ==> {
                    &&& (#[trigger] buckets@[d])@.len() == origin[d].len()
                    &&& forall|k: int| 0 <= k < origin[d].len() ==> i <= #[trigger] origin[d][k] < n && colors@[origin[d][k]] == d
                    &&& forall|k: int| 0 <= k < origin[d].len() ==> #[trigger] buckets@[d]@[k] == (nodes0[origin[d][k]].key, nodes0[origin[d][k]].val)
                    &&& forall|k1: int, k2: int| 0 <= k1 < k2 < origin[d].len() ==> #[trigger] origin[d][k1] < #[trigger] origin[d][k2]
                },
                forall|j: int| i <= j < n ==> #[trigger] origin[colors@[j] as int].contains(j),
            decreases i,
        {
            let node = nodes.pop().unwrap();
            i = i - 1;
            assert(nodes0.take(i as int + 1).last() == nodes0[i as int]);
            let ConflictGraphNode { key, val, dep: _, exc: _ } = node;
            let c = colors[i];
            let ghost old_buckets = buckets@;
            let mut bucket = buckets.remove(c);
            bucket.insert(0, (key, val));
            buckets.insert(c, bucket);
            proof {
                let old_origin = origin;
                origin = origin.update(c as int, seq![i as int] + origin[c as int]);
                assert forall|d: int| 0 <= d < palette implies {
                    &&& (#[trigger] buckets@[d])@.len() == origin[d].len()
                    &&& forall|k: int| 0 <= k < origin[d].len() ==> i <= #[trigger] origin[d][k] < n && colors@[origin[d][k]] == d
                    &&& forall|k: int| 0 <= k < origin[d].len() ==> #[trigger] buckets@[d]@[k] == (nodes0[origin[d][k]].key, nodes0[origin[d][k]].val)
                    &&& forall|k1: int, k2: int| 0 <= k1 < k2 < origin[d].len() ==> #[trigger] origin[d][k1] < #[trigger] origin[d][k2]
                } by {
                    if d == c as int {
                        assert forall|k: int| 0 <= k < origin[d].len() implies #[trigger] buckets@[d]@[k] == (nodes0[origin[d][k]].key, nodes0[origin[d][k]].val) by {
                            if k > 0 {
                                assert(origin[d][k] == old_origin[d][k - 1]);
                            }
                        }
                        assert forall|k1: int, k2: int| 0 <= k1 < k2 < origin[d].len() implies #[trigger] origin[d][k1] < #[trigger] origin[d][k2] by {
                            if k1 > 0 {
                                assert(origin[d][k1] == old_origin[d][k1 - 1]);
                            }
                            assert(origin[d][k2] == old_origin[d][k2 - 1]);
                        }
                        assert forall|k: int| 0 <= k < origin[d].len() implies i <= #[trigger] origin[d][k] < n && colors@[origin[d][k]] == d by {
                            if k > 0 {
                                assert(origin[d][k] == old_origin[d][k - 1]);
                            }
                        }
                    } else {
                        assert(buckets@[d] == old_buckets[d]);
                    }
                }
                assert forall|j: int| i <= j < n implies #[trigger] origin[colors@[j] as int].contains(j) by {
                    if j == i as int {
                        assert(origin[c as int][0] == j);
                    } else {
                        assert(old_origin[colors@[j] as int].contains(j));
                        let k = old_origin[colors@[j] as int].index_of(j);
                        if colors@[j] == c {
                            assert(origin[c as int][k + 1] == j);
                        }
                    }
                }
            }
        }
        let r = Built { buckets, origin: Ghost(origin), adjacency: Ghost(adj0) };
        proof {
            if V::Dependency::obeys_eq_spec() {
                assert forall|d: int, k1: int, k2: int|
                    0 <= d < r.origin().len() && 0 <= k1 < r.origin()[d].len() && 0 <= k2 < r.origin()[d].len() && k1 != k2 implies
                    !Self::conflicting(nodes0, #[trigger] r.origin()[d][k1], #[trigger] r.origin()[d][k2]) by {
                    let a = origin[d][k1];
                    let b = origin[d][k2];
                    assert(buckets@[d]@.len() == origin[d].len());
                    assert(colors@[a] == d);
                    assert(colors@[b] == d);
                    assert(adj0[a] == self.state.edges@[a]@);
                    if k1 < k2 { assert(a < b); } else { assert(b < a); }
                    assert(!adj0[a][b]);
                }
            }
            assert(r.groups().len() == palette);
            assert forall|d: int| 0 <= d < palette implies r.groups()[d] == buckets@[d]@ by {}
            assert forall|d: int| 0 <= d < palette implies #[trigger] origin[d].len() > 0 by {
                assert(color_used(colors@, d));
                let j = choose|j: int| 0 <= j < colors@.len() && colors@[j] == d;
                assert(origin[colors@[j] as int].contains(j));
            }
            assert forall|d: int, k1: int, k2: int| 0 <= d < palette && 0 <= k1 < origin[d].len() && 0 <= k2 < origin[d].len()
                implies !#[trigger] adj0[origin[d][k1]][origin[d][k2]] by {
                let a = origin[d][k1];
                let b = origin[d][k2];
                assert(buckets@[d]@.len() == origin[d].len());
                assert(colors@[a] == d);
                assert(colors@[b] == d);
                assert(adj0[a] == self.state.edges@[a]@);
            }
            assert forall|d: int| 0 <= d < r.origin().len() implies {
                &&& #[trigger] r.origin()[d].len() == r.groups()[d].len()
                &&& r.origin()[d].len() > 0
                &&& forall|k: int| 0 <= k < r.origin()[d].len() ==> 0 <= #[trigger] r.origin()[d][k] < r.adjacency().len()
                &&& forall|k1: int, k2: int| 0 <= k1 < k2 < r.origin()[d].len() ==> #[trigger] r.origin()[d][k1] < #[trigger] r.origin()[d][k2]
                &&& forall|k1: int, k2: int| 0 <= k1 < r.origin()[d].len() && 0 <= k2 < r.origin()[d].len() ==>
                    !#[trigger] r.adjacency()[r.origin()[d][k1]][r.origin()[d][k2]]
            } by {
                assert(buckets@[d]@.len() == origin[d].len());
                assert(r.groups()[d] == buckets@[d]@);
                assert(origin[d].len() > 0);
                assert forall|k1: int, k2: int| 0 <= k1 < r.origin()[d].len() && 0 <= k2 < r.origin()[d].len() implies
                    !#[trigger] r.adjacency()[r.origin()[d][k1]][r.origin()[d][k2]] by {
                    assert(!adj0[origin[d][k1]][origin[d][k2]]);
                }
            }
            assert(adj0 == bool_rows(self.state.edges@));
            assert forall|c: int, k: int, d: int| 0 <= c < r.origin().len() && 0 <= k < r.origin()[c].len() && 0 <= d < c implies
                #[trigger] group_has_neighbour(r.adjacency(), r.origin()[d], r.origin()[c][k]) by {
                let a = origin[c][k];
                assert(colors@[a] == c);
                assert(neighbour_of_color(adj0, colors@, a, d));
                let j = choose|j: int| 0 <= j < colors@.len() && adj0[a][j] && colors@[j] == d;
                assert(origin[colors@[j] as int].contains(j));
                let k2 = origin[d].index_of(j);
                assert(origin[d][k2] == j);
            }
            assert forall|j: int| 0 <= j < n implies #[trigger] placed(r.origin(), j) by {
                assert(origin[colors@[j] as int].contains(j));
                let k = origin[colors@[j] as int].index_of(j);
                assert(r.origin()[colors@[j] as int][k] == j);
            }
            assert forall|c1: int, k1: int, c2: int, k2: int|
                0 <= c1 < r.origin().len() && 0 <= k1 < r.origin()[c1].len()
                && 0 <= c2 < r.origin().len() && 0 <= k2 < r.origin()[c2].len()
                && #[trigger] r.origin()[c1][k1] == #[trigger] r.origin()[c2][k2] implies c1 == c2 && k1 == k2 by {
                assert(buckets@[c1]@.len() == origin[c1].len());
                assert(buckets@[c2]@.len() == origin[c2].len());
                assert(colors@[origin[c1][k1]] == c1);
                assert(colors@[origin[c2][k2]] == c2);
                if k1 < k2 {
                    assert(origin[c1][k1] < origin[c1][k2]);
                } else if k2 < k1 {
                    assert(origin[c1][k2] < origin[c1][k1]);
                }
            }
        }
        r
    }

    /// Whether items `i` and `j` conflict, by the specification of the dependency type's equality.
    pub open spec fn conflicting(nodes: Seq<ConflictGraphNode<K, V, V::Dependency>>, i: int, j: int) -> bool {
        claims_conflict(nodes[i].exc@, nodes[j].dep@, nodes[j].exc@)
            || claims_conflict(nodes[j].exc@, nodes[i].dep@, nodes[i].exc@)
    }

    /// Recomputes, for every pair of items, whether they conflict.
    fn resolve_edges(&mut self)
        ensures
            final(self).wf(),
            final(self).nodes() == old(self).nodes(),
    {
        let n = self.state.nodes.len();
        // upper[i][k] tells whether items i and i + k + 1 conflict
        let mut upper: Vec<Vec<bool>> = Vec::new();
        let mut i: usize = 0;
        while i < n
            invariant
                n == self.state.nodes@.len(),
                i <= n,
                upper@.len() == i,
                forall|a: int| 0 <= a < i ==> #[trigger] upper@[a]@.len() == n - a - 1,
                V::Dependency::obeys_eq_spec() ==> forall|a: int, k: int| 0 <= a < i && 0 <= k < n - a - 1 ==>
                    #[trigger] upper@[a]@[k] == Self::conflicting(self.state.nodes@, a, a + k + 1),
            decreases n - i,
        {
            let mut row: Vec<bool> = Vec::new();
            let mut j: usize = i + 1;
            while j < n
                invariant
                    n == self.state.nodes@.len(),
                    i < n,
                    i + 1 <= j <= n,
                    row@.len() == j - i - 1,
                    V::Dependency::obeys_eq_spec() ==> forall|k: int| 0 <= k < j - i - 1 ==>
                        #[trigger] row@[k] == Self::conflicting(self.state.nodes@, i as int, i + k + 1),
                decreases n - j,
            {
                let first = &self.state.nodes[i];
                let other = &self.state.nodes[j];
                let ab = exclusive_conflict(&first.exc, &other.dep, &other.exc);
                let ba = exclusive_conflict(&other.exc, &first.dep, &first.exc);
                row.push(ab || ba);
                j = j + 1;
            }
            upper.push(row);
            i = i + 1;
        }
        let mut edges: Vec<Vec<bool>> = Vec::new();
        let mut i: usize = 0;
        while i < n
            invariant
                n == self.state.nodes@.len(),
                upper@.len() == n,
                forall|a: int| 0 <= a < n ==> #[trigger] upper@[a]@.len() == n - a - 1,
                i <= n,
                edges@.len() == i,
                forall|a: int| 0 <= a < i ==> #[trigger] edges@[a]@.len() == n,
                forall|a: int, b: int| 0 <= a < i && 0 <= b < n ==> #[trigger] edges@[a]@[b] ==
                    (if a < b { upper@[a]@[b - a - 1] } else if a == b { false } else { upper@[b]@[a - b - 1] }),
            decreases n - i,
        {
            let mut row: Vec<bool> = Vec::new();
            let mut j: usize = 0;
            while j < n
                invariant
                    n == self.state.nodes@.len(),
                    upper@.len() == n,
                    forall|a: int| 0 <= a < n ==> #[trigger] upper@[a]@.len() == n - a - 1,
                    i < n,
                    j <= n,
                    row@.len() == j,
                    forall|b: int| 0 <= b < j ==> #[trigger] row@[b] ==
                        (if (i as int) < b { upper@[i as int]@[b - i - 1] } else if i as int == b { false } else { upper@[b]@[i - b - 1] }),
                decreases n - j,
            {
                let edge = if i < j { upper[i][j - i - 1] } else if i == j { false } else { upper[j][i - j - 1] };
                row.push(edge);
                j = j + 1;
            }
            edges.push(row);
            i = i + 1;
        }
        self.state.edges = edges;
        proof {
            let adj = self.adjacency();
            assert(adj.len() == n);
            assert forall|a: int| 0 <= a < n implies #[trigger] adj[a].len() == n by {
                assert(adj[a] == edges@[a]@);
            }
            assert forall|a: int, b: int| 0 <= a < n && 0 <= b < n implies #[trigger] adj[a][b] == adj[b][a] by {
                assert(adj[a] == edges@[a]@);
                assert(adj[b] == edges@[b]@);
            }
            assert forall|a: int| 0 <= a < n implies !#[trigger] adj[a][a] by {
                assert(adj[a] == edges@[a]@);
            }
            if V::Dependency::obeys_eq_spec() {
                assert forall|a: int, b: int| 0 <= a < n && 0 <= b < n implies
                    #[trigger] adj[a][b] == (a != b && Self::conflicting(self.state.nodes@, a, b)) by {
                    assert(adj[a] == edges@[a]@);
                    if a > b {
                        assert(upper@[b]@[a - b - 1] == Self::conflicting(self.state.nodes@, b, b + (a - b - 1) + 1));
                    } else if a < b {
                        assert(upper@[a]@[b - a - 1] == Self::conflicting(self.state.nodes@, a, a + (b - a - 1) + 1));
                    }
                }
            }
        }
    }
}

/// True when position `i` is listed in some group.
pub open spec fn placed(origin: Seq<Seq<int>>, i: int) -> bool {
    exists|c: int, k: int| 0 <= c < origin.len() && 0 <= k < origin[c].len() && origin[c][k] == i
}

/// True when some position has color `c`.
pub open spec fn color_used(colors: Seq<usize>, c: int) -> bool {
    exists|i: int| 0 <= i < colors.len() && colors[i] == c
}

/// True when some position has color `c`.
pub open spec fn color_used_partial(colors: Seq<Option<usize>>, c: int) -> bool {
    exists|i: int| 0 <= i < colors.len() && colors[i] == Some(c as usize)
}

/// The number of uncolored positions.
pub open spec fn uncolored_count(colors: Seq<Option<usize>>) -> nat
    decreases colors.len(),
{
    if colors.len() == 0 {
        0
    } else {
        uncolored_count(colors.drop_last()) + (if colors.last() is None { 1nat } else { 0nat })
    }
}

proof fn lemma_uncolored_count_update(colors: Seq<Option<usize>>, x: int, c: usize)
    requires
        0 <= x < colors.len(),
        colors[x] is None,
    ensures
        uncolored_count(colors.update(x, Some(c))) + 1 == uncolored_count(colors),
    decreases colors.len(),
{
    let u = colors.update(x, Some(c));
    if x == colors.len() - 1 {
        assert(u.drop_last() =~= colors.drop_last());
    } else {
        assert(u.drop_last() =~= colors.drop_last().update(x, Some(c)));
        lemma_uncolored_count_update(colors.drop_last(), x, c);
    }
}

proof fn lemma_uncolored_count_zero(colors: Seq<Option<usize>>)
    ensures
        (uncolored_count(colors) == 0) <==> (forall|i: int| 0 <= i < colors.len() ==> #[trigger] colors[i] is Some),
    decreases colors.len(),
{
    if colors.len() > 0 {
        lemma_uncolored_count_zero(colors.drop_last());
        if uncolored_count(colors) == 0 {
            assert forall|i: int| 0 <= i < colors.len() implies #[trigger] colors[i] is Some by {
                if i < colors.len() - 1 {
                    assert(colors.drop_last()[i] == colors[i]);
                }
            }
        } else if colors.last() is None {
        } else {
            let i = choose|i: int| 0 <= i < colors.drop_last().len() && !(#[trigger] colors.drop_last()[i] is Some);
            assert(colors[i] == colors.drop_last()[i]);
        }
    }
}

proof fn lemma_neighbour_count_bound(row: Seq<bool>, colors: Seq<Option<usize>>, colored: bool, upto: int)
    requires
        upto >= 0,
    ensures
        neighbour_count(row, colors, colored, upto) <= upto,
    decreases upto,
{
    if upto > 0 {
        lemma_neighbour_count_bound(row, colors, colored, upto - 1);
    }
}

/// The counts of colored and uncolored neighbours in `row`.
fn neighbour_counts(row: &Vec<bool>, colors: &Vec<Option<usize>>) -> (r: (usize, usize))
    requires
        row@.len() == colors@.len(),
    ensures
        r.0 == neighbour_count(row@, colors@, true, row@.len() as int),
        r.1 == neighbour_count(row@, colors@, false, row@.len() as int),
{
    let mut c: usize = 0;
    let mut u: usize = 0;
    let mut j: usize = 0;
    while j < row.len()
        invariant
            row@.len() == colors@.len(),
            j <= row@.len(),
            c == neighbour_count(row@, colors@, true, j as int),
            u == neighbour_count(row@, colors@, false, j as int),
        decreases row@.len() - j,
    {
        proof {
            lemma_neighbour_count_bound(row@, colors@, true, j as int);
            lemma_neighbour_count_bound(row@, colors@, false, j as int);
        }
        if row[j] {
            if colors[j].is_some() {
                c = c + 1;
            } else {
                u = u + 1;
            }
        }
        j = j + 1;
    }
    (c, u)
}

/// The uncolored position to color next: among the uncolored positions, the first
/// of those with the most colored neighbours and, among them, the most uncolored ones.
fn pick_next(adj: &Vec<Vec<bool>>, colors: &Vec<Option<usize>>) -> (r: Option<usize>)
    requires
        colors@.len() == adj@.len(),
        forall|i: int| 0 <= i < adj@.len() ==> #[trigger] adj@[i]@.len() == adj@.len(),
    ensures
        r is None <==> (forall|i: int| 0 <= i < colors@.len() ==> #[trigger] colors@[i] is Some),
        r matches Some(x) ==> {
            &&& x < colors@.len()
            &&& colors@[x as int] is None
            &&& forall|j: int| 0 <= j < colors@.len() && #[trigger] colors@[j] is None ==>
                !priority_lt(priority(adj@.map_values(|row: Vec<bool>| row@), colors@, x as int), priority(adj@.map_values(|row: Vec<bool>| row@), colors@, j))
            &&& forall|j: int| 0 <= j < x && #[trigger] colors@[j] is None ==>
                priority_lt(priority(adj@.map_values(|row: Vec<bool>| row@), colors@, j), priority(adj@.map_values(|row: Vec<bool>| row@), colors@, x as int))
        },
{
    let ghost m = adj@.map_values(|row: Vec<bool>| row@);
    let n = colors.len();
    let mut candidate: Option<usize> = None;
    let mut best_colored: usize = 0;
    let mut best_uncolored: usize = 0;
    let mut i: usize = 0;
    while i < n
        invariant
            n == colors@.len(),
            colors@.len() == adj@.len(),
            m == adj@.map_values(|row: Vec<bool>| row@),
            forall|a: int| 0 <= a < adj@.len() ==> #[trigger] adj@[a]@.len() == adj@.len(),
            i <= n,
            candidate is None <==> (forall|a: int| 0 <= a < i ==> #[trigger] colors@[a] is Some),
            candidate matches Some(x) ==> {
                &&& x < i
                &&& colors@[x as int] is None
                &&& priority(m, colors@, x as int) == (best_colored as nat, best_uncolored as nat)
                &&& forall|j: int| 0 <= j < i && #[trigger] colors@[j] is None ==>
                    !priority_lt(priority(m, colors@, x as int), priority(m, colors@, j))
                &&& forall|j: int| 0 <= j < x && #[trigger] colors@[j] is None ==>
                    priority_lt(priority(m, colors@, j), priority(m, colors@, x as int))
            },
            candidate is None ==> best_colored == 0 && best_uncolored == 0,
        decreases n - i,
    {
        if colors[i].is_none() {
            let (c, u) = neighbour_counts(&adj[i], colors);
            assert(m[i as int] == adj@[i as int]@);
            assert(priority(m, colors@, i as int) == (c as nat, u as nat));
            if c > best_colored || (c == best_colored && u > best_uncolored) {
                best_colored = c;
                best_uncolored = u;
                candidate = Some(i);
            } else if candidate.is_none() {
                best_colored = c;
                best_uncolored = u;
                candidate = Some(i);
            }
        }
        i = i + 1;
    }
    candidate
}

/// True when a neighbour of the row has color `c`.
fn neighbour_has_color(row: &Vec<bool>, colors: &Vec<Option<usize>>, c: usize) -> (r: bool)
    requires
        row@.len() == colors@.len(),
    ensures
        r == exists|j: int| 0 <= j < row@.len() && row@[j] && #[trigger] colors@[j] == Some(c),
{
    let mut j: usize = 0;
    while j < row.len()
        invariant
            row@.len() == colors@.len(),
            j <= row@.len(),
            forall|k: int| 0 <= k < j ==> !(row@[k] && #[trigger] colors@[k] == Some(c)),
        decreases row@.len() - j,
    {
        if row[j] {
            match colors[j] {
                Some(d) => {
                    if d == c {
                        return true;
                    }
                },
                None => {},
            }
        }
        j = j + 1;
    }
    false
}

/// Position `i` has a neighbour of color `d` among the colored positions.
pub open spec fn neighbour_colored(m: Seq<Seq<bool>>, colors: Seq<Option<usize>>, i: int, d: int) -> bool {
    exists|j: int| 0 <= j < colors.len() && m[i][j] && colors[j] == Some(d as usize)
}

/// Every colored position has, for each smaller color, a neighbour of that
/// color: it took the smallest color its colored neighbours left free.
pub open spec fn greedy_partial(m: Seq<Seq<bool>>, colors: Seq<Option<usize>>) -> bool {
    forall|a: int, d: int| 0 <= a < colors.len() && colors[a] is Some && 0 <= d < colors[a]->0 ==>
        #[trigger] neighbour_colored(m, colors, a, d)
}

/// Position `i` has a neighbour of color `d`.
pub open spec fn neighbour_of_color(m: Seq<Seq<bool>>, colors: Seq<usize>, i: int, d: int) -> bool {
    exists|j: int| 0 <= j < colors.len() && m[i][j] && colors[j] == d
}

/// The rows of a matrix of booleans.
pub open spec fn bool_rows(adj: Seq<Vec<bool>>) -> Seq<Seq<bool>> {
    adj.map_values(|row: Vec<bool>| row@)
}

/// Item `i` conflicts with some item of `group`.
pub open spec fn group_has_neighbour(adj: Seq<Seq<bool>>, group: Seq<int>, i: int) -> bool {
    exists|k: int| 0 <= k < group.len() && adj[i][group[k]]
}

/// Colors every position: the next position is the one [pick_next] gives, and its
/// color is the smallest color none of its colored neighbours has, or a new color.
/// Returns the colors and their number.
fn color_graph(adj: &Vec<Vec<bool>>) -> (r: (Vec<usize>, usize))
    requires
        symmetric_graph(adj@.map_values(|row: Vec<bool>| row@)),
    ensures
        r.0@.len() == adj@.len(),
        forall|i: int| 0 <= i < adj@.len() ==> #[trigger] r.0@[i] < r.1,
        forall|i: int, j: int| 0 <= i < adj@.len() && 0 <= j < adj@.len() && #[trigger] adj@[i]@[j] ==>
            r.0@[i] != r.0@[j],
        forall|c: int| 0 <= c < r.1 ==> #[trigger] color_used(r.0@, c),
        forall|i: int, d: int| 0 <= i < adj@.len() && 0 <= d < r.0@[i] ==>
            #[trigger] neighbour_of_color(bool_rows(adj@), r.0@, i, d),
{
    let ghost m = adj@.map_values(|row: Vec<bool>| row@);
    let n = adj.len();
    let mut colors: Vec<Option<usize>> = Vec::new();
    let mut i: usize = 0;
    while i < n
        invariant
            i <= n,
            colors@.len() == i,
            forall|a: int| 0 <= a < i ==> #[trigger] colors@[a] is None,
        decreases n - i,
    {
        colors.push(None);
        i = i + 1;
    }
    proof {
        assert forall|a: int| 0 <= a < n implies #[trigger] adj@[a]@.len() == n by {
            assert(m[a] == adj@[a]@);
        }
        assert(uncolored_count(colors@) == n) by {
            lemma_uncolored_all(colors@);
        }
    }
    let mut palette: usize = 0;
    let mut uncolored: usize = n;
    loop
        invariant_except_break
            n == adj@.len(),
            m == adj@.map_values(|row: Vec<bool>| row@),
            symmetric_graph(m),
            forall|a: int| 0 <= a < n ==> #[trigger] adj@[a]@.len() == n,
            colors@.len() == n,
            uncolored == uncolored_count(colors@),
            palette <= n - uncolored,
            forall|a: int| 0 <= a < n && #[trigger] colors@[a] is Some ==> colors@[a]->0 < palette,
            proper_partial_coloring(m, colors@),
            forall|c: int| 0 <= c < palette ==> #[trigger] color_used_partial(colors@, c),
            greedy_partial(m, colors@),
        ensures
            colors@.len() == n,
            forall|a: int| 0 <= a < n ==> #[trigger] colors@[a] is Some,
            forall|a: int| 0 <= a < n ==> (#[trigger] colors@[a])->0 < palette,
            proper_partial_coloring(m, colors@),
            forall|c: int| 0 <= c < palette ==> #[trigger] color_used_partial(colors@, c),
            greedy_partial(m, colors@),
        decreases uncolored,
    {
        let next = pick_next(adj, &colors);
        match next {
            None => {
                break;
            },
            Some(x) => {
                proof {
                    lemma_uncolored_count_positive(colors@, x as int);
                }
                let mut c: usize = 0;
                let mut searching = true;
                while searching
                    invariant
                        n == adj@.len(),
                        x < n,
                        adj@[x as int]@.len() == n,
                        colors@.len() == n,
                        c <= palette,
                        m == adj@.map_values(|row: Vec<bool>| row@),
                        forall|d: int| 0 <= d < c ==> #[trigger] neighbour_colored(m, colors@, x as int, d),
                        !searching ==> (c == palette || !(exists|j: int| 0 <= j < adj@[x as int]@.len() && adj@[x as int]@[j] && #[trigger] colors@[j] == Some(c))),
                    decreases palette - c, (if searching { 1int } else { 0int }),
                {
                    if c == palette {
                        searching = false;
                    } else if !neighbour_has_color(&adj[x], &colors, c) {
                        searching = false;
                    } else {
                        proof {
                            assert(m[x as int] == adj@[x as int]@);
                            let j = choose|j: int| 0 <= j < adj@[x as int]@.len() && adj@[x as int]@[j] && #[trigger] colors@[j] == Some(c);
                            assert(neighbour_colored(m, colors@, x as int, c as int));
                        }
                        c = c + 1;
                    }
                }
                let ghost before = colors@;
                if c == palette {
                    palette = palette + 1;
                }
                colors.set(x, Some(c));
                proof {
                    lemma_uncolored_count_update(before, x as int, c);
                    assert(m[x as int] == adj@[x as int]@);
                    // no colored neighbour of x has color c
                    assert forall|j: int| 0 <= j < n && adj@[x as int]@[j] && before[j] is Some implies before[j] != Some(c) by {
                        if before[j] == Some(c) {
                            assert(exists|k: int| 0 <= k < adj@[x as int]@.len() && adj@[x as int]@[k] && #[trigger] before[k] == Some(c));
                        }
                    }
                    assert forall|a: int, b: int|
                        0 <= a < m.len() && 0 <= b < m.len() && #[trigger] m[a][b]
                            && colors@[a] is Some && colors@[b] is Some implies #[trigger] colors@[a] != #[trigger] colors@[b] by {
                        if a == x as int {
                            assert(m[a] == adj@[a]@);
                        } else if b == x as int {
                            assert(m[b][a] == m[a][b]);
                            assert(m[b] == adj@[b]@);
                        } else {
                            assert(before[a] != before[b]);
                        }
                    }
                    assert forall|a: int, d: int| 0 <= a < colors@.len() && colors@[a] is Some && 0 <= d < colors@[a]->0 implies
                        #[trigger] neighbour_colored(m, colors@, a, d) by {
                        if a == x as int {
                            assert(neighbour_colored(m, before, a, d));
                        } else {
                            assert(before[a] == colors@[a]);
                            assert(neighbour_colored(m, before, a, d));
                        }
                        let j = choose|j: int| 0 <= j < before.len() && m[a][j] && before[j] == Some(d as usize);
                        assert(colors@[j] == before[j]);
                    }
                    assert forall|d: int| 0 <= d < palette implies #[trigger] color_used_partial(colors@, d) by {
                        if d == c as int {
                            assert(colors@[x as int] == Some(d as usize));
                        } else {
                            assert(color_used_partial(before, d));
                            let a = choose|a: int| 0 <= a < before.len() && before[a] == Some(d as usize);
                            assert(colors@[a] == Some(d as usize));
                        }
                    }
                }
                uncolored = uncolored - 1;
            },
        }
    }
    let mut out: Vec<usize> = Vec::new();
    let mut i: usize = 0;
    while i < n
        invariant
            n == adj@.len(),
            colors@.len() == n,
            forall|a: int| 0 <= a < n ==> #[trigger] colors@[a] is Some,
            i <= n,
            out@.len() == i,
            forall|a: int| 0 <= a < i ==> #[trigger] out@[a] == colors@[a]->0,
        decreases n - i,
    {
        match colors[i] {
            Some(c) => out.push(c),
            None => out.push(0),
        }
        i = i + 1;
    }
    proof {
        assert forall|a: int, b: int| 0 <= a < n && 0 <= b < n && #[trigger] adj@[a]@[b] implies out@[a] != out@[b] by {
            assert(m[a] == adj@[a]@);
            assert(colors@[a] != colors@[b]);
        }
        assert forall|c: int| 0 <= c < palette implies #[trigger] color_used(out@, c) by {
            assert(color_used_partial(colors@, c));
            let a = choose|a: int| 0 <= a < colors@.len() && colors@[a] == Some(c as usize);
            assert(out@[a] == c);
        }
        assert(m == bool_rows(adj@));
        assert forall|a: int, d: int| 0 <= a < n && 0 <= d < out@[a] implies #[trigger] neighbour_of_color(bool_rows(adj@), out@, a, d) by {
            assert(colors@[a] is Some);
            assert(neighbour_colored(m, colors@, a, d));
            let j = choose|j: int| 0 <= j < colors@.len() && m[a][j] && colors@[j] == Some(d as usize);
            assert(out@[j] == d);
        }
    }
    (out, palette)
}

proof fn lemma_uncolored_all(colors: Seq<Option<usize>>)
    requires
        forall|a: int| 0 <= a < colors.len() ==> #[trigger] colors[a] is None,
    ensures
        uncolored_count(colors) == colors.len(),
    decreases colors.len(),
{
    if colors.len() > 0 {
        lemma_uncolored_all(colors.drop_last());
    }
}

proof fn lemma_uncolored_count_positive(colors: Seq<Option<usize>>, x: int)
    requires
        0 <= x < colors.len(),
        colors[x] is None,
    ensures
        uncolored_count(colors) > 0,
{
    lemma_uncolored_count_update(colors, x, 0);
}

/// True when an exclusive dependency in `exc` equals a dependency in `dep` or an
/// exclusive dependency in `other_exc`, as the dependency type's `==` reports.
fn exclusive_conflict<D: PartialEq>(exc: &Vec<D>, dep: &Vec<D>, other_exc: &Vec<D>) -> (r: bool)
    ensures
        D::obeys_eq_spec() ==> r == claims_conflict(exc@, dep@, other_exc@),
{
    let mut a: usize = 0;
    while a < exc.len()
        invariant
            a <= exc@.len(),
            D::obeys_eq_spec() ==> forall|x: int, y: int|
                #![trigger exc@[x], dep@[y]]
                0 <= x < a && 0 <= y < dep@.len() ==> !exc@[x].eq_spec(&dep@[y]),
            D::obeys_eq_spec() ==> forall|x: int, y: int|
                #![trigger exc@[x], other_exc@[y]]
                0 <= x < a && 0 <= y < other_exc@.len() ==> !exc@[x].eq_spec(&other_exc@[y]),
        decreases exc@.len() - a,
    {
        let mut b: usize = 0;
        while b < dep.len()
            invariant
                a < exc@.len(),
                b <= dep@.len(),
                D::obeys_eq_spec() ==> forall|y: int| 0 <= y < b ==> !exc@[a as int].eq_spec(&#[trigger] dep@[y]),
            decreases dep@.len() - b,
        {
            if exc[a] == dep[b] {
                return true;
            }
            b = b + 1;
        }
        let mut b: usize = 0;
        while b < other_exc.len()
            invariant
                a < exc@.len(),
                b <= other_exc@.len(),
                D::obeys_eq_spec() ==> forall|y: int| 0 <= y < b ==> !exc@[a as int].eq_spec(&#[trigger] other_exc@[y]),
            decreases other_exc@.len() - b,
        {
            if exc[a] == other_exc[b] {
                return true;
            }
            b = b + 1;
        }
        a = a + 1;
    }
    false
}

} // verus!
