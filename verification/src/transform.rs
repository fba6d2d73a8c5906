//! Transformations and the phases that run them.
//!
//! A transformation reads some component types and writes others. A phase
//! holds transformations in subphases: the transformations of one subphase may
//! run together, since none of them writes a component type another of them
//! reads or writes. Adding a transformation regroups all of them with a
//! conflict graph.

use vstd::prelude::*;
use std::any::TypeId;
use core::marker::PhantomData;
use crate::component::{ComponentType, raws_of};
use crate::conflict::{ConflictGraph, ConflictGraphNode, Dependent, claims_conflict, placed, group_has_neighbour};
use crate::database::EntityDatabase;
use crate::id::ColumnKey;

verus! {

#[verifier::external_type_specification]
#[verifier::external_body]
pub struct ExTypeId(TypeId);

/// Identifies a transformation by the type that implements it.
#[derive(Debug, Clone, Copy, PartialEq, Eq, PartialOrd, Ord, Hash)]
pub struct TransformationId(pub TypeId);

/// The raw type ids of the component types, in order.
fn raw_ids(types: &Vec<ComponentType>) -> (r: Vec<u64>)
    ensures
        r@ == raws_of(types@),
{
    let mut out: Vec<u64> = Vec::new();
    let mut i: usize = 0;
    while i < types.len()
        invariant
            i <= types@.len(),
            out@ == raws_of(types@.take(i as int)),
        decreases types@.len() - i,
    {
        out.push(types[i].0.0);
        assert(raws_of(types@.take(i as int + 1)) =~= raws_of(types@.take(i as int)).push(types@[i as int].0.0));
        i = i + 1;
    }
    assert(types@.take(types@.len() as int) =~= types@);
    out
}

/// A transformation, with the component types it reads and writes.
pub struct DynTransform<T> {
    pub ptr: T,
    pub reads: Vec<ComponentType>,
    pub writes: Vec<ComponentType>,
}

impl<T> Dependent for DynTransform<T> {
    type Dependency = u64;

    open spec fn declared_dependencies(&self) -> Seq<u64> {
        raws_of(self.reads@)
    }

    open spec fn declared_exclusive_dependencies(&self) -> Seq<u64> {
        raws_of(self.writes@)
    }

    fn dependencies(&self) -> (r: Vec<u64>)
        ensures
            r@ == raws_of(self.reads@),
    {
        raw_ids(&self.reads)
    }

    fn exclusive_dependencies(&self) -> (r: Vec<u64>)
        ensures
            r@ == raws_of(self.writes@),
    {
        raw_ids(&self.writes)
    }
}

/// Two transformations conflict when one writes a component type the other
/// reads or writes.
pub open spec fn transforms_conflict<T>(a: DynTransform<T>, b: DynTransform<T>) -> bool {
    ||| claims_conflict(raws_of(a.writes@), raws_of(b.reads@), raws_of(b.writes@))
    ||| claims_conflict(raws_of(b.writes@), raws_of(a.reads@), raws_of(a.writes@))
}

/// The groups one after the other.
pub open spec fn flatten<A>(groups: Seq<Seq<A>>) -> Seq<A>
    decreases groups.len(),
{
    if groups.len() == 0 {
        Seq::empty()
    } else {
        groups[0] + flatten(groups.drop_first())
    }
}

/// `origin` lists each position below `n` exactly once, in non-empty groups.
pub open spec fn regroups(origin: Seq<Seq<int>>, n: int) -> bool {
    &&& forall|c: int| 0 <= c < origin.len() ==> #[trigger] origin[c].len() > 0
    &&& forall|c: int, k: int| 0 <= c < origin.len() && 0 <= k < origin[c].len() ==> 0 <= #[trigger] origin[c][k] < n
    &&& forall|i: int| 0 <= i < n ==> #[trigger] placed(origin, i)
    &&& forall|c1: int, k1: int, c2: int, k2: int|
        0 <= c1 < origin.len() && 0 <= k1 < origin[c1].len()
        && 0 <= c2 < origin.len() && 0 <= k2 < origin[c2].len()
        && #[trigger] origin[c1][k1] == #[trigger] origin[c2][k2] ==> c1 == c2 && k1 == k2
}

/// A set of transformations, grouped in subphases of transformations that do
/// not conflict.
pub struct Phase<T> {
    subphases: Vec<Vec<(TransformationId, DynTransform<T>)>>,
}

impl<T> Phase<T> {
    /// The subphases, in the order they run.
    pub closed spec fn subphases_spec(self) -> Seq<Seq<(TransformationId, DynTransform<T>)>> {
        self.subphases@.map_values(|s: Vec<(TransformationId, DynTransform<T>)>| s@)
    }

    /// A phase without transformations.
    pub fn new() -> (r: Phase<T>)
        ensures
            r.subphases_spec() == Seq::<Seq<(TransformationId, DynTransform<T>)>>::empty(),
    {
        let r = Phase { subphases: Vec::new() };
        assert(r.subphases_spec() =~= Seq::<Seq<(TransformationId, DynTransform<T>)>>::empty());
        r
    }

    /// The subphases, in the order they run.
    pub fn subphases(&self) -> (r: &Vec<Vec<(TransformationId, DynTransform<T>)>>)
        ensures
            r@.map_values(|s: Vec<(TransformationId, DynTransform<T>)>| s@) == self.subphases_spec(),
    {
        &self.subphases
    }

    /// Adds a transformation, which reads `reads` and writes `writes`, and
    /// regroups all the transformations of the phase: each one lands in exactly
    /// one subphase, and no two transformations of a subphase conflict. The
    /// grouping is the greedy coloring of the conflict graph: every
    /// transformation of a later subphase conflicts with some transformation of
    /// each earlier one.
    pub fn add_transformation(&mut self, id: TransformationId, ptr: T, reads: Vec<ComponentType>, writes: Vec<ComponentType>)
        ensures
            ({
                let items = flatten(old(self).subphases_spec()).push((id, DynTransform { ptr, reads, writes }));
                exists|origin: Seq<Seq<int>>| {
                    &&& #[trigger] regroups(origin, items.len() as int)
                    &&& origin.len() == final(self).subphases_spec().len()
                    &&& forall|c: int| 0 <= c < origin.len() ==> #[trigger] origin[c].len() == final(self).subphases_spec()[c].len()
                    &&& forall|c: int, k: int| 0 <= c < origin.len() && 0 <= k < origin[c].len() ==>
                        #[trigger] final(self).subphases_spec()[c][k] == items[origin[c][k]]
                }
            }),
            forall|c: int, k1: int, k2: int|
                0 <= c < final(self).subphases_spec().len() && 0 <= k1 < final(self).subphases_spec()[c].len()
                && 0 <= k2 < final(self).subphases_spec()[c].len() && k1 != k2 ==>
                !transforms_conflict(#[trigger] final(self).subphases_spec()[c][k1].1, #[trigger] final(self).subphases_spec()[c][k2].1),
            forall|c: int, k: int, d: int|
                0 <= c < final(self).subphases_spec().len() && 0 <= k < final(self).subphases_spec()[c].len() && 0 <= d < c ==>
                #[trigger] conflicts_with_some(final(self).subphases_spec()[d], final(self).subphases_spec()[c][k].1),
            forall|c: int, k1: int, k2: int, x: u64|
                0 <= c < final(self).subphases_spec().len() && 0 <= k1 < final(self).subphases_spec()[c].len()
                && 0 <= k2 < final(self).subphases_spec()[c].len() && k1 != k2
                && #[trigger] raws_of(final(self).subphases_spec()[c][k1].1.writes@).contains(x) ==>
                !raws_of(#[trigger] final(self).subphases_spec()[c][k2].1.writes@).contains(x)
                && !raws_of(final(self).subphases_spec()[c][k2].1.reads@).contains(x),
    {
        let mut old_subphases: Vec<Vec<(TransformationId, DynTransform<T>)>> = Vec::new();
        std::mem::swap(&mut old_subphases, &mut self.subphases);
        let ghost old_subphases_at_start = old_subphases@.map_values(|s: Vec<(TransformationId, DynTransform<T>)>| s@);
        let ghost items0 = flatten(old_subphases_at_start);
        let mut graph: ConflictGraph<TransformationId, DynTransform<T>> = ConflictGraph::new();
        while old_subphases.len() > 0
            invariant
                graph.wf(),
                graph.nodes().map_values(|n: ConflictGraphNode<TransformationId, DynTransform<T>, u64>| (n.key, n.val))
                    + flatten(old_subphases@.map_values(|s: Vec<(TransformationId, DynTransform<T>)>| s@)) == items0,
                forall|i: int| 0 <= i < graph.nodes().len() ==> {
                    &&& (#[trigger] graph.nodes()[i]).dep@ == raws_of(graph.nodes()[i].val.reads@)
                    &&& graph.nodes()[i].exc@ == raws_of(graph.nodes()[i].val.writes@)
                },
            decreases old_subphases@.len(),
        {
            let ghost before = old_subphases@.map_values(|s: Vec<(TransformationId, DynTransform<T>)>| s@);
            let mut sub = old_subphases.remove(0);
            proof {
                assert(old_subphases@.map_values(|s: Vec<(TransformationId, DynTransform<T>)>| s@) =~= before.drop_first());
                assert(flatten(before) == before[0] + flatten(before.drop_first()));
            }
            while sub.len() > 0
                invariant
                    graph.wf(),
                    graph.nodes().map_values(|n: ConflictGraphNode<TransformationId, DynTransform<T>, u64>| (n.key, n.val))
                        + sub@ + flatten(old_subphases@.map_values(|s: Vec<(TransformationId, DynTransform<T>)>| s@)) == items0,
                    forall|i: int| 0 <= i < graph.nodes().len() ==> {
                        &&& (#[trigger] graph.nodes()[i]).dep@ == raws_of(graph.nodes()[i].val.reads@)
                        &&& graph.nodes()[i].exc@ == raws_of(graph.nodes()[i].val.writes@)
                    },
                decreases sub@.len(),
            {
                let ghost kv_before = graph.nodes().map_values(|n: ConflictGraphNode<TransformationId, DynTransform<T>, u64>| (n.key, n.val));
                let ghost sub_before = sub@;
                let (key, val) = sub.remove(0);
                let dep = raw_ids(&val.reads);
                let exc = raw_ids(&val.writes);
                graph.insert_with(key, val, dep, exc);
                proof {
                    assert(graph.nodes().map_values(|n: ConflictGraphNode<TransformationId, DynTransform<T>, u64>| (n.key, n.val))
                        =~= kv_before.push((key, val)));
                    assert(sub@ =~= sub_before.drop_first());
                    assert(kv_before.push((key, val)) + sub@ =~= kv_before + sub_before);
                }
            }
            proof {
                assert(sub@ =~= Seq::<(TransformationId, DynTransform<T>)>::empty());
            }
        }
        let dep = raw_ids(&reads);
        let exc = raw_ids(&writes);
        let ghost kv_before = graph.nodes().map_values(|n: ConflictGraphNode<TransformationId, DynTransform<T>, u64>| (n.key, n.val));
        let transform = DynTransform { ptr, reads, writes };
        let ghost new_item = (id, transform);
        graph.insert_with(id, transform, dep, exc);
        let ghost nodes = graph.nodes();
        proof {
            assert(old_subphases@.map_values(|s: Vec<(TransformationId, DynTransform<T>)>| s@) =~= Seq::<Seq<(TransformationId, DynTransform<T>)>>::empty());
            assert(kv_before =~= items0);
            assert(nodes.map_values(|n: ConflictGraphNode<TransformationId, DynTransform<T>, u64>| (n.key, n.val)) =~= items0.push(new_item));
        }
        let ghost g = graph;
        let built = graph.build();
        let ghost origin = built.origin();
        let ghost groups = built.groups();
        self.subphases = built.into_groups();
        proof {
            let items = items0.push(new_item);
            assert(items.len() == nodes.len());
            assert forall|c: int, k: int| 0 <= c < origin.len() && 0 <= k < origin[c].len() implies
                #[trigger] self.subphases_spec()[c][k] == items[origin[c][k]] by {
                assert(groups[c][k] == (nodes[origin[c][k]].key, nodes[origin[c][k]].val));
                assert(nodes.map_values(|n: ConflictGraphNode<TransformationId, DynTransform<T>, u64>| (n.key, n.val))[origin[c][k]]
                    == (nodes[origin[c][k]].key, nodes[origin[c][k]].val));
            }
            assert(regroups(origin, items.len() as int));
            assert(self.subphases_spec() == groups);
            assert(origin.len() == self.subphases_spec().len());
            assert forall|c: int| 0 <= c < origin.len() implies #[trigger] origin[c].len() == self.subphases_spec()[c].len() by {}
            assert(items0 == flatten(old(self).subphases_spec())) by {
                assert(old(self).subphases_spec() =~= old_subphases_at_start);
            }
            assert forall|c: int, k1: int, k2: int|
                0 <= c < self.subphases_spec().len() && 0 <= k1 < self.subphases_spec()[c].len()
                && 0 <= k2 < self.subphases_spec()[c].len() && k1 != k2 implies
                !transforms_conflict(#[trigger] self.subphases_spec()[c][k1].1, #[trigger] self.subphases_spec()[c][k2].1) by {
                let o1 = origin[c][k1];
                let o2 = origin[c][k2];
                assert(groups[c][k1] == (nodes[o1].key, nodes[o1].val));
                assert(groups[c][k2] == (nodes[o2].key, nodes[o2].val));
                assert(nodes[o1].dep@ == raws_of(nodes[o1].val.reads@));
                assert(nodes[o2].dep@ == raws_of(nodes[o2].val.reads@));
                assert(!ConflictGraph::<TransformationId, DynTransform<T>>::conflicting(nodes, o1, o2));
            }
            assert forall|c: int, k1: int, k2: int, x: u64|
                0 <= c < self.subphases_spec().len() && 0 <= k1 < self.subphases_spec()[c].len()
                && 0 <= k2 < self.subphases_spec()[c].len() && k1 != k2
                && #[trigger] raws_of(self.subphases_spec()[c][k1].1.writes@).contains(x) implies
                !raws_of(#[trigger] self.subphases_spec()[c][k2].1.writes@).contains(x)
                && !raws_of(self.subphases_spec()[c][k2].1.reads@).contains(x) by {
                let t1 = self.subphases_spec()[c][k1].1;
                let t2 = self.subphases_spec()[c][k2].1;
                assert(!transforms_conflict(t1, t2));
                if raws_of(t2.writes@).contains(x) || raws_of(t2.reads@).contains(x) {
                    crate::conflict::lemma_shared_resource_conflicts(raws_of(t1.writes@), raws_of(t2.reads@), raws_of(t2.writes@), x);
                }
            }
            assert forall|c: int, k: int, d: int|
                0 <= c < self.subphases_spec().len() && 0 <= k < self.subphases_spec()[c].len() && 0 <= d < c implies
                #[trigger] conflicts_with_some(self.subphases_spec()[d], self.subphases_spec()[c][k].1) by {
                let a = origin[c][k];
                assert(group_has_neighbour(built.adjacency(), origin[d], a));
                let k2 = choose|k2: int| 0 <= k2 < origin[d].len() && built.adjacency()[a][origin[d][k2]];
                let b = origin[d][k2];
                assert(0 <= a < nodes.len() && 0 <= b < nodes.len());
                assert(g.adjacency()[a][b] == (a != b && ConflictGraph::<TransformationId, DynTransform<T>>::conflicting(nodes, a, b)));
                assert(groups[c][k] == (nodes[a].key, nodes[a].val));
                assert(groups[d][k2] == (nodes[b].key, nodes[b].val));
                assert(nodes[a].dep@ == raws_of(nodes[a].val.reads@));
                assert(nodes[b].dep@ == raws_of(nodes[b].val.reads@));
                assert(transforms_conflict(self.subphases_spec()[d][k2].1, self.subphases_spec()[c][k].1));
            }
        }
    }
}

/// Some transformation of `group` conflicts with `t`.
pub open spec fn conflicts_with_some<T>(group: Seq<(TransformationId, DynTransform<T>)>, t: DynTransform<T>) -> bool {
    exists|k: int| 0 <= k < group.len() && transforms_conflict(group[k].1, t)
}

/// Selects the component type `C` for reading.
pub struct Read<C> {
    marker: PhantomData<C>,
}

impl<C> Read<C> {
    pub fn new() -> (r: Read<C>) {
        Read { marker: PhantomData }
    }
}

/// Selects the component type `C` for writing.
pub struct Write<C> {
    marker: PhantomData<C>,
}

impl<C> Write<C> {
    pub fn new() -> (r: Write<C>) {
        Write { marker: PhantomData }
    }
}

/// Marks the kinds of access a selection makes.
pub trait ReadWrite {}

impl<C> ReadWrite for Read<C> {}

impl<C> ReadWrite for Write<C> {}

/// Marks the selections that carry metadata.
pub trait MetaData {}

impl<C> MetaData for Read<C> {}

impl<C> MetaData for Write<C> {}

/// Messages handed to a transformation.
pub struct Messages {}

/// Data that is read and written.
pub trait RwData {}

/// Something that reads the component type `C`.
pub trait Reads<C> {}

/// Something that writes the component type `C`.
pub trait Writes<C> {}

/// The component types a transformation reads and writes.
pub struct RwSet {}

/// An iterator over the values of a component type that is read.
pub struct ReadIter {}

/// An iterator over the values of a component type that is written.
pub struct WriteIter {}

/// A transformation finished.
#[derive(Debug)]
pub struct TransformSuccess;

/// A transformation failed.
#[derive(Debug)]
pub struct TransformError {}

/// Row `i` of the chunk of `width` columns whose keys start at `start`: the
/// `i`-th value of each of those columns, when all of them exist and are long
/// enough.
pub open spec fn row_at<V>(db: EntityDatabase<V>, keys: Seq<ColumnKey>, width: int, start: int, i: int) -> Option<Seq<V>> {
    if forall|j: int| 0 <= j < width ==> {
        &&& #[trigger] db.columns_spec().contains_key(keys[start + j].0.0)
        &&& i < db.columns_spec()[keys[start + j].0.0].values().len()
    } {
        Some(Seq::new(width as nat, |j: int| db.columns_spec()[keys[start + j].0.0].values()[i]))
    } else {
        None
    }
}

/// What iterating the rows from row `i` of the chunk at `start` gives next: the
/// row itself when it is complete, or else the first row of the next chunk, and
/// so on; `None` once no chunk of `width` keys is left. Also gives the position
/// the iteration stops at.
pub open spec fn next_row<V>(db: EntityDatabase<V>, keys: Seq<ColumnKey>, width: int, start: int, i: int) -> (Option<Seq<V>>, int, int)
    decreases keys.len() - start,
{
    if width <= 0 || start < 0 || start + width > keys.len() {
        (None, start, i)
    } else {
        match row_at(db, keys, width, start, i) {
            Some(values) => (Some(values), start, i + 1),
            None => next_row(db, keys, width, start + width, 0),
        }
    }
}

/// Law: a chunk that has no complete row at index `i` is left behind: when
/// another chunk of `width` keys follows, iterating goes on from the first row
/// of that chunk, whatever `i` is.
pub proof fn lemma_incomplete_chunk_skipped<V>(db: EntityDatabase<V>, keys: Seq<ColumnKey>, width: int, start: int, i: int)
    requires
        width > 0,
        0 <= start,
        start + 2 * width <= keys.len(),
        row_at(db, keys, width, start, i) is None,
    ensures
        next_row(db, keys, width, start, i) == next_row(db, keys, width, start + width, 0),
{
}

/// Law: a complete row is what iterating yields next, and iteration then moves
/// to the following index of the same chunk.
pub proof fn lemma_complete_row_yielded<V>(db: EntityDatabase<V>, keys: Seq<ColumnKey>, width: int, start: int, i: int)
    requires
        width > 0,
        0 <= start,
        start + width <= keys.len(),
        row_at(db, keys, width, start, i) is Some,
    ensures
        next_row(db, keys, width, start, i) == (row_at(db, keys, width, start, i), start, i + 1),
{
}

/// Law: iteration ends only once no complete row is left: when iterating from
/// index `i` of the chunk at `start` gives nothing, that chunk has no complete
/// row at `i`, and iterating from the first row of the next chunk, if there is
/// one, gives nothing either.
pub proof fn lemma_end_means_no_rows_left<V>(db: EntityDatabase<V>, keys: Seq<ColumnKey>, width: int, start: int, i: int)
    requires
        width > 0,
        0 <= start,
        start + width <= keys.len(),
        next_row(db, keys, width, start, i).0 is None,
    ensures
        row_at(db, keys, width, start, i) is None,
        start + 2 * width <= keys.len() ==> next_row(db, keys, width, start + width, 0).0 is None,
{
}

/// Walks the rows of the tables whose columns `keys` lists, `width` keys per
/// table: row by row through one table, then on to the next.
pub struct RowIter {
    keys: Vec<ColumnKey>,
    width: usize,
    start: usize,
    index: usize,
}

impl RowIter {
    /// The keys of the columns, table by table.
    pub closed spec fn keys_spec(self) -> Seq<ColumnKey> {
        self.keys@
    }

    /// The number of columns per table.
    pub closed spec fn width_spec(self) -> int {
        self.width as int
    }

    /// Where the keys of the current table start.
    pub closed spec fn start_spec(self) -> int {
        self.start as int
    }

    /// The next row of the current table.
    pub closed spec fn index_spec(self) -> int {
        self.index as int
    }

    /// Starts at the first row of the first table.
    pub fn new(keys: Vec<ColumnKey>, width: usize) -> (r: RowIter)
        ensures
            r.keys_spec() == keys@,
            r.width_spec() == width,
            r.start_spec() == 0,
            r.index_spec() == 0,
    {
        RowIter { keys, width, start: 0, index: 0 }
    }

    /// The next complete row, as references to its values, one per column of
    /// the table; `None` once the tables are exhausted.
    pub fn next<'a, V>(&mut self, db: &'a EntityDatabase<V>) -> (r: Option<Vec<&'a V>>)
        ensures
            final(self).keys_spec() == old(self).keys_spec(),
            final(self).width_spec() == old(self).width_spec(),
            ({
                let (values, start, index) = next_row(*db, old(self).keys_spec(), old(self).width_spec(),
                    old(self).start_spec(), old(self).index_spec());
                &&& match r {
                    Some(row) => values == Some(row@.map_values(|v: &V| *v)),
                    None => values is None,
                }
                &&& final(self).start_spec() == start
                &&& final(self).index_spec() == index
            }),
    {
        let ghost goal = next_row(*db, self.keys@, self.width as int, self.start as int, self.index as int);
        loop
            invariant
                next_row(*db, self.keys@, self.width as int, self.start as int, self.index as int) == goal,
                goal == next_row(*db, old(self).keys_spec(), old(self).width_spec(), old(self).start_spec(), old(self).index_spec()),
                self.keys@ == old(self).keys_spec(),
                self.width == old(self).width_spec(),
            decreases self.keys@.len() - self.start,
        {
            if self.width == 0 || self.start > self.keys.len() || self.width > self.keys.len() - self.start {
                return None;
            }
            let mut row: Vec<&'a V> = Vec::new();
            let mut complete = true;
            let mut j: usize = 0;
            while j < self.width
                invariant
                    0 < self.width,
                    self.start + self.width <= self.keys@.len(),
                    self.keys@.len() <= usize::MAX,
                    j <= self.width,
                    complete ==> row@.len() == j,
                    complete && j > 0 ==> self.index < usize::MAX,
                    complete ==> forall|m: int| 0 <= m < j ==> {
                        &&& #[trigger] db.columns_spec().contains_key(self.keys@[self.start + m].0.0)
                        &&& self.index < db.columns_spec()[self.keys@[self.start + m].0.0].values().len()
                        &&& *row@[m] == db.columns_spec()[self.keys@[self.start + m].0.0].values()[self.index as int]
                    },
                    !complete ==> row_at(*db, self.keys@, self.width as int, self.start as int, self.index as int) is None,
                decreases self.width - j,
            {
                if complete {
                    let key = self.keys[self.start + j];
                    match db.get_column(&key) {
                        Some(column) => {
                            if self.index < column.len() {
                                row.push(column.value_at(self.index));
                            } else {
                                complete = false;
                            }
                        },
                        None => {
                            complete = false;
                        },
                    }
                }
                j = j + 1;
            }
            if complete {
                let ghost values = Seq::new(self.width as nat, |m: int| db.columns_spec()[self.keys@[self.start + m].0.0].values()[self.index as int]);
                let ghost derefed = row@.map_values(|v: &V| *v);
                assert forall|m: int| 0 <= m < self.width implies #[trigger] derefed[m] == values[m] by {
                    assert(db.columns_spec().contains_key(self.keys@[self.start + m].0.0));
                }
                assert(derefed =~= values);
                assert(row_at(*db, self.keys@, self.width as int, self.start as int, self.index as int) == Some(values));
                self.index = self.index + 1;
                return Some(row);
            }
            self.start = self.start + self.width;
            self.index = 0;
        }
    }
}

} // verus!
