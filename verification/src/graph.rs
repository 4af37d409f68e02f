//! The audio graph: node storage, ordered source lists, the cached
//! topological order, and the per-frame traversal that packs every
//! module's input buffer and advances it one frame.
//!
//! # Input packing
//!
//! A module with `I` declared inputs and `C` channels receives a flat
//! buffer of length `I * C` laid out channel-major, input-minor:
//! `buffer[i + c * I]` holds channel `c` of source `i`.  Sources are
//! observed in exactly the order given to `set_sources`, `connect` or
//! `chain`.  A module with no inputs receives the engine's external
//! input frame instead.

use crate::constant::Constant;
use crate::module::{MView, ModuleKind};
use crate::sample::Sample;
use vstd::arithmetic::div_mod::lemma_fundamental_div_mod_converse;
use vstd::prelude::*;

verus! {

/// The mathematical states of a node sequence.
pub open spec fn mviews(nodes: Seq<ModuleKind>) -> Seq<MView> {
    nodes.map_values(|m: ModuleKind| m@)
}

/// The per-node ordered source lists, as mathematical sequences.
pub open spec fn srcs_view(sv: Seq<Vec<usize>>) -> Seq<Seq<usize>> {
    sv.map_values(|v: Vec<usize>| v@)
}

/// Every edge points at an existing node.
pub open spec fn edges_ok(srcs: Seq<Seq<usize>>, n: nat) -> bool {
    forall|i: int, k: int|
        0 <= i < srcs.len() && 0 <= k < srcs[i].len() ==> (#[trigger] srcs[i][k]) < n
}

/// Every entry of the order is an existing node.
pub open spec fn order_nodes_ok(order: Seq<usize>, n: nat) -> bool {
    forall|p: int| 0 <= p < order.len() ==> (#[trigger] order[p]) < n
}

/// No node appears twice.
pub open spec fn distinct_seq(order: Seq<usize>) -> bool {
    forall|p: int, q: int| 0 <= p < q < order.len() ==> order[p] != order[q]
}

/// Source `k` of the node at position `p` appears earlier in the order.
pub open spec fn respects_at(srcs: Seq<Seq<usize>>, order: Seq<usize>, p: int, k: int) -> bool {
    exists|q: int| 0 <= q < p && order[q] == srcs[order[p] as int][k]
}

/// No node appears before any of its sources: the defining property of
/// a topological order.
pub open spec fn respects_sources(srcs: Seq<Seq<usize>>, order: Seq<usize>) -> bool {
    forall|p: int, k: int|
        0 <= p < order.len() && 0 <= k < srcs[order[p] as int].len()
            ==> #[trigger] respects_at(srcs, order, p, k)
}

/// A valid linearization of (a subset of) the graph.
pub open spec fn valid_order(srcs: Seq<Seq<usize>>, order: Seq<usize>, n: nat) -> bool {
    &&& order_nodes_ok(order, n)
    &&& distinct_seq(order)
    &&& respects_sources(srcs, order)
}

/// A valid linearization covering the whole graph; one exists exactly
/// when the graph is acyclic.
pub open spec fn complete_order(srcs: Seq<Seq<usize>>, order: Seq<usize>, n: nat) -> bool {
    valid_order(srcs, order, n) && order.len() == n
}

/// The graph admits a topological order covering every node: the
/// defining property of an acyclic graph.
pub open spec fn acyclic(srcs: Seq<Seq<usize>>, n: nat) -> bool {
    exists|o: Seq<usize>| complete_order(srcs, o, n)
}

/// Node `x` cannot be placed yet: one of its sources is unplaced.
pub open spec fn stalled_at(srcs: Seq<Seq<usize>>, placed: Seq<bool>, x: int) -> bool {
    exists|k: int| 0 <= k < srcs[x].len() && !placed[srcs[x][k] as int]
}

/// The packed input buffer for a sink with source list `srcs`:
/// `buffer[i + c * I]` is channel `c` of source `i`.
pub open spec fn pack_spec(nodes: Seq<MView>, srcs: Seq<usize>, cc: nat) -> Seq<Sample> {
    let ii = srcs.len() as int;
    Seq::new((srcs.len() * cc) as nat, |j: int| nodes[srcs[j % ii] as int].out_spec()[j / ii])
}

/// One node advanced one frame within the node sequence.  A sink whose
/// stored source count disagrees with its declared input count is
/// skipped.
pub open spec fn node_stepped(
    nodes: Seq<MView>,
    srcs: Seq<Seq<usize>>,
    i: int,
    ext: Seq<Sample>,
    cc: nat,
) -> Seq<MView> {
    let m = nodes[i];
    if m.inputs_spec() == 0 {
        nodes.update(i, m.step_spec(ext))
    } else if srcs[i].len() == m.inputs_spec() {
        nodes.update(i, m.step_spec(pack_spec(nodes, srcs[i], cc)))
    } else {
        nodes
    }
}

/// The whole graph advanced one frame: every node of `order` stepped in
/// sequence, each reading the outputs its sources have at its turn.
pub open spec fn run_order(
    nodes: Seq<MView>,
    srcs: Seq<Seq<usize>>,
    order: Seq<usize>,
    ext: Seq<Sample>,
    cc: nat,
) -> Seq<MView>
    decreases order.len(),
{
    if order.len() == 0 {
        nodes
    } else {
        node_stepped(
            run_order(nodes, srcs, order.drop_last(), ext, cc),
            srcs,
            order.last() as int,
            ext,
            cc,
        )
    }
}

/// `list` chained left to right on top of `srcs`: each element of the
/// list installs its predecessor as its single source.
pub open spec fn chained_upto(srcs: Seq<Seq<usize>>, list: Seq<usize>, upto: int) -> Seq<
    Seq<usize>,
>
    decreases upto,
{
    if upto <= 1 {
        srcs
    } else {
        chained_upto(srcs, list, upto - 1).update(list[upto - 1] as int, seq![list[upto - 2]])
    }
}

pub open spec fn chained(srcs: Seq<Seq<usize>>, list: Seq<usize>) -> Seq<Seq<usize>> {
    chained_upto(srcs, list, list.len() as int)
}

/// Number of `true` entries.
pub open spec fn count_true(s: Seq<bool>) -> nat
    decreases s.len(),
{
    if s.len() == 0 {
        0
    } else {
        count_true(s.drop_last()) + if s.last() {
            1nat
        } else {
            0nat
        }
    }
}

proof fn lemma_count_true_le_len(s: Seq<bool>)
    ensures
        count_true(s) <= s.len(),
    decreases s.len(),
{
    if s.len() > 0 {
        lemma_count_true_le_len(s.drop_last());
    }
}

proof fn lemma_count_true_zeros(s: Seq<bool>)
    requires
        forall|i: int| 0 <= i < s.len() ==> !s[i],
    ensures
        count_true(s) == 0,
    decreases s.len(),
{
    if s.len() > 0 {
        lemma_count_true_zeros(s.drop_last());
    }
}

proof fn lemma_count_true_update(s: Seq<bool>, i: int)
    requires
        0 <= i < s.len(),
        !s[i],
    ensures
        count_true(s.update(i, true)) == count_true(s) + 1,
    decreases s.len(),
{
    if i == s.len() - 1 {
        assert(s.update(i, true).drop_last() =~= s.drop_last());
    } else {
        assert(s.update(i, true).drop_last() =~= s.drop_last().update(i, true));
        lemma_count_true_update(s.drop_last(), i);
    }
}

proof fn lemma_count_true_missing(s: Seq<bool>)
    requires
        count_true(s) < s.len(),
    ensures
        exists|i: int| 0 <= i < s.len() && !s[i],
    decreases s.len(),
{
    if s.last() {
        lemma_count_true_missing(s.drop_last());
        let i = choose|i: int| 0 <= i < s.len() - 1 && !s.drop_last()[i];
        assert(!s[i]);
    } else {
        assert(!s[s.len() - 1]);
    }
}

/// Every node occurs in a complete order: `n` distinct in-range values
/// fill the range `[0, n)`.
proof fn lemma_complete_onto(o: Seq<usize>, n: nat, x: usize)
    requires
        order_nodes_ok(o, n),
        distinct_seq(o),
        o.len() == n,
        (x as nat) < n,
    ensures
        o.contains(x),
{
    broadcast use vstd::set::group_set_axioms;

    let si = o.map_values(|v: usize| v as int);
    assert(si.no_duplicates()) by {
        assert forall|i: int, j: int|
            0 <= i < si.len() && 0 <= j < si.len() && i != j implies si[i] != si[j] by {
            if i < j {
                assert(o[i] != o[j]);
            } else {
                assert(o[j] != o[i]);
            }
        }
    }
    si.unique_seq_to_set();
    let rng = vstd::set_lib::set_int_range(0, n as int);
    vstd::set_lib::lemma_int_range(0, n as int);
    if !o.contains(x) {
        assert(!si.to_set().contains(x as int)) by {
            if si.to_set().contains(x as int) {
                let idx = choose|idx: int| 0 <= idx < si.len() && si[idx] == x as int;
                assert(o[idx] == x);
            }
        }
        let small = rng.remove(x as int);
        assert(si.to_set().subset_of(small)) by {
            assert forall|a: int| si.to_set().contains(a) implies small.contains(a) by {
                let idx = choose|idx: int| 0 <= idx < si.len() && si[idx] == a;
                assert((o[idx]) < n);
            }
        }
        assert(rng.contains(x as int));
        assert(small.len() == n - 1);
        vstd::set_lib::lemma_len_subset(si.to_set(), small);
        assert(si.to_set().len() == n);
        assert(false);
    }
}

/// The first position at or after `i` holding an unplaced node.
proof fn lemma_first_unplaced(o: Seq<usize>, placed: Seq<bool>, i: int, n: nat) -> (p: int)
    requires
        0 <= i <= o.len(),
        placed.len() == n,
        order_nodes_ok(o, n),
        exists|t: int| i <= t < o.len() && !placed[o[t] as int],
    ensures
        i <= p < o.len(),
        !placed[o[p] as int],
        forall|q: int| i <= q < p ==> placed[#[trigger] o[q] as int],
    decreases o.len() - i,
{
    let t0 = choose|t: int| i <= t < o.len() && !placed[o[t] as int];
    if !placed[o[i] as int] {
        i
    } else {
        assert(t0 != i);
        lemma_first_unplaced(o, placed, i + 1, n)
    }
}

/// When every unplaced node waits on an unplaced source and at least
/// one node is unplaced, no complete linearization can exist: its
/// earliest unplaced entry would need an unplaced source before it.
proof fn lemma_stalled_refutes_complete(
    srcs: Seq<Seq<usize>>,
    placed: Seq<bool>,
    o: Seq<usize>,
    n: nat,
)
    requires
        n <= usize::MAX,
        placed.len() == n,
        srcs.len() == n,
        edges_ok(srcs, n),
        exists|x: int| 0 <= x < n && !placed[x],
        forall|x: int| 0 <= x < n ==> placed[x] || stalled_at(srcs, placed, x),
    ensures
        !complete_order(srcs, o, n),
{
    if complete_order(srcs, o, n) {
        let x0 = choose|x: int| 0 <= x < n && !placed[x];
        lemma_complete_onto(o, n, x0 as usize);
        let t0 = choose|t: int| 0 <= t < o.len() && o[t] == x0 as usize;
        assert(!placed[o[t0] as int]);
        let p = lemma_first_unplaced(o, placed, 0, n);
        let x = o[p];
        assert(!placed[x as int]);
        assert(stalled_at(srcs, placed, x as int));
        let k = choose|k: int|
            0 <= k < srcs[x as int].len() && !placed[srcs[x as int][k] as int];
        assert(respects_at(srcs, o, p, k));
        let q = choose|q: int| 0 <= q < p && o[q] == srcs[o[p] as int][k];
        assert(placed[o[q] as int]);
        assert(false);
    }
}

/// Structure which manages a network of modules.
pub struct AudioGraph {
    /// The modules, indexed by the stable handles `add_node` returns.
    pub nodes: Vec<ModuleKind>,
    /// `sources[i]` is the ordered list of node handles feeding node
    /// `i`; this order is the packing order.
    pub sources: Vec<Vec<usize>>,
    /// Cached topological order, refreshed after every connection
    /// change; empty when the graph has a cycle.
    pub order: Vec<usize>,
    /// Channel count fixed at creation.
    pub channels: u8,
    /// How many external inputs the graph expects.
    pub inputs: u8,
    /// Shared packing buffer, grown as nodes are added so that every
    /// node's `inputs * channels` samples fit.
    pub input: Vec<Sample>,
    /// Output frame of the graph's terminal module.
    pub output: Vec<Sample>,
}

impl AudioGraph {
    /// Structural consistency: edges point at nodes, every module is
    /// internally consistent with the graph's channel count, and the
    /// packing buffer is large enough for every node.
    pub open spec fn wf_core(self) -> bool {
        &&& self.sources@.len() == self.nodes@.len()
        &&& edges_ok(srcs_view(self.sources@), self.nodes@.len())
        &&& forall|i: int|
            0 <= i < self.nodes@.len() ==> (#[trigger] self.nodes@[i])@.wf_spec()
                && self.nodes@[i]@.channels_spec() == self.channels as nat
                && self.nodes@[i]@.inputs_spec() * self.channels as nat <= self.input@.len()
        &&& self.output@.len() == self.channels as nat
    }

    /// `wf_core`, and the cached order is a valid linearization.
    pub open spec fn wf(self) -> bool {
        &&& self.wf_core()
        &&& valid_order(srcs_view(self.sources@), self.order@, self.nodes@.len())
    }

    /// The cached order is a fresh topological sort: a complete valid
    /// linearization whenever one exists, and empty otherwise — so the
    /// order is empty exactly when the graph has a cycle (or no nodes).
    pub open spec fn order_fresh(self) -> bool {
        &&& valid_order(srcs_view(self.sources@), self.order@, self.nodes@.len())
        &&& (self.order@.len() == self.nodes@.len() || self.order@.len() == 0)
        &&& (acyclic(srcs_view(self.sources@), self.nodes@.len()) ==> self.order@.len()
            == self.nodes@.len())
    }

    pub fn new(channels: u8, inputs: u8) -> (r: AudioGraph)
        ensures
            r.wf(),
            r.nodes@.len() == 0,
            r.order@.len() == 0,
            r.channels == channels,
            r.inputs == inputs,
            r.output@ == Seq::new(channels as nat, |c: int| 0i64),
    {
        let r = AudioGraph {
            nodes: Vec::new(),
            sources: Vec::new(),
            order: Vec::new(),
            channels,
            inputs,
            input: Vec::new(),
            output: vec![0i64; channels as usize],
        };
        proof {
            assert(r.output@ =~= Seq::new(channels as nat, |c: int| 0i64));
        }
        r
    }

    /// The graph's output frame: a copy of the terminal module's
    /// output after each `sample`.
    pub fn output(&self) -> (r: &Vec<Sample>)
        ensures
            r@ == self.output@,
    {
        &self.output
    }

    pub fn node(&self, idx: usize) -> (r: &ModuleKind)
        requires
            idx < self.nodes@.len(),
        ensures
            *r == self.nodes@[idx as int],
    {
        &self.nodes[idx]
    }

    /// Add a node and return its stable handle.  Does not refresh the
    /// topological order.
    pub fn add_node(&mut self, n: ModuleKind) -> (idx: usize)
        requires
            old(self).wf(),
            n@.wf_spec(),
            n@.channels_spec() == old(self).channels as nat,
        ensures
            final(self).wf(),
            idx as int == old(self).nodes@.len(),
            final(self).nodes@ == old(self).nodes@.push(n),
            srcs_view(final(self).sources@) == srcs_view(old(self).sources@).push(Seq::<usize>::empty()),
            final(self).order@ == old(self).order@,
            final(self).channels == old(self).channels,
            final(self).inputs == old(self).inputs,
            final(self).output@ == old(self).output@,
    {
        let idx = self.nodes.len();
        let node_inputs = n.inputs();
        assert((node_inputs as usize) * (self.channels as usize) <= 255 * 255)
            by (nonlinear_arith)
            requires
                node_inputs as usize <= 255,
                self.channels as usize <= 255,
        ;
        let need = (node_inputs as usize) * (self.channels as usize);
        if self.input.len() < need {
            self.input.resize(need, 0);
        }
        self.nodes.push(n);
        self.sources.push(Vec::new());
        proof {
            assert(srcs_view(self.sources@) =~= srcs_view(old(self).sources@).push(
                Seq::<usize>::empty(),
            ));
            assert forall|i: int, k: int|
                0 <= i < srcs_view(self.sources@).len() && 0 <= k < srcs_view(
                    self.sources@,
                )[i].len() implies (#[trigger] srcs_view(self.sources@)[i][k])
                < self.nodes@.len() by {
                if i < old(self).nodes@.len() {
                    assert(srcs_view(self.sources@)[i] == srcs_view(old(self).sources@)[i]);
                }
            }
            assert forall|p: int, k: int|
                0 <= p < self.order@.len() && 0 <= k < srcs_view(
                    self.sources@,
                )[self.order@[p] as int].len() implies #[trigger] respects_at(
                srcs_view(self.sources@),
                self.order@,
                p,
                k,
            ) by {
                let nd = self.order@[p] as int;
                assert(order_nodes_ok(self.order@, old(self).nodes@.len()));
                assert((self.order@[p]) < old(self).nodes@.len());
                assert(srcs_view(self.sources@)[nd] == srcs_view(old(self).sources@)[nd]);
                assert(respects_at(srcs_view(old(self).sources@), self.order@, p, k));
                let q = choose|q: int|
                    0 <= q < p && self.order@[q] == srcs_view(old(self).sources@)[nd][k];
                assert(0 <= q < p && self.order@[q] == srcs_view(self.sources@)[nd][k]);
            }
        }
        idx
    }

    /// Remove all incoming connections of `sink` and install `list` as
    /// its ordered sources, then refresh the topological order.  The
    /// sampler packs sources in exactly this order.
    pub fn set_sources(&mut self, sink: usize, list: &[usize])
        requires
            old(self).wf(),
            sink < old(self).nodes@.len(),
            forall|k: int| 0 <= k < list@.len() ==> (#[trigger] list@[k]) < old(self).nodes@.len(),
        ensures
            final(self).wf(),
            final(self).order_fresh(),
            srcs_view(final(self).sources@) == srcs_view(old(self).sources@).update(sink as int, list@),
            final(self).nodes@ == old(self).nodes@,
            final(self).channels == old(self).channels,
            final(self).inputs == old(self).inputs,
            final(self).output@ == old(self).output@,
    {
        let mut v: Vec<usize> = Vec::new();
        let mut k: usize = 0;
        while k < list.len()
            invariant
                k <= list@.len(),
                v@ == list@.take(k as int),
            decreases list@.len() - k,
        {
            v.push(list[k]);
            proof {
                assert(v@ =~= list@.take(k as int + 1));
            }
            k = k + 1;
        }
        proof {
            assert(v@ =~= list@);
        }
        self.sources.set(sink, v);
        proof {
            assert(srcs_view(self.sources@) =~= srcs_view(old(self).sources@).update(
                sink as int,
                list@,
            ));
        }
        self.update_order();
    }

    /// Like `set_sources`, but the sampler observes the given sources
    /// in reverse order.
    pub fn set_sources_rev(&mut self, sink: usize, list: &[usize])
        requires
            old(self).wf(),
            sink < old(self).nodes@.len(),
            forall|k: int| 0 <= k < list@.len() ==> (#[trigger] list@[k]) < old(self).nodes@.len(),
        ensures
            final(self).wf(),
            final(self).order_fresh(),
            srcs_view(final(self).sources@) == srcs_view(old(self).sources@).update(
                sink as int,
                list@.reverse(),
            ),
            final(self).nodes@ == old(self).nodes@,
            final(self).channels == old(self).channels,
            final(self).inputs == old(self).inputs,
            final(self).output@ == old(self).output@,
    {
        let mut v: Vec<usize> = Vec::new();
        let mut k: usize = list.len();
        while k > 0
            invariant
                k <= list@.len(),
                v@.len() == list@.len() - k,
                forall|t: int| 0 <= t < v@.len() ==> v@[t] == list@[list@.len() - 1 - t],
            decreases k,
        {
            k = k - 1;
            v.push(list[k]);
        }
        proof {
            assert(v@ =~= list@.reverse());
        }
        self.sources.set(sink, v);
        proof {
            assert(srcs_view(self.sources@) =~= srcs_view(old(self).sources@).update(
                sink as int,
                list@.reverse(),
            ));
        }
        self.update_order();
    }

    /// Set node `a` as the single source of node `b`.
    pub fn connect(&mut self, a: usize, b: usize)
        requires
            old(self).wf(),
            a < old(self).nodes@.len(),
            b < old(self).nodes@.len(),
        ensures
            final(self).wf(),
            final(self).order_fresh(),
            srcs_view(final(self).sources@) == srcs_view(old(self).sources@).update(b as int, seq![a]),
            final(self).nodes@ == old(self).nodes@,
            final(self).channels == old(self).channels,
            final(self).inputs == old(self).inputs,
            final(self).output@ == old(self).output@,
    {
        let mut lst: Vec<usize> = Vec::new();
        lst.push(a);
        self.set_sources(b, lst.as_slice());
        proof {
            assert(lst@ =~= seq![a]);
        }
    }

    /// Connect nodes in a chain, left to right: each node of the list
    /// becomes the single source of the next.
    pub fn chain(&mut self, list: &[usize])
        requires
            old(self).wf(),
            forall|k: int| 0 <= k < list@.len() ==> (#[trigger] list@[k]) < old(self).nodes@.len(),
        ensures
            final(self).wf(),
            final(self).order_fresh(),
            srcs_view(final(self).sources@) == chained(srcs_view(old(self).sources@), list@),
            final(self).nodes@ == old(self).nodes@,
            final(self).channels == old(self).channels,
            final(self).inputs == old(self).inputs,
            final(self).output@ == old(self).output@,
    {
        let mut j: usize = 1;
        while j < list.len()
            invariant
                1 <= j,
                list@.len() >= 1 ==> j <= list@.len(),
                list@.len() < 1 ==> j == 1,
                self.wf_core(),
                forall|k: int| 0 <= k < list@.len() ==> (#[trigger] list@[k]) < self.nodes@.len(),
                srcs_view(self.sources@) == chained_upto(
                    srcs_view(old(self).sources@),
                    list@,
                    j as int,
                ),
                self.nodes@ == old(self).nodes@,
                self.sources@.len() == self.nodes@.len(),
                self.channels == old(self).channels,
                self.inputs == old(self).inputs,
                self.output@ == old(self).output@,
                self.input@ == old(self).input@,
            decreases list@.len() - j,
        {
            let source = list[j - 1];
            let sink = list[j];
            let mut v: Vec<usize> = Vec::new();
            v.push(source);
            self.sources.set(sink, v);
            proof {
                assert(v@ =~= seq![list@[j as int - 1]]);
                assert(srcs_view(self.sources@) =~= chained_upto(
                    srcs_view(old(self).sources@),
                    list@,
                    j as int + 1,
                ));
            }
            j = j + 1;
        }
        proof {
            if list@.len() < 1 {
                assert(chained_upto(srcs_view(old(self).sources@), list@, 1) == chained(
                    srcs_view(old(self).sources@),
                    list@,
                ));
            } else {
                assert(j as int == list@.len() as int);
            }
            assert(srcs_view(self.sources@) == chained_upto(
                srcs_view(old(self).sources@),
                list@,
                j as int,
            ));
            assert(chained(srcs_view(old(self).sources@), list@) == chained_upto(
                srcs_view(old(self).sources@),
                list@,
                list@.len() as int,
            ));
            assert(srcs_view(self.sources@) == chained(srcs_view(old(self).sources@), list@));
        }
        self.update_order();
    }

    /// Remove all nodes and edges.
    pub fn clear(&mut self)
        requires
            old(self).wf(),
        ensures
            final(self).wf(),
            final(self).nodes@.len() == 0,
            final(self).order@.len() == 0,
            final(self).channels == old(self).channels,
            final(self).inputs == old(self).inputs,
            final(self).output@ == old(self).output@,
    {
        self.order.clear();
        self.nodes.clear();
        self.sources.clear();
    }

    /// Recompute the cached traversal order: a deterministic
    /// topological sort, ties broken by insertion index.  Produces a
    /// complete valid linearization, or the empty order when the graph
    /// has a cycle.
    pub fn update_order(&mut self)
        requires
            old(self).wf_core(),
        ensures
            final(self).wf(),
            final(self).order_fresh(),
            final(self).nodes@ == old(self).nodes@,
            final(self).sources@ == old(self).sources@,
            final(self).channels == old(self).channels,
            final(self).inputs == old(self).inputs,
            final(self).output@ == old(self).output@,
            final(self).input@ == old(self).input@,
    {
        let n = self.nodes.len();
        let mut placed: Vec<bool> = vec![false; n];
        let mut ord: Vec<usize> = Vec::new();
        proof {
            lemma_count_true_zeros(placed@);
        }
        loop
            invariant
                self.sources@.len() == n,
                n == self.nodes@.len(),
                edges_ok(srcs_view(self.sources@), n as nat),
                placed@.len() == n,
                ord@.len() == count_true(placed@),
                ord@.len() <= n,
                valid_order(srcs_view(self.sources@), ord@, n as nat),
                forall|x: int| 0 <= x < n ==> (placed@[x] <==> ord@.contains(x as usize)),
            ensures
                valid_order(srcs_view(self.sources@), ord@, n as nat),
                ord@.len() <= n,
                placed@.len() == n,
                ord@.len() == count_true(placed@),
                ord@.len() == n || forall|x: int|
                    0 <= x < n ==> placed@[x] || stalled_at(
                        srcs_view(self.sources@),
                        placed@,
                        x,
                    ),
            decreases n - ord@.len(),
        {
            let ghost start_len = ord@.len();
            let mut progress: bool = false;
            let mut i: usize = 0;
            while i < n
                invariant
                    i <= n,
                    self.sources@.len() == n,
                    n == self.nodes@.len(),
                    edges_ok(srcs_view(self.sources@), n as nat),
                    placed@.len() == n,
                    ord@.len() == count_true(placed@),
                    ord@.len() <= n,
                    valid_order(srcs_view(self.sources@), ord@, n as nat),
                    forall|x: int| 0 <= x < n ==> (placed@[x] <==> ord@.contains(x as usize)),
                    progress ==> ord@.len() > start_len,
                    progress || ord@.len() == start_len,
                    !progress ==> forall|x: int|
                        0 <= x < i ==> placed@[x] || stalled_at(
                            srcs_view(self.sources@),
                            placed@,
                            x,
                        ),
                decreases n - i,
            {
                if !placed[i] {
                    let mut all_placed: bool = true;
                    let slen = self.sources[i].len();
                    proof {
                        assert(srcs_view(self.sources@)[i as int] == self.sources@[i as int]@);
                    }
                    let mut k: usize = 0;
                    while k < slen
                        invariant
                            i < n,
                            self.sources@.len() == n,
                            edges_ok(srcs_view(self.sources@), n as nat),
                            placed@.len() == n,
                            slen == self.sources@[i as int]@.len(),
                            k <= slen,
                            all_placed ==> forall|t: int|
                                0 <= t < k ==> placed@[#[trigger] self.sources@[i as int]@[t] as int],
                            !all_placed ==> stalled_at(
                                srcs_view(self.sources@),
                                placed@,
                                i as int,
                            ),
                        decreases slen - k,
                    {
                        let s = self.sources[i][k];
                        proof {
                            assert(srcs_view(self.sources@)[i as int][k as int] == s);
                        }
                        if !placed[s] {
                            all_placed = false;
                            proof {
                                assert(0 <= k < srcs_view(self.sources@)[i as int].len()
                                    && !placed@[srcs_view(self.sources@)[i as int][k as int] as int]);
                            }
                        }
                        k = k + 1;
                    }
                    if all_placed {
                        proof {
                            let p = ord@.len() as int;
                            assert(srcs_view(self.sources@)[i as int] == self.sources@[i as int]@);
                            lemma_count_true_update(placed@, i as int);
                            lemma_count_true_le_len(placed@.update(i as int, true));
                            assert forall|pp: int, kk: int|
                                0 <= pp < ord@.push(i).len() && 0 <= kk < srcs_view(
                                    self.sources@,
                                )[ord@.push(i)[pp] as int].len() implies #[trigger] respects_at(
                                srcs_view(self.sources@),
                                ord@.push(i),
                                pp,
                                kk,
                            ) by {
                                if pp < p {
                                    assert(ord@.push(i)[pp] == ord@[pp]);
                                    assert(respects_at(srcs_view(self.sources@), ord@, pp, kk));
                                    let q = choose|q: int|
                                        0 <= q < pp && ord@[q] == srcs_view(
                                            self.sources@,
                                        )[ord@[pp] as int][kk];
                                    assert(0 <= q < pp && ord@.push(i)[q] == srcs_view(
                                        self.sources@,
                                    )[ord@.push(i)[pp] as int][kk]);
                                } else {
                                    assert(pp == p && ord@.push(i)[pp] == i);
                                    let s = srcs_view(self.sources@)[i as int][kk];
                                    assert(s == self.sources@[i as int]@[kk]);
                                    assert((s as int) < n);
                                    assert(placed@[s as int]);
                                    assert(ord@.contains(s));
                                    let q = choose|q: int| 0 <= q < ord@.len() && ord@[q] == s;
                                    assert(0 <= q < pp && ord@.push(i)[q] == srcs_view(
                                        self.sources@,
                                    )[ord@.push(i)[pp] as int][kk]);
                                }
                            }
                            assert forall|x: int| 0 <= x < n implies (placed@.update(i as int, true)[x]
                                <==> ord@.push(i).contains(x as usize)) by {
                                if x == i as int {
                                    assert(ord@.push(i)[ord@.len() as int] == i);
                                } else {
                                    if placed@[x] {
                                        let q = choose|q: int|
                                            0 <= q < ord@.len() && ord@[q] == x as usize;
                                        assert(ord@.push(i)[q] == x as usize);
                                    } else {
                                        assert forall|q: int|
                                            0 <= q < ord@.push(i).len() implies ord@.push(i)[q]
                                            != x as usize by {
                                            if q < ord@.len() {
                                                assert(!ord@.contains(x as usize));
                                            }
                                        }
                                    }
                                }
                            }
                            assert(!ord@.contains(i));
                            assert forall|pp: int, qq: int|
                                0 <= pp < qq < ord@.push(i).len() implies ord@.push(i)[pp]
                                != ord@.push(i)[qq] by {
                                if qq == ord@.len() as int {
                                    if ord@[pp] == i {
                                        assert(ord@.contains(i));
                                    }
                                }
                            }
                            assert forall|pz: int|
                                0 <= pz < ord@.push(i).len() implies (#[trigger] ord@.push(
                                    i,
                                )[pz]) < n by {
                                if pz < p {
                                    assert((ord@[pz]) < n);
                                }
                            }
                        }
                        ord.push(i);
                        placed.set(i, true);
                        progress = true;
                    }
                }
                i = i + 1;
            }
            if !progress {
                break;
            }
        }
        if ord.len() == n {
            self.order = ord;
        } else {
            proof {
                let srcs = srcs_view(self.sources@);
                lemma_count_true_missing(placed@);
                assert forall|o: Seq<usize>| !complete_order(srcs, o, n as nat) by {
                    if complete_order(srcs, o, n as nat) {
                        lemma_stalled_refutes_complete(srcs, placed@, o, n as nat);
                    }
                }
                assert(!acyclic(srcs, n as nat));
            }
            self.order = Vec::new();
            proof {
                assert(valid_order(srcs_view(self.sources@), Seq::<usize>::empty(), n as nat));
            }
        }
    }

    /// Advance the whole graph one audio frame: walk the cached order,
    /// pack each module's inputs from its sources' current outputs (or
    /// hand it the external frame), sample it, and copy the terminal
    /// module's output into the graph's output frame.  With an empty
    /// order the output frame is untouched.
    pub fn sample(&mut self, input: &[Sample])
        requires
            old(self).wf(),
        ensures
            final(self).wf(),
            mviews(final(self).nodes@) == run_order(
                mviews(old(self).nodes@),
                srcs_view(old(self).sources@),
                old(self).order@,
                input@,
                old(self).channels as nat,
            ),
            final(self).sources@ == old(self).sources@,
            final(self).order@ == old(self).order@,
            final(self).channels == old(self).channels,
            final(self).inputs == old(self).inputs,
            old(self).order@.len() > 0 ==> final(self).output@ == mviews(final(self).nodes@)[old(
                self,
            ).order@.last() as int].out_spec(),
            old(self).order@.len() == 0 ==> final(self).output@ == old(self).output@,
    {
        let ghost nodes0 = mviews(self.nodes@);
        let ghost srcs0 = srcs_view(self.sources@);
        let ghost ord0 = self.order@;
        let ghost cc0 = self.channels as nat;
        let n_ord = self.order.len();
        let mut j: usize = 0;
        while j < n_ord
            invariant
                j <= n_ord,
                n_ord == ord0.len(),
                self.order@ == ord0,
                self.sources@ == old(self).sources@,
                srcs0 == srcs_view(self.sources@),
                self.channels == old(self).channels,
                cc0 == self.channels as nat,
                self.inputs == old(self).inputs,
                self.output@ == old(self).output@,
                self.wf_core(),
                self.nodes@.len() == old(self).nodes@.len(),
                valid_order(srcs0, ord0, self.nodes@.len()),
                mviews(self.nodes@) == run_order(nodes0, srcs0, ord0.take(j as int), input@, cc0),
            decreases n_ord - j,
        {
            let idx = self.order[j];
            let ghost nodes_pre = mviews(self.nodes@);
            proof {
                assert(ord0.take(j as int + 1).drop_last() =~= ord0.take(j as int));
                assert(ord0.take(j as int + 1).last() == ord0[j as int]);
            }
            let node_inputs = (&self.nodes[idx]).inputs();
            if node_inputs == 0 {
                proof {
                    assert(nodes_pre[idx as int] == self.nodes@[idx as int]@);
                }
                let mut m = ModuleKind::Constant(Constant { values: Vec::new() });
                core::mem::swap(&mut m, &mut self.nodes[idx]);
                proof {
                    assert(m@ == nodes_pre[idx as int]);
                    assert(m@.inputs_spec() == 0);
                }
                let m2 = m.sample(input);
                proof {
                    m@.lemma_step_stable(input@);
                }
                self.nodes.set(idx, m2);
                proof {
                    assert(mviews(self.nodes@) =~= nodes_pre.update(idx as int, m2@));
                    assert(mviews(self.nodes@) == node_stepped(
                        nodes_pre,
                        srcs0,
                        idx as int,
                        input@,
                        cc0,
                    ));
                }
            } else {
                let slen = self.sources[idx].len();
                proof {
                    assert(srcs0[idx as int] == self.sources@[idx as int]@);
                }
                if slen == node_inputs as usize {
                    let ii = node_inputs as usize;
                    let cc = self.channels as usize;
                    assert(ii * cc <= 255 * 255) by (nonlinear_arith)
                        requires
                            ii <= 255,
                            cc <= 255,
                    ;
                    let need = ii * cc;
                    let ghost packed = pack_spec(nodes_pre, srcs0[idx as int], cc0);
                    let mut t: usize = 0;
                    let mut c: usize = 0;
                    while c < cc
                        invariant
                            idx < self.nodes@.len(),
                            idx < self.sources@.len(),
                            c <= cc,
                            t == c * ii,
                            ii >= 1,
                            need == ii * cc,
                            ii as nat == nodes_pre[idx as int].inputs_spec(),
                            self.wf_core(),
                            self.nodes@.len() == old(self).nodes@.len(),
                            nodes_pre == mviews(self.nodes@),
                            srcs0 == srcs_view(self.sources@),
                            self.sources@ == old(self).sources@,
                            self.order@ == ord0,
                            self.channels == old(self).channels,
                            cc == self.channels as usize,
                            cc0 == cc as nat,
                            self.inputs == old(self).inputs,
                            self.output@ == old(self).output@,
                            slen == srcs0[idx as int].len(),
                            slen == ii,
                            need <= self.input@.len(),
                            packed == pack_spec(nodes_pre, srcs0[idx as int], cc0),
                            packed.len() == need,
                            forall|u: int| 0 <= u < t ==> self.input@[u] == packed[u],
                        decreases cc - c,
                    {
                        let mut si: usize = 0;
                        while si < ii
                            invariant
                                idx < self.nodes@.len(),
                                idx < self.sources@.len(),
                                c < cc,
                                si <= ii,
                                t == c * ii + si,
                                ii >= 1,
                                need == ii * cc,
                                self.wf_core(),
                                self.nodes@.len() == old(self).nodes@.len(),
                                nodes_pre == mviews(self.nodes@),
                                srcs0 == srcs_view(self.sources@),
                                self.sources@ == old(self).sources@,
                                self.order@ == ord0,
                                self.channels == old(self).channels,
                                cc == self.channels as usize,
                                cc0 == cc as nat,
                                self.inputs == old(self).inputs,
                                self.output@ == old(self).output@,
                                slen == srcs0[idx as int].len(),
                                slen == ii,
                                need <= self.input@.len(),
                                packed == pack_spec(nodes_pre, srcs0[idx as int], cc0),
                                packed.len() == need,
                                forall|u: int| 0 <= u < t ==> self.input@[u] == packed[u],
                            decreases ii - si,
                        {
                            assert(t < need) by (nonlinear_arith)
                                requires
                                    t == c * ii + si,
                                    need == ii * cc,
                                    0 <= si < ii,
                                    0 <= c < cc,
                            ;
                            let s = self.sources[idx][si];
                            proof {
                                assert(srcs0[idx as int][si as int] == s);
                                assert((s as int) < self.nodes@.len());
                            }
                            let out_ref = (&self.nodes[s]).output();
                            let v = out_ref[c];
                            self.input.set(t, v);
                            proof {
                                lemma_fundamental_div_mod_converse(
                                    t as int,
                                    ii as int,
                                    c as int,
                                    si as int,
                                );
                                assert(packed[t as int] == v);
                            }
                            t = t + 1;
                            si = si + 1;
                        }
                        proof {
                            assert(t == (c + 1) * ii) by (nonlinear_arith)
                                requires
                                    t == c * ii + ii,
                            ;
                        }
                        c = c + 1;
                    }
                    proof {
                        assert(t == need) by (nonlinear_arith)
                            requires
                                t == c * ii,
                                c == cc,
                                need == ii * cc,
                        ;
                        assert(forall|u: int| 0 <= u < need ==> self.input@[u] == packed[u]);
                    }
                    let ghost buf0 = self.input@;
                    proof {
                        assert(nodes_pre[idx as int] == self.nodes@[idx as int]@);
                    }
                    let mut m = ModuleKind::Constant(Constant { values: Vec::new() });
                    core::mem::swap(&mut m, &mut self.nodes[idx]);
                    proof {
                        assert(self.input@ == buf0);
                        assert(m@ == nodes_pre[idx as int]);
                        assert(m@.inputs_spec() == ii as nat);
                        assert(m@.channels_spec() == cc as nat);
                    }
                    let piece: &[Sample] = &self.input.as_slice()[0..need];
                    proof {
                        assert(piece@ == buf0.subrange(0, need as int));
                        assert forall|u: int| 0 <= u < need implies piece@[u] == packed[u] by {
                            assert(piece@[u] == buf0[u]);
                        }
                        assert(piece@ =~= packed);
                    }
                    let m2 = m.sample(piece);
                    proof {
                        m@.lemma_step_stable(packed);
                    }
                    self.nodes.set(idx, m2);
                    proof {
                        assert(mviews(self.nodes@) =~= nodes_pre.update(idx as int, m2@));
                        assert(mviews(self.nodes@) == node_stepped(
                            nodes_pre,
                            srcs0,
                            idx as int,
                            input@,
                            cc0,
                        ));
                    }
                } else {
                    proof {
                        assert(mviews(self.nodes@) == node_stepped(
                            nodes_pre,
                            srcs0,
                            idx as int,
                            input@,
                            cc0,
                        ));
                    }
                }
            }
            j = j + 1;
        }
        proof {
            assert(ord0.take(n_ord as int) =~= ord0);
        }
        if n_ord > 0 {
            let last = self.order[n_ord - 1];
            proof {
                assert(last == ord0.last());
            }
            let cc = self.channels as usize;
            let ghost nodes_done = mviews(self.nodes@);
            let mut c: usize = 0;
            while c < cc
                invariant
                    c <= cc,
                    (last as int) < self.nodes@.len(),
                    cc == self.channels as usize,
                    self.wf_core(),
                    self.nodes@.len() == old(self).nodes@.len(),
                    mviews(self.nodes@) == nodes_done,
                    self.sources@ == old(self).sources@,
                    self.order@ == ord0,
                    self.channels == old(self).channels,
                    self.inputs == old(self).inputs,
                    mviews(self.nodes@)[last as int].out_spec().len() == cc,
                    forall|u: int|
                        0 <= u < c ==> self.output@[u] == mviews(self.nodes@)[last as int].out_spec()[u],
                decreases cc - c,
            {
                let out_ref = (&self.nodes[last]).output();
                let v = out_ref[c];
                self.output.set(c, v);
                c = c + 1;
            }
            proof {
                assert(self.output@ =~= mviews(self.nodes@)[last as int].out_spec());
            }
        }
    }
}

} // verus!
