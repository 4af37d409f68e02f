//! The stack compiler: turns a linear stream of operations over a
//! virtual stack of node handles into a connected graph.  `Connect`
//! pops as many handles as the module declares inputs, adds the module,
//! installs the popped handles as its ordered sources (top of stack
//! last), and pushes the new handle.

use crate::graph::{mviews, srcs_view, AudioGraph};
use crate::module::{MView, ModuleKind};
use vstd::prelude::*;

verus! {

/// One operation of the compiler's virtual machine.
pub enum Op {
    Connect(ModuleKind),
    Pop,
    Swap,
    Dup,
    Rot,
}

/// The mathematical content of an operation.
#[verifier::ext_equal]
pub enum OpView {
    Connect(MView),
    Pop,
    Swap,
    Dup,
    Rot,
}

impl View for Op {
    type V = OpView;

    open spec fn view(&self) -> OpView {
        match self {
            Op::Connect(m) => OpView::Connect(m@),
            Op::Pop => OpView::Pop,
            Op::Swap => OpView::Swap,
            Op::Dup => OpView::Dup,
            Op::Rot => OpView::Rot,
        }
    }
}

pub open spec fn ops_views(s: Seq<Op>) -> Seq<OpView> {
    s.map_values(|o: Op| o@)
}

#[derive(Debug, PartialEq, Eq, Structural)]
pub enum Error {
    /// The compiler lacked operands at the numbered operation.
    StackExhausted(usize),
}

/// The compiler state: the graph's modules, their ordered source lists,
/// and the stack of handles.
#[verifier::ext_equal]
pub struct BuildState {
    pub nodes: Seq<MView>,
    pub srcs: Seq<Seq<usize>>,
    pub stack: Seq<usize>,
}

/// The state after the first `i` operations, or the index of the
/// operation that found too few operands.
pub open spec fn build_spec(ops: Seq<OpView>, i: int) -> Result<BuildState, int>
    decreases i,
{
    if i <= 0 {
        Ok(
            BuildState {
                nodes: Seq::empty(),
                srcs: Seq::empty(),
                stack: Seq::empty(),
            },
        )
    } else {
        match build_spec(ops, i - 1) {
            Err(e) => Err(e),
            Ok(st) => build_op(st, ops[i - 1], i - 1),
        }
    }
}

/// One operation applied to a state.
pub open spec fn build_op(st: BuildState, op: OpView, at: int) -> Result<BuildState, int> {
    match op {
        OpView::Connect(m) => {
            let k = m.inputs_spec() as int;
            if st.stack.len() < k {
                Err(at)
            } else {
                let popped = st.stack.subrange(st.stack.len() - k, st.stack.len() as int);
                Ok(
                    BuildState {
                        nodes: st.nodes.push(m),
                        srcs: st.srcs.push(popped),
                        stack: st.stack.take(st.stack.len() - k).push(st.nodes.len() as usize),
                    },
                )
            }
        },
        OpView::Pop => Ok(
            BuildState {
                stack: if st.stack.len() == 0 {
                    st.stack
                } else {
                    st.stack.drop_last()
                },
                ..st
            },
        ),
        OpView::Dup => if st.stack.len() == 0 {
            Err(at)
        } else {
            Ok(BuildState { stack: st.stack.push(st.stack.last()), ..st })
        },
        OpView::Swap => if st.stack.len() < 2 {
            Err(at)
        } else {
            let l = st.stack.len() as int;
            Ok(
                BuildState {
                    stack: st.stack.update(l - 2, st.stack[l - 1]).update(l - 1, st.stack[l - 2]),
                    ..st
                },
            )
        },
        OpView::Rot => if st.stack.len() < 3 {
            Err(at)
        } else {
            let l = st.stack.len() as int;
            Ok(
                BuildState {
                    stack: st.stack.update(l - 3, st.stack[l - 2]).update(
                        l - 2,
                        st.stack[l - 1],
                    ).update(l - 1, st.stack[l - 3]),
                    ..st
                },
            )
        },
    }
}

/// Every handle a state holds points at an existing node, and every
/// node's stored source count equals its declared input count.
pub open spec fn state_ok(st: BuildState) -> bool {
    &&& st.srcs.len() == st.nodes.len()
    &&& forall|t: int| 0 <= t < st.stack.len() ==> (#[trigger] st.stack[t]) < st.nodes.len()
    &&& forall|i: int|
        0 <= i < st.nodes.len() ==> (#[trigger] st.srcs[i]).len() == st.nodes[i].inputs_spec()
}

/// Build a graph from an operation stream.  On success every node's
/// incoming source count equals its declared input count, and the
/// cached order is a fresh topological sort.
pub fn build_graph(ops: Vec<Op>, channels: u8, inputs: u8) -> (r: Result<AudioGraph, Error>)
    requires
        forall|i: int|
            0 <= i < ops@.len() ==> ((#[trigger] ops@[i])@ matches OpView::Connect(m) ==> m.wf_spec()
                && m.channels_spec() == channels as nat),
    ensures
        match r {
            Ok(g) => {
                &&& g.wf()
                &&& g.order_fresh()
                &&& g.channels == channels
                &&& g.inputs == inputs
                &&& build_spec(ops_views(ops@), ops@.len() as int) matches Ok(st) && mviews(
                    g.nodes@,
                ) == st.nodes && srcs_view(g.sources@) == st.srcs && state_ok(st)
            },
            Err(e) => {
                &&& e matches Error::StackExhausted(i) && build_spec(
                    ops_views(ops@),
                    ops@.len() as int,
                ) == Err::<BuildState, int>(i as int)
            },
        },
{
    let ghost opsv = ops_views(ops@);
    let mut rest = ops;
    let mut graph = AudioGraph::new(channels, inputs);
    let mut stack: Vec<usize> = Vec::new();
    let total = rest.len();
    let mut i: usize = 0;
    while i < total
        invariant
            i <= total,
            rest@.len() == total - i,
            opsv.len() == total,
            opsv == ops_views(ops@),
            total == ops@.len(),
            forall|t: int| 0 <= t < rest@.len() ==> (#[trigger] rest@[t])@ == opsv[i + t],
            forall|t: int|
                0 <= t < rest@.len() ==> ((#[trigger] rest@[t])@ matches OpView::Connect(m)
                    ==> m.wf_spec() && m.channels_spec() == channels as nat),
            graph.wf(),
            graph.order_fresh(),
            graph.channels == channels,
            graph.inputs == inputs,
            build_spec(opsv, i as int) matches Ok(st) && mviews(graph.nodes@) == st.nodes
                && srcs_view(graph.sources@) == st.srcs && stack@ == st.stack && state_ok(st),
        decreases total - i,
    {
        let ghost st_pre = build_spec(opsv, i as int)->Ok_0;
        let ghost ops_pre = rest@;
        let op = rest.remove(0);
        proof {
            assert(op@ == opsv[i as int]);
            assert forall|t: int|
                0 <= t < rest@.len() implies (#[trigger] rest@[t])@ == opsv[i + 1 + t] by {
                assert(rest@[t] == ops_pre[t + 1]);
            }
        }
        match op {
            Op::Connect(node) => {
                let k = node.inputs() as usize;
                if stack.len() < k {
                    proof {
                        assert(build_spec(opsv, i as int + 1) == Err::<BuildState, int>(i as int));
                        lemma_build_err_persists(opsv, i as int + 1, total as int);
                    }
                    return Err(Error::StackExhausted(i));
                }
                let idx = graph.add_node(node);
                let start = stack.len() - k;
                let mut popped: Vec<usize> = Vec::new();
                let mut t: usize = 0;
                while t < k
                    invariant
                        t <= k,
                        k <= stack@.len(),
                        start + k == stack@.len(),
                        start + k <= usize::MAX,
                        popped@ == stack@.subrange(start as int, start as int + t),
                    decreases k - t,
                {
                    popped.push(stack[start + t]);
                    proof {
                        assert(popped@ =~= stack@.subrange(start as int, start as int + t + 1));
                    }
                    t = t + 1;
                }
                proof {
                    assert(popped@ =~= stack@.subrange(start as int, stack@.len() as int));
                    assert forall|q: int| 0 <= q < popped@.len() implies (#[trigger] popped@[q])
                        < graph.nodes@.len() by {
                        assert(popped@[q] == stack@[start + q]);
                    }
                }
                graph.set_sources(idx, popped.as_slice());
                stack.truncate(start);
                stack.push(idx);
                proof {
                    assert(stack@ =~= st_pre.stack.take(st_pre.stack.len() - k).push(
                        st_pre.nodes.len() as usize,
                    ));
                    assert(mviews(graph.nodes@) =~= st_pre.nodes.push(node@));
                    assert(srcs_view(graph.sources@) =~= st_pre.srcs.push(popped@));
                }
            },
            Op::Pop => {
                if stack.len() > 0 {
                    stack.pop();
                    proof {
                        assert(stack@ =~= st_pre.stack.drop_last());
                    }
                }
            },
            Op::Dup => {
                if stack.len() == 0 {
                    proof {
                        assert(build_spec(opsv, i as int + 1) == Err::<BuildState, int>(i as int));
                        lemma_build_err_persists(opsv, i as int + 1, total as int);
                    }
                    return Err(Error::StackExhausted(i));
                }
                let top = stack[stack.len() - 1];
                stack.push(top);
            },
            Op::Swap => {
                if stack.len() < 2 {
                    proof {
                        assert(build_spec(opsv, i as int + 1) == Err::<BuildState, int>(i as int));
                        lemma_build_err_persists(opsv, i as int + 1, total as int);
                    }
                    return Err(Error::StackExhausted(i));
                }
                let l = stack.len();
                let a = stack[l - 2];
                let b = stack[l - 1];
                stack.set(l - 2, b);
                stack.set(l - 1, a);
            },
            Op::Rot => {
                if stack.len() < 3 {
                    proof {
                        assert(build_spec(opsv, i as int + 1) == Err::<BuildState, int>(i as int));
                        lemma_build_err_persists(opsv, i as int + 1, total as int);
                    }
                    return Err(Error::StackExhausted(i));
                }
                let l = stack.len();
                let a = stack[l - 3];
                let b = stack[l - 2];
                let cc = stack[l - 1];
                stack.set(l - 3, b);
                stack.set(l - 2, cc);
                stack.set(l - 1, a);
            },
        }
        proof {
            let st_post = build_op(st_pre, opsv[i as int], i as int);
            assert(st_post is Ok);
            assert(build_spec(opsv, i as int + 1) == st_post);
            assert(stack@ =~= st_post->Ok_0.stack);
        }
        i = i + 1;
    }
    proof {
        assert(i == total);
    }
    Ok(graph)
}

/// Once the build has failed, later prefixes fail with the same index.
proof fn lemma_build_err_persists(ops: Seq<OpView>, from: int, to: int)
    requires
        0 < from <= to,
        build_spec(ops, from) is Err,
    ensures
        build_spec(ops, to) == build_spec(ops, from),
    decreases to - from,
{
    if from < to {
        lemma_build_err_persists(ops, from, to - 1);
        assert(build_spec(ops, to) == build_spec(ops, to - 1));
    }
}

} // verus!
