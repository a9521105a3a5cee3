//! Laws of the render plans the controller builds.
//!
//! Each lemma speaks about `plan_ops`, the mathematical value of the plan a
//! successful update sends, for any controller state whose caches are
//! consistent with a well-formed graph — exactly the state `update_graph`
//! and `build_render_plan` guarantee.

use vstd::prelude::*;

use crate::controller::{Controller, cache_core_eq, lemma_bufs_view_index, lemma_ops_view_index};
use crate::graph::Graph;
use crate::processor::ProcessorFactory;

verus! {

/// Every buffer a processor operation reads is either the empty buffer or a
/// buffer written by an earlier processor operation of the same plan.
pub proof fn lemma_plan_inputs_precede<F: ProcessorFactory>(c: &Controller<F>, g: &Graph)
    requires
        g.wf(),
        c.all_caches_consistent(g),
    ensures
        forall|i: int, a: int, ch: int|
            #![trigger c.plan_ops(g)[i]->Processor_audio_inputs[a].1[ch]]
            (0 <= i < g.nodes@.len() && 0 <= a
                < c.plan_ops(g)[i]->Processor_audio_inputs.len() && 0 <= ch
                < c.plan_ops(g)[i]->Processor_audio_inputs[a].1.len()) ==> (c.plan_ops(
                g,
            )[i]->Processor_audio_inputs[a].1[ch] == c.spec_empty_buffer() || exists|
                j: int,
                p: int,
                ch2: int,
            |
                0 <= j < i && 0 <= p < c.plan_ops(g)[j]->Processor_audio_outputs.len() && 0 <= ch2
                    < c.plan_ops(g)[j]->Processor_audio_outputs[p].1.len() && (#[trigger] c.plan_ops(
                    g,
                )[j]->Processor_audio_outputs[p].1[ch2]) == c.plan_ops(
                    g,
                )[i]->Processor_audio_inputs[a].1[ch]),
{
    let ops = c.plan_ops(g);
    assert forall|i: int, a: int, ch: int|
        #![trigger ops[i]->Processor_audio_inputs[a].1[ch]]
        (0 <= i < g.nodes@.len() && 0 <= a < ops[i]->Processor_audio_inputs.len()
            && 0 <= ch < ops[i]->Processor_audio_inputs[a].1.len()) implies ({
        let b = ops[i]->Processor_audio_inputs[a].1[ch];
        b == c.spec_empty_buffer() || exists|j: int, p: int, ch2: int|
            0 <= j < i && 0 <= p < ops[j]->Processor_audio_outputs.len() && 0 <= ch2
                < ops[j]->Processor_audio_outputs[p].1.len() && (#[trigger] ops[
                j
            ]->Processor_audio_outputs[p].1[ch2]) == b
    }) by {
        assert(c.node_cache_consistent(g, i));
        assert(ops[i] == c.cache_at(i).render_ops@[0]@);
        assert(ops[i]->Processor_audio_inputs == c.expected_inputs(g, i));
        let n = g.nodes@[i];
        let b = ops[i]->Processor_audio_inputs[a].1[ch];
        match n.audio_inputs@[a].connection {
            None => {
                assert(b == c.spec_empty_buffer());
            },
            Some(aor) => {
                assert(g.node_wf(i));
                assert(g.conn_ok(i, aor));
                let s = aor.node_ref as int;
                let p = aor.audio_port_key as int;
                assert(c.node_cache_consistent(g, s));
                assert(ops[s] == c.cache_at(s).render_ops@[0]@);
                assert(ops[s]->Processor_audio_outputs == c.expected_outputs(g, s));
                assert(ops[i]->Processor_audio_inputs[a].1 == c.cache_at(
                    s,
                ).audio_output_buffers@[p]@);
                assert(ops[s]->Processor_audio_outputs[p].1 == c.cache_at(
                    s,
                ).audio_output_buffers@[p]@);
                assert(0 <= s < i && 0 <= p < ops[s]->Processor_audio_outputs.len() && 0 <= ch
                    < ops[s]->Processor_audio_outputs[p].1.len() && ops[
                    s
                ]->Processor_audio_outputs[p].1[ch] == b);
            },
        }
    }
}

/// A plan is a block of processor operations, one per node in dependency
/// order, followed by nothing but output operations: every output operation
/// comes after the last processor operation.
pub proof fn lemma_outputs_after_processors<F: ProcessorFactory>(c: &Controller<F>, g: &Graph)
    requires
        g.wf(),
        c.all_caches_consistent(g),
    ensures
        c.plan_ops(g).len() == g.nodes@.len() + g.bound_outputs@.len(),
        forall|x: int|
            0 <= x < g.nodes@.len() ==> (#[trigger] c.plan_ops(g)[x]) is Processor,
        forall|x: int|
            g.nodes@.len() <= x < c.plan_ops(g).len() ==> (#[trigger] c.plan_ops(g)[x]) is Output,
{
    assert forall|x: int| 0 <= x < g.nodes@.len() implies (#[trigger] c.plan_ops(g)[x])
        is Processor by {
        assert(c.node_cache_consistent(g, x));
        assert(c.plan_ops(g)[x] == c.cache_at(x).render_ops@[0]@);
    }
}

/// For every bound output alias there is exactly one output operation; it
/// carries the alias and exactly the buffer list of the bound source port.
pub proof fn lemma_bound_outputs<F: ProcessorFactory>(c: &Controller<F>, g: &Graph)
    requires
        g.wf(),
        c.all_caches_consistent(g),
    ensures
        forall|b: int|
            0 <= b < g.bound_outputs@.len() ==> ({
                let op = #[trigger] c.plan_ops(g)[g.nodes@.len() + b];
                &&& op is Output
                &&& op->Output_alias == g.bound_outputs@[b].0@
                &&& op->Output_audio_input == c.cache_at(
                    g.bound_outputs@[b].1.node_ref as int,
                ).audio_output_buffers@[g.bound_outputs@[b].1.audio_port_key as int]@
            }),
        forall|b: int, x: int|
            #![trigger c.plan_ops(g)[x], g.bound_outputs@[b]]
            0 <= b < g.bound_outputs@.len() && 0 <= x < c.plan_ops(g).len() && c.plan_ops(g)[x]
                is Output && c.plan_ops(g)[x]->Output_alias == g.bound_outputs@[b].0@ ==> x
                == g.nodes@.len() + b,
{
    let n = g.nodes@.len() as int;
    let ops = c.plan_ops(g);
    assert forall|b: int| 0 <= b < g.bound_outputs@.len() implies ({
        let op = #[trigger] ops[n + b];
        op is Output && op->Output_alias == g.bound_outputs@[b].0@ && op->Output_audio_input
            == c.cache_at(g.bound_outputs@[b].1.node_ref as int).audio_output_buffers@[
            g.bound_outputs@[b].1.audio_port_key as int
        ]@
    }) by {}
    assert forall|b: int, x: int|
        #![trigger ops[x], g.bound_outputs@[b]]
        0 <= b < g.bound_outputs@.len() && 0 <= x < ops.len() && ops[x] is Output
            && ops[x]->Output_alias == g.bound_outputs@[b].0@ implies x == n + b by {
        if x < n {
            assert(c.node_cache_consistent(g, x));
            assert(ops[x] == c.cache_at(x).render_ops@[0]@);
            assert(false);
        } else {
            let b2 = x - n;
            assert(ops[x]->Output_alias == g.bound_outputs@[b2].0@);
            if b2 != b {
                if b2 < b {
                    assert(g.bound_outputs@[b2].0@ != g.bound_outputs@[b].0@);
                } else {
                    assert(g.bound_outputs@[b].0@ != g.bound_outputs@[b2].0@);
                }
                assert(false);
            }
        }
    }
}

/// Every parameter port of every node appears exactly once in the parameter
/// map of its node's processor operation.
pub proof fn lemma_params_exactly_once<F: ProcessorFactory>(c: &Controller<F>, g: &Graph)
    requires
        g.wf(),
        c.all_caches_consistent(g),
    ensures
        forall|i: int|
            0 <= i < g.nodes@.len() ==> (#[trigger] c.plan_ops(g)[i])->Processor_parameters.len()
                == g.nodes@[i].params@.len(),
        forall|i: int, q: int|
            #![trigger c.plan_ops(g)[i]->Processor_parameters[q]]
            0 <= i < g.nodes@.len() && 0 <= q < g.nodes@[i].params@.len() ==> ({
                let pars = c.plan_ops(g)[i]->Processor_parameters;
                pars[q].0 == g.nodes@[i].params@[q].id@ && (forall|q2: int|
                    0 <= q2 < pars.len() && q2 != q ==> (#[trigger] pars[q2]).0 != g.nodes@[
                        i
                    ].params@[q].id@)
            }),
{
    assert forall|i: int|
        0 <= i < g.nodes@.len() implies (
    #[trigger] c.plan_ops(g)[i])->Processor_parameters.len() == g.nodes@[i].params@.len() by {
        assert(c.node_cache_consistent(g, i));
        assert(c.plan_ops(g)[i] == c.cache_at(i).render_ops@[0]@);
    }
    assert forall|i: int, q: int|
        #![trigger c.plan_ops(g)[i]->Processor_parameters[q]]
        0 <= i < g.nodes@.len() && 0 <= q < g.nodes@[i].params@.len() implies ({
        let pars = c.plan_ops(g)[i]->Processor_parameters;
        pars[q].0 == g.nodes@[i].params@[q].id@ && (forall|q2: int|
            0 <= q2 < pars.len() && q2 != q ==> (#[trigger] pars[q2]).0 != g.nodes@[
                i
            ].params@[q].id@)
    }) by {
        assert(c.node_cache_consistent(g, i));
        assert(c.plan_ops(g)[i] == c.cache_at(i).render_ops@[0]@);
        let pars = c.plan_ops(g)[i]->Processor_parameters;
        assert(c.param_entry_ok(g, i, pars[q], q));
        assert(g.node_wf(i));
        assert forall|q2: int| 0 <= q2 < pars.len() && q2 != q implies (#[trigger] pars[q2]).0
            != g.nodes@[i].params@[q].id@ by {
            assert(c.param_entry_ok(g, i, pars[q2], q2));
            if q2 < q {
                assert(g.nodes@[i].params@[q2].id@ != g.nodes@[i].params@[q].id@);
            } else {
                assert(g.nodes@[i].params@[q].id@ != g.nodes@[i].params@[q2].id@);
            }
        }
    }
}

/// The plan is a function of the cache cores alone: two states whose caches
/// carry the same operations and output buffer lists yield the same plan.
/// In particular, an update in which no node was invalidated leaves every
/// cache core untouched, so re-running it reproduces the previous plan.
pub proof fn lemma_plan_stable<F: ProcessorFactory>(c1: &Controller<F>, c2: &Controller<F>, g: &Graph)
    requires
        g.wf(),
        c1.all_caches_consistent(g),
        forall|i: int| 0 <= i < g.nodes@.len() ==> #[trigger] c2.cached(i),
        forall|i: int|
            0 <= i < g.nodes@.len() ==> cache_core_eq(
                #[trigger] c1.cache_at(i),
                c2.cache_at(i),
            ),
    ensures
        c1.plan_ops(g) == c2.plan_ops(g),
{
    let n = g.nodes@.len() as int;
    assert forall|x: int| 0 <= x < c1.plan_ops(g).len() implies c1.plan_ops(g)[x] == c2.plan_ops(
        g,
    )[x] by {
        if x < n {
            assert(c1.node_cache_consistent(g, x));
            assert(cache_core_eq(c1.cache_at(x), c2.cache_at(x)));
            lemma_ops_view_index(c1.cache_at(x).render_ops@, c2.cache_at(x).render_ops@);
            assert(c1.plan_ops(g)[x] == c1.cache_at(x).render_ops@[0]@);
            assert(c2.plan_ops(g)[x] == c2.cache_at(x).render_ops@[0]@);
        } else {
            let b = x - n;
            assert(g.bound_ok(b));
            let s = g.bound_outputs@[b].1.node_ref as int;
            let p = g.bound_outputs@[b].1.audio_port_key as int;
            assert(c1.node_cache_consistent(g, s));
            assert(cache_core_eq(c1.cache_at(s), c2.cache_at(s)));
            lemma_bufs_view_index(
                c1.cache_at(s).audio_output_buffers@,
                c2.cache_at(s).audio_output_buffers@,
            );
        }
    }
    assert(c1.plan_ops(g) =~= c2.plan_ops(g));
}

} // verus!
