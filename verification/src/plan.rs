//! The render plan: the flat, totally ordered sequence of render operations
//! that the render thread executes on each audio callback, together with the
//! message type that carries finished plans over to that thread.
//!
//! Buffers, processors and parameter values are referred to by their registry
//! keys; the render thread resolves a key in constant time and never
//! allocates.

use vstd::prelude::*;

verus! {

/// How one parameter port of a processor is fed during rendering: either from
/// a parameter value cell written into a dedicated slice buffer, or straight
/// from channel 0 of a connected audio output.
#[derive(Clone, Copy, Debug, PartialEq, Eq, Structural)]
pub enum ParamRenderPort {
    Value { param_value_key: usize, slice_buffer: usize },
    Buffer { buffer: usize },
}

impl ParamRenderPort {
    pub fn value(param_value_key: usize, slice_buffer: usize) -> (r: Self)
        ensures
            r == (ParamRenderPort::Value { param_value_key, slice_buffer }),
    {
        ParamRenderPort::Value { param_value_key, slice_buffer }
    }

    pub fn buffer(buffer: usize) -> (r: Self)
        ensures
            r == (ParamRenderPort::Buffer { buffer }),
    {
        ParamRenderPort::Buffer { buffer }
    }
}

/// One instruction of a render plan.
#[derive(Debug, PartialEq)]
pub enum RenderOp {
    /// Run one processor: read the listed input buffers, write the listed
    /// output buffers, feed each parameter port as described.
    RenderProcessor {
        processor_key: usize,
        audio_inputs: Vec<(String, Vec<usize>)>,
        audio_outputs: Vec<(String, Vec<usize>)>,
        parameters: Vec<(String, ParamRenderPort)>,
    },
    /// Copy a node output to a host-visible alias.
    RenderOutput { alias: String, audio_input: Vec<usize> },
}

/// Mathematical value of a port map: port identifier and buffer keys, with
/// strings taken as character sequences.
pub open spec fn ports_view(s: Seq<(String, Vec<usize>)>) -> Seq<(Seq<char>, Seq<usize>)> {
    s.map_values(|p: (String, Vec<usize>)| (p.0@, p.1@))
}

/// Mathematical value of a parameter port map.
pub open spec fn params_view(s: Seq<(String, ParamRenderPort)>) -> Seq<
    (Seq<char>, ParamRenderPort),
> {
    s.map_values(|p: (String, ParamRenderPort)| (p.0@, p.1))
}

/// Mathematical value of a render operation.
pub enum OpView {
    Processor {
        processor_key: usize,
        audio_inputs: Seq<(Seq<char>, Seq<usize>)>,
        audio_outputs: Seq<(Seq<char>, Seq<usize>)>,
        parameters: Seq<(Seq<char>, ParamRenderPort)>,
    },
    Output { alias: Seq<char>, audio_input: Seq<usize> },
}

impl View for RenderOp {
    type V = OpView;

    open spec fn view(&self) -> OpView {
        match self {
            RenderOp::RenderProcessor { processor_key, audio_inputs, audio_outputs, parameters } => {
                OpView::Processor {
                    processor_key: *processor_key,
                    audio_inputs: ports_view(audio_inputs@),
                    audio_outputs: ports_view(audio_outputs@),
                    parameters: params_view(parameters@),
                }
            },
            RenderOp::RenderOutput { alias, audio_input } => {
                OpView::Output { alias: alias@, audio_input: audio_input@ }
            },
        }
    }
}

/// Copy a list of buffer keys.
pub fn copy_keys(v: &Vec<usize>) -> (r: Vec<usize>)
    ensures
        r@ == v@,
{
    let mut r: Vec<usize> = Vec::new();
    let mut i: usize = 0;
    while i < v.len()
        invariant
            i <= v@.len(),
            r@ == v@.subrange(0, i as int),
        decreases v@.len() - i,
    {
        r.push(v[i]);
        i = i + 1;
        proof {
            assert(r@ =~= v@.subrange(0, i as int));
        }
    }
    proof {
        assert(r@ =~= v@);
    }
    r
}

/// Copy a port map (identifiers and buffer key lists).
pub fn copy_ports(v: &Vec<(String, Vec<usize>)>) -> (r: Vec<(String, Vec<usize>)>)
    ensures
        ports_view(r@) == ports_view(v@),
{
    let mut r: Vec<(String, Vec<usize>)> = Vec::new();
    let mut i: usize = 0;
    while i < v.len()
        invariant
            i <= v@.len(),
            r@.len() == i,
            forall|j: int|
                0 <= j < i ==> #[trigger] r@[j].0@ == v@[j].0@ && r@[j].1@ == v@[j].1@,
        decreases v@.len() - i,
    {
        let id = v[i].0.clone();
        let bufs = copy_keys(&v[i].1);
        r.push((id, bufs));
        i = i + 1;
    }
    proof {
        assert(ports_view(r@) =~= ports_view(v@));
    }
    r
}

/// Copy a parameter port map.
pub fn copy_params(v: &Vec<(String, ParamRenderPort)>) -> (r: Vec<(String, ParamRenderPort)>)
    ensures
        params_view(r@) == params_view(v@),
{
    let mut r: Vec<(String, ParamRenderPort)> = Vec::new();
    let mut i: usize = 0;
    while i < v.len()
        invariant
            i <= v@.len(),
            r@.len() == i,
            forall|j: int|
                0 <= j < i ==> #[trigger] r@[j].0@ == v@[j].0@ && r@[j].1 == v@[j].1,
        decreases v@.len() - i,
    {
        let id = v[i].0.clone();
        let port = v[i].1;
        r.push((id, port));
        i = i + 1;
    }
    proof {
        assert(params_view(r@) =~= params_view(v@));
    }
    r
}

impl Clone for RenderOp {
    /// A copy whose mathematical value equals the cloned operation's.
    fn clone(&self) -> (r: Self)
        ensures
            r@ == self@,
    {
        match self {
            RenderOp::RenderProcessor { processor_key, audio_inputs, audio_outputs, parameters } => {
                RenderOp::RenderProcessor {
                    processor_key: *processor_key,
                    audio_inputs: copy_ports(audio_inputs),
                    audio_outputs: copy_ports(audio_outputs),
                    parameters: copy_params(parameters),
                }
            },
            RenderOp::RenderOutput { alias, audio_input } => {
                RenderOp::RenderOutput {
                    alias: alias.clone(),
                    audio_input: copy_keys(audio_input),
                }
            },
        }
    }
}

/// The ordered sequence of render operations for one audio callback.
#[derive(Debug, PartialEq)]
pub struct RenderPlan {
    pub operations: Vec<RenderOp>,
}

impl RenderPlan {
    /// Mathematical value of the plan: the sequence of operation values.
    pub open spec fn ops(&self) -> Seq<OpView> {
        self.operations@.map_values(|op: RenderOp| op@)
    }
}

impl Default for RenderPlan {
    fn default() -> (r: Self)
        ensures
            r.ops() == Seq::<OpView>::empty(),
    {
        let r = RenderPlan { operations: Vec::new() };
        proof {
            assert(r.ops() =~= Seq::<OpView>::empty());
        }
        r
    }
}

/// Wire message between the controller and the renderer. The single variant
/// moves ownership of a finished plan across; the renderer sends the replaced
/// plan back in the same envelope.
#[derive(Debug, PartialEq)]
pub enum Message {
    MoveRenderPlan(Box<RenderPlan>),
}

} // verus!
