//! The controller: an offline planner that walks the audio graph in
//! dependency order, keeps a per-node cache of processors, parameter value
//! cells and buffer assignments, recycles buffers as soon as their last
//! consumer has been planned, and ships each finished plan to the renderer
//! over a lock-free channel.

use vstd::prelude::*;

use crate::EngineConfig;
use crate::ParamValue;
use crate::bridge::{ring_drain, ring_push};
use crate::buffers::Buffer;
use crate::graph::{AudioOutRef, Graph, GraphTopology, Node, ParamRef};
use crate::plan::{Message, OpView, ParamRenderPort, RenderOp, RenderPlan, copy_keys, ports_view,
    params_view};
use crate::processor::{Processor, ProcessorFactory};
use crate::registry::Registry;

verus! {

broadcast use vstd::seq_lib::group_seq_properties;

/// Why an update or a parameter write was rejected. Every variant carries
/// the key or the node and class that localize the problem.
#[derive(Debug, PartialEq)]
pub enum ControllerError {
    ProcessorNotFound(usize),
    ParametersNotFound(usize),
    BufferNotFound(usize),
    NodeCacheNotFound(usize),
    NodeNotFound(usize),
    SendFailure,
    ProcessorFactoryNotFound(String, String),
    ProcessorCreationFailed(String, String),
    ParamValueKeyNotFound(usize),
    ParamValueNotFound(usize),
    SliceBufferNotFound(usize),
    AudioOutBufferNotFound(usize),
}

/// Per-node memo of everything the planner built for that node: the
/// processor handle key, one parameter value key per parameter port, the
/// buffer lists its audio output ports write (one buffer per channel), the
/// set of buffer keys it currently owns, and the render operations it
/// contributes to the plan.
pub struct NodeCache {
    pub processor_key: usize,
    pub parameter_value_keys: Vec<usize>,
    pub audio_output_buffers: Vec<Vec<usize>>,
    pub allocated_buffers: Vec<usize>,
    pub render_ops: Vec<RenderOp>,
}

/// Buffer lists by output port, as sequences.
pub open spec fn bufs_view(s: Seq<Vec<usize>>) -> Seq<Seq<usize>> {
    s.map_values(|v: Vec<usize>| v@)
}

/// Render operations as their mathematical values.
pub open spec fn ops_view(s: Seq<RenderOp>) -> Seq<OpView> {
    s.map_values(|op: RenderOp| op@)
}

/// Equal buffer-list views mean elementwise equal views.
pub proof fn lemma_bufs_view_index(s1: Seq<Vec<usize>>, s2: Seq<Vec<usize>>)
    requires
        bufs_view(s1) == bufs_view(s2),
    ensures
        s1.len() == s2.len(),
        forall|p: int| 0 <= p < s1.len() ==> (#[trigger] s1[p])@ == s2[p]@,
{
    assert(bufs_view(s1).len() == s1.len());
    assert(bufs_view(s2).len() == s2.len());
    assert forall|p: int| 0 <= p < s1.len() implies (#[trigger] s1[p])@ == s2[p]@ by {
        assert(bufs_view(s1)[p] == bufs_view(s2)[p]);
        assert(bufs_view(s1)[p] == s1[p]@);
        assert(bufs_view(s2)[p] == s2[p]@);
    }
}

/// Equal operation views mean elementwise equal views.
pub proof fn lemma_ops_view_index(s1: Seq<RenderOp>, s2: Seq<RenderOp>)
    requires
        ops_view(s1) == ops_view(s2),
    ensures
        s1.len() == s2.len(),
        forall|p: int| 0 <= p < s1.len() ==> (#[trigger] s1[p])@ == s2[p]@,
{
    assert(ops_view(s1).len() == s1.len());
    assert(ops_view(s2).len() == s2.len());
    assert forall|p: int| 0 <= p < s1.len() implies (#[trigger] s1[p])@ == s2[p]@ by {
        assert(ops_view(s1)[p] == ops_view(s2)[p]);
        assert(ops_view(s1)[p] == s1[p]@);
        assert(ops_view(s2)[p] == s2[p]@);
    }
}

/// The slice-buffer keys among per-port allocations, in port order: one key
/// per unconnected parameter port.
pub open spec fn slice_keys(vb: Seq<Option<usize>>) -> Seq<usize>
    decreases vb.len(),
{
    if vb.len() == 0 {
        Seq::empty()
    } else {
        slice_keys(vb.drop_last()) + (if vb.last() is Some {
            seq![vb.last()->Some_0]
        } else {
            Seq::empty()
        })
    }
}

/// All buffer keys of an audio output port map, flattened in port order.
pub open spec fn output_keys(outs: Seq<(String, Vec<usize>)>) -> Seq<usize>
    decreases outs.len(),
{
    if outs.len() == 0 {
        Seq::empty()
    } else {
        output_keys(outs.drop_last()) + outs.last().1@
    }
}

/// The parts of a node cache that an update leaves untouched on a node it
/// does not rebuild (everything but the ownership set, which the node's
/// consumers release).
pub open spec fn cache_core_eq(a: NodeCache, b: NodeCache) -> bool {
    &&& a.processor_key == b.processor_key
    &&& a.parameter_value_keys@ == b.parameter_value_keys@
    &&& bufs_view(a.audio_output_buffers@) == bufs_view(b.audio_output_buffers@)
    &&& ops_view(a.render_ops@) == ops_view(b.render_ops@)
}

impl NodeCache {
    pub fn new(processor_key: usize, parameter_value_keys: Vec<usize>) -> (r: Self)
        ensures
            r.processor_key == processor_key,
            r.parameter_value_keys == parameter_value_keys,
            r.audio_output_buffers@.len() == 0,
            r.allocated_buffers@.len() == 0,
            r.render_ops@.len() == 0,
    {
        NodeCache {
            processor_key,
            parameter_value_keys,
            audio_output_buffers: Vec::new(),
            allocated_buffers: Vec::new(),
            render_ops: Vec::new(),
        }
    }

    /// The parameter value key for a parameter port.
    pub fn get_param_key(&self, port_key: usize) -> (r: Result<usize, ControllerError>)
        ensures
            (port_key as int) < self.parameter_value_keys@.len() ==> r == Ok::<
                usize,
                ControllerError,
            >(self.parameter_value_keys@[port_key as int]),
            (port_key as int) >= self.parameter_value_keys@.len() ==> r == Err::<
                usize,
                ControllerError,
            >(ControllerError::ParamValueKeyNotFound(port_key)),
    {
        if port_key < self.parameter_value_keys.len() {
            Ok(self.parameter_value_keys[port_key])
        } else {
            Err(ControllerError::ParamValueKeyNotFound(port_key))
        }
    }

    /// The ordered buffer list an audio output port writes.
    pub fn get_audio_output_buffer(&self, port_key: usize) -> (r: Result<
        &Vec<usize>,
        ControllerError,
    >)
        ensures
            (port_key as int) < self.audio_output_buffers@.len() ==> (r matches Ok(v) && v@
                == self.audio_output_buffers@[port_key as int]@),
            (port_key as int) >= self.audio_output_buffers@.len() ==> (r matches Err(e) && e
                == ControllerError::AudioOutBufferNotFound(port_key)),
    {
        if port_key < self.audio_output_buffers.len() {
            Ok(&self.audio_output_buffers[port_key])
        } else {
            Err(ControllerError::AudioOutBufferNotFound(port_key))
        }
    }
}

/// Whether `v` holds the key `x`.
pub fn key_list_contains(v: &Vec<usize>, x: usize) -> (r: bool)
    ensures
        r == v@.contains(x),
{
    let mut i: usize = 0;
    while i < v.len()
        invariant
            i <= v@.len(),
            forall|j: int| 0 <= j < i ==> v@[j] != x,
        decreases v@.len() - i,
    {
        if v[i] == x {
            return true;
        }
        i = i + 1;
    }
    false
}

/// Transient per-update state: a private copy of every node's remaining
/// destination count, and the set of buffer keys currently free for reuse.
pub struct UpdateContext {
    pub destination_counts: Vec<usize>,
    pub free_buffers: Vec<usize>,
}

impl UpdateContext {
    pub fn new(topology: &GraphTopology, free_buffers: Vec<usize>) -> (r: Self)
        ensures
            r.destination_counts@ == topology.destination_counts@,
            r.free_buffers@ == free_buffers@,
    {
        let destination_counts = copy_keys(&topology.destination_counts);
        UpdateContext { destination_counts, free_buffers }
    }

    /// Return a set of buffers to the free pool.
    pub fn add_to_free_buffers(&mut self, buffers: &Vec<usize>)
        ensures
            final(self).destination_counts@ == old(self).destination_counts@,
            forall|x: usize|
                #![all_triggers]
                final(self).free_buffers@.contains(x) <==> (old(self).free_buffers@.contains(x)
                    || buffers@.contains(x)),
    {
        let mut i: usize = 0;
        while i < buffers.len()
            invariant
                i <= buffers@.len(),
                self.destination_counts@ == old(self).destination_counts@,
                forall|x: usize|
                    self.free_buffers@.contains(x) <==> (old(self).free_buffers@.contains(x)
                        || buffers@.subrange(0, i as int).contains(x)),
            decreases buffers@.len() - i,
        {
            let b = buffers[i];
            let ghost pre = self.free_buffers@;
            if !key_list_contains(&self.free_buffers, b) {
                self.free_buffers.push(b);
            }
            i = i + 1;
            proof {
                let sub = buffers@.subrange(0, i as int);
                assert(sub.drop_last() =~= buffers@.subrange(0, i - 1));
                assert(sub.last() == buffers@[i - 1]);
                assert forall|x: usize| self.free_buffers@.contains(x) implies (old(
                    self,
                ).free_buffers@.contains(x) || sub.contains(x)) by {
                    let j = choose|j: int|
                        0 <= j < self.free_buffers@.len() && self.free_buffers@[j] == x;
                    if j < pre.len() {
                        assert(pre[j] == x);
                    } else {
                        assert(x == b);
                        assert(sub[i - 1] == x);
                    }
                }
                assert forall|x: usize| (old(self).free_buffers@.contains(x) || sub.contains(
                    x,
                )) implies self.free_buffers@.contains(x) by {
                    if old(self).free_buffers@.contains(x) || buffers@.subrange(
                        0,
                        i - 1,
                    ).contains(x) {
                        assert(pre.contains(x));
                        if pre == self.free_buffers@ {
                        } else {
                            let j = choose|j: int| 0 <= j < pre.len() && pre[j] == x;
                            assert(self.free_buffers@[j] == x);
                        }
                    } else {
                        let j = choose|j: int| 0 <= j < sub.len() && sub[j] == x;
                        assert(j == i - 1);
                        assert(x == b);
                        if pre.contains(x) {
                            let j2 = choose|j2: int| 0 <= j2 < pre.len() && pre[j2] == x;
                            if pre == self.free_buffers@ {
                            } else {
                                assert(self.free_buffers@[j2] == x);
                            }
                        } else {
                            assert(self.free_buffers@[self.free_buffers@.len() - 1] == x);
                        }
                    }
                }
            }
        }
        proof {
            assert(buffers@.subrange(0, buffers@.len() as int) =~= buffers@);
        }
    }

    /// Take a set of buffers out of the free pool.
    pub fn remove_from_free_buffers(&mut self, buffers: &Vec<usize>)
        ensures
            final(self).destination_counts@ == old(self).destination_counts@,
            forall|x: usize|
                #![all_triggers]
                final(self).free_buffers@.contains(x) <==> (old(self).free_buffers@.contains(x)
                    && !buffers@.contains(x)),
    {
        let mut kept: Vec<usize> = Vec::new();
        let mut i: usize = 0;
        while i < self.free_buffers.len()
            invariant
                i <= self.free_buffers@.len(),
                forall|x: usize|
                    kept@.contains(x) <==> (self.free_buffers@.subrange(0, i as int).contains(x)
                        && !buffers@.contains(x)),
            decreases self.free_buffers@.len() - i,
        {
            let b = self.free_buffers[i];
            let ghost pre = kept@;
            if !key_list_contains(buffers, b) {
                kept.push(b);
            }
            i = i + 1;
            proof {
                let sub = self.free_buffers@.subrange(0, i as int);
                assert(sub.drop_last() =~= self.free_buffers@.subrange(0, i - 1));
                assert(sub.last() == self.free_buffers@[i - 1]);
                assert forall|x: usize| kept@.contains(x) implies (sub.contains(x)
                    && !buffers@.contains(x)) by {
                    let j = choose|j: int| 0 <= j < kept@.len() && kept@[j] == x;
                    if j < pre.len() {
                        assert(pre[j] == x);
                        let sub_pre = self.free_buffers@.subrange(0, i - 1);
                        let j2 = choose|j2: int| 0 <= j2 < sub_pre.len() && sub_pre[j2] == x;
                        assert(sub[j2] == x);
                    } else {
                        assert(x == b);
                        assert(sub[i - 1] == x);
                    }
                }
                assert forall|x: usize| (sub.contains(x) && !buffers@.contains(x)) implies
                    kept@.contains(x) by {
                    let j = choose|j: int| 0 <= j < sub.len() && sub[j] == x;
                    if j < i - 1 {
                        assert(self.free_buffers@.subrange(0, i - 1)[j] == x);
                        assert(pre.contains(x));
                        if pre == kept@ {
                        } else {
                            let j2 = choose|j2: int| 0 <= j2 < pre.len() && pre[j2] == x;
                            assert(kept@[j2] == x);
                        }
                    } else {
                        assert(x == b);
                        assert(kept@[kept@.len() - 1] == x);
                    }
                }
            }
        }
        proof {
            assert(self.free_buffers@.subrange(0, self.free_buffers@.len() as int)
                =~= self.free_buffers@);
        }
        self.free_buffers = kept;
    }
}

/// The controller. It owns the resource registries, the per-node caches and
/// the two ends of the message channel; the host drives it from the control
/// thread only.
pub struct Controller<F: ProcessorFactory> {
    tx: ringbuf::Producer<Message>,
    rx: ringbuf::Consumer<Message>,
    config: EngineConfig,
    parameters: Registry<ParamValue>,
    factories: Vec<F>,
    factory_classes: Vec<(String, usize)>,
    processors: Registry<Processor>,
    buffers: Registry<Buffer>,
    empty_buffer: usize,
    nodes: Vec<Option<NodeCache>>,
}

impl<F: ProcessorFactory> Controller<F> {
    /// The per-node cache slots, one per node reference ever seen.
    pub closed spec fn spec_nodes(&self) -> Seq<Option<NodeCache>> {
        self.nodes@
    }

    pub open spec fn cached(&self, i: int) -> bool {
        0 <= i < self.spec_nodes().len() && self.spec_nodes()[i] is Some
    }

    pub open spec fn cache_at(&self, i: int) -> NodeCache
        recommends
            self.cached(i),
    {
        self.spec_nodes()[i]->Some_0
    }

    pub closed spec fn params_contains(&self, k: int) -> bool {
        self.parameters.contains_key(k)
    }

    pub closed spec fn param_at(&self, k: int) -> ParamValue {
        self.parameters.spec_get(k)
    }

    pub closed spec fn spec_parameters_len(&self) -> nat {
        self.parameters.spec_len()
    }

    pub closed spec fn procs_contains(&self, k: int) -> bool {
        self.processors.contains_key(k)
    }

    pub closed spec fn spec_processors_len(&self) -> nat {
        self.processors.spec_len()
    }

    pub closed spec fn spec_buffers_len(&self) -> nat {
        self.buffers.spec_len()
    }

    pub closed spec fn spec_buffer_count(&self) -> nat {
        self.buffers.key_space()
    }

    pub closed spec fn spec_empty_buffer(&self) -> usize {
        self.empty_buffer
    }

    pub closed spec fn spec_config(&self) -> EngineConfig {
        self.config
    }

    pub closed spec fn spec_factory_classes(&self) -> Seq<(String, usize)> {
        self.factory_classes@
    }

    pub closed spec fn spec_factories_len(&self) -> nat {
        self.factories@.len()
    }

    /// The registered factories, in registration order.
    pub closed spec fn spec_factories(&self) -> Seq<F> {
        self.factories@
    }

    /// The buffer registry's slots: one per key ever handed out.
    pub closed spec fn spec_buffers(&self) -> Seq<Option<Buffer>> {
        self.buffers.slots()
    }

    /// Number of parameter keys ever handed out.
    pub closed spec fn spec_params_key_space(&self) -> nat {
        self.parameters.key_space()
    }

    /// The class name resolves to factory slot `ix`: the first index entry
    /// for that class carries `ix`. Lookup takes the first entry, so this is
    /// the slot a lookup returns.
    pub open spec fn resolves_class(&self, cl: Seq<char>, ix: int) -> bool {
        exists|j: int|
            0 <= j < self.spec_factory_classes().len()
                && (#[trigger] self.spec_factory_classes()[j]).0@ == cl
                && self.spec_factory_classes()[j].1 == ix && (forall|j2: int|
                0 <= j2 < j ==> (#[trigger] self.spec_factory_classes()[j2]).0@ != cl)
    }

    /// Whether some registered factory is indexed under a class name.
    pub open spec fn class_registered(&self, cl: Seq<char>) -> bool {
        exists|j: int|
            0 <= j < self.spec_factory_classes().len()
                && (#[trigger] self.spec_factory_classes()[j]).0@ == cl
    }

    /// The class index points at existing factories.
    pub open spec fn classes_wf(&self) -> bool {
        forall|j: int|
            0 <= j < self.spec_factory_classes().len()
                ==> ((#[trigger] self.spec_factory_classes()[j]).1 as int)
                < self.spec_factories_len()
    }

    /// Every cached node's registry keys are live: its processor key and all
    /// its parameter value keys resolve.
    pub open spec fn caches_keys_wf(&self) -> bool {
        forall|i: int|
            #[trigger] self.cached(i) ==> self.procs_contains(self.cache_at(i).processor_key as int)
                && (forall|q: int|
                0 <= q < self.cache_at(i).parameter_value_keys@.len() ==> self.params_contains(
                    #[trigger] self.cache_at(i).parameter_value_keys@[q] as int,
                ))
    }

    pub open spec fn wf(&self) -> bool {
        self.classes_wf() && self.caches_keys_wf()
    }

    /// The parameter value key serving a parameter port.
    pub open spec fn param_key_of(&self, p: ParamRef) -> usize {
        self.cache_at(p.node_ref as int).parameter_value_keys@[p.param_port_key as int]
    }

    /// Whether a parameter reference resolves to a parameter value cell.
    pub open spec fn has_param(&self, p: ParamRef) -> bool {
        self.cached(p.node_ref as int) && (p.param_port_key as int) < self.cache_at(
            p.node_ref as int,
        ).parameter_value_keys@.len()
    }

    /// The audio input map a rebuilt plan must carry for node `i`: every
    /// unconnected port reads the empty buffer once per channel; every
    /// connected port reads exactly the buffer list of the source port.
    pub open spec fn expected_inputs(&self, g: &Graph, i: int) -> Seq<(Seq<char>, Seq<usize>)> {
        let n = g.nodes@[i];
        Seq::new(
            n.audio_inputs@.len(),
            |a: int|
                (
                    n.audio_inputs@[a].id@,
                    match n.audio_inputs@[a].connection {
                        None => Seq::new(
                            n.audio_inputs@[a].channels as nat,
                            |ch: int| self.spec_empty_buffer(),
                        ),
                        Some(aor) => self.cache_at(
                            aor.node_ref as int,
                        ).audio_output_buffers@[aor.audio_port_key as int]@,
                    },
                ),
        )
    }

    /// The audio output map of node `i`'s operation: the port identifiers in
    /// port order, each with the buffer list recorded in the cache.
    pub open spec fn expected_outputs(&self, g: &Graph, i: int) -> Seq<(Seq<char>, Seq<usize>)> {
        let n = g.nodes@[i];
        let nc = self.cache_at(i);
        Seq::new(
            n.audio_outputs@.len(),
            |p: int| (n.audio_outputs@[p].id@, nc.audio_output_buffers@[p]@),
        )
    }

    /// How parameter port `q` of node `i` must be bound in the operation:
    /// unconnected ports through their parameter value cell and a slice
    /// buffer, connected ports straight from channel 0 of the source port.
    pub open spec fn param_entry_ok(
        &self,
        g: &Graph,
        i: int,
        e: (Seq<char>, ParamRenderPort),
        q: int,
    ) -> bool {
        let n = g.nodes@[i];
        let nc = self.cache_at(i);
        &&& e.0 == n.params@[q].id@
        &&& match n.params@[q].connection {
            None => e.1 matches ParamRenderPort::Value { param_value_key, slice_buffer }
                && param_value_key == nc.parameter_value_keys@[q],
            Some(aor) => e.1 == (ParamRenderPort::Buffer {
                buffer: self.cache_at(
                    aor.node_ref as int,
                ).audio_output_buffers@[aor.audio_port_key as int]@[0],
            }),
        }
    }

    /// The cache of node `i` agrees with the graph: one render operation,
    /// whose port maps are exactly what the node's descriptor and
    /// connections dictate against the current caches of its sources.
    pub open spec fn node_cache_consistent(&self, g: &Graph, i: int) -> bool {
        let n = g.nodes@[i];
        &&& self.cached(i)
        &&& ({
            let nc = self.cache_at(i);
            &&& nc.parameter_value_keys@.len() == n.params@.len()
            &&& nc.audio_output_buffers@.len() == n.audio_outputs@.len()
            &&& forall|p: int|
                0 <= p < n.audio_outputs@.len()
                    ==> (#[trigger] nc.audio_output_buffers@[p])@.len()
                    == n.audio_outputs@[p].channels
            &&& nc.render_ops@.len() == 1
            &&& (nc.render_ops@[0]@ matches OpView::Processor {
                processor_key,
                audio_inputs,
                audio_outputs,
                parameters,
            } && processor_key == nc.processor_key && audio_inputs == self.expected_inputs(g, i)
                && audio_outputs == self.expected_outputs(g, i) && parameters.len()
                == n.params@.len() && (forall|q: int|
                0 <= q < n.params@.len() ==> self.param_entry_ok(
                    g,
                    i,
                    #[trigger] parameters[q],
                    q,
                )))
        })
    }

    /// Every node of the graph has a consistent cache.
    pub open spec fn all_caches_consistent(&self, g: &Graph) -> bool {
        forall|i: int| 0 <= i < g.nodes@.len() ==> self.node_cache_consistent(g, i)
    }

    /// Every cached, not invalidated node has a consistent cache: what an
    /// update relies on finding, and what it leaves behind for every node.
    pub open spec fn caches_consistent_for(&self, g: &Graph) -> bool {
        forall|i: int|
            0 <= i < g.nodes@.len() && self.cached(i) && !g.nodes@[i].invalidated
                ==> self.node_cache_consistent(g, i)
    }

    /// A node must be (re)built when it has no cache yet or the graph marked
    /// it dirty.
    pub open spec fn needs_rebuild(&self, g: &Graph, i: int) -> bool {
        !self.cached(i) || g.nodes@[i].invalidated
    }

    /// Invalidation is closed downstream: a node whose source must be
    /// rebuilt must itself be rebuilt. The graph library maintains this by
    /// invalidating dependents; the planner relies on it.
    pub open spec fn rebuild_closed(&self, g: &Graph) -> bool {
        forall|i: int, k: int|
            0 <= i < g.nodes@.len() && 0 <= k < g.nodes@[i].spec_sources().len()
                && self.needs_rebuild(g, #[trigger] g.nodes@[i].spec_sources()[k] as int)
                ==> self.needs_rebuild(g, i)
    }

    /// Cached nodes carry one parameter value key per current parameter
    /// port. Holds as long as a node's ports only change together with an
    /// invalidation that the graph reports before the ports changed owner;
    /// fresh caches satisfy it by construction.
    pub open spec fn param_keys_shaped(&self, g: &Graph) -> bool {
        forall|i: int|
            0 <= i < g.nodes@.len() && #[trigger] self.cached(i) ==> self.cache_at(
                i,
            ).parameter_value_keys@.len() == g.nodes@[i].params@.len()
    }

    /// Well-formedness carries over to a state with the same caches, the
    /// same class index, at least as many factories and at least the same
    /// live registry keys.
    pub proof fn lemma_wf_preserved(a: Self, b: Self)
        requires
            a.wf(),
            b.spec_nodes() == a.spec_nodes(),
            b.spec_factory_classes() == a.spec_factory_classes(),
            b.spec_factories_len() >= a.spec_factories_len(),
            forall|k: int| a.params_contains(k) ==> b.params_contains(k),
            forall|k: int| a.procs_contains(k) ==> b.procs_contains(k),
        ensures
            b.wf(),
    {
        assert forall|j: int| 0 <= j < b.spec_factory_classes().len() implies ((
        #[trigger] b.spec_factory_classes()[j]).1 as int) < b.spec_factories_len() by {
            assert(((a.spec_factory_classes()[j]).1 as int) < a.spec_factories_len());
        }
        Self::lemma_caches_keys_wf_preserved(a, b);
    }

    /// Key liveness of the caches carries over to a state with the same
    /// caches and at least the same live registry keys.
    pub proof fn lemma_caches_keys_wf_preserved(a: Self, b: Self)
        requires
            a.caches_keys_wf(),
            b.spec_nodes() == a.spec_nodes(),
            forall|k: int| a.params_contains(k) ==> b.params_contains(k),
            forall|k: int| a.procs_contains(k) ==> b.procs_contains(k),
        ensures
            b.caches_keys_wf(),
    {
        assert forall|i: int| #[trigger] b.cached(i) implies b.procs_contains(
            b.cache_at(i).processor_key as int,
        ) && (forall|q: int|
            0 <= q < b.cache_at(i).parameter_value_keys@.len() ==> b.params_contains(
                #[trigger] b.cache_at(i).parameter_value_keys@[q] as int,
            )) by {
            assert(a.cached(i));
            assert(a.procs_contains(a.cache_at(i).processor_key as int));
            assert forall|q: int|
                0 <= q < b.cache_at(i).parameter_value_keys@.len() implies b.params_contains(
                #[trigger] b.cache_at(i).parameter_value_keys@[q] as int,
            ) by {
                assert(a.params_contains(a.cache_at(i).parameter_value_keys@[q] as int));
            }
        }
    }

    /// A state with the same class index serves the same classes.
    pub proof fn lemma_classes_transfer(a: Self, b: Self)
        requires
            b.spec_factory_classes() == a.spec_factory_classes(),
        ensures
            forall|cl: Seq<char>| a.class_registered(cl) ==> b.class_registered(cl),
    {
        assert forall|cl: Seq<char>| a.class_registered(cl) implies b.class_registered(cl) by {
            let j = choose|j: int|
                0 <= j < a.spec_factory_classes().len()
                    && (#[trigger] a.spec_factory_classes()[j]).0@ == cl;
            assert((b.spec_factory_classes()[j]).0@ == cl);
        }
    }

    /// A state with the same class index resolves every class to the same
    /// slot.
    pub proof fn lemma_resolves_transfer(a: Self, b: Self)
        requires
            b.spec_factory_classes() == a.spec_factory_classes(),
        ensures
            forall|cl: Seq<char>, ix: int|
                a.resolves_class(cl, ix) ==> b.resolves_class(cl, ix),
    {
        assert forall|cl: Seq<char>, ix: int| a.resolves_class(cl, ix) implies b.resolves_class(
            cl,
            ix,
        ) by {
            let j = choose|j: int|
                0 <= j < a.spec_factory_classes().len()
                    && (#[trigger] a.spec_factory_classes()[j]).0@ == cl
                    && a.spec_factory_classes()[j].1 == ix && (forall|j2: int|
                    0 <= j2 < j ==> (#[trigger] a.spec_factory_classes()[j2]).0@ != cl);
            assert((b.spec_factory_classes()[j]).0@ == cl);
            assert forall|j2: int| 0 <= j2 < j implies (
            #[trigger] b.spec_factory_classes()[j2]).0@ != cl by {
                assert(a.spec_factory_classes()[j2] == b.spec_factory_classes()[j2]);
            }
        }
    }

    /// The operation sequence of the finished plan: one processor operation
    /// per node in dependency order, then one output operation per bound
    /// output alias carrying the source port's buffer list.
    pub open spec fn plan_ops(&self, g: &Graph) -> Seq<OpView> {
        Seq::new(g.nodes@.len(), |i: int| self.cache_at(i).render_ops@[0]@) + g.bound_outputs@
            .map_values(
            |b: (String, crate::graph::AudioOutRef)|
                OpView::Output {
                    alias: b.0@,
                    audio_input: self.cache_at(
                        b.1.node_ref as int,
                    ).audio_output_buffers@[b.1.audio_port_key as int]@,
                },
        )
    }

    /// A new controller: empty registries and caches, and one preallocated
    /// empty buffer whose key is never given out for writing.
    pub fn new(
        tx: ringbuf::Producer<Message>,
        rx: ringbuf::Consumer<Message>,
        config: EngineConfig,
    ) -> (r: Self)
        ensures
            r.wf(),
            r.spec_nodes().len() == 0,
            r.spec_config() == config,
            r.spec_parameters_len() == 0,
            r.spec_processors_len() == 0,
            r.spec_buffers_len() == 1,
            r.spec_buffer_count() == 1,
            r.spec_empty_buffer() == 0,
            r.spec_factory_classes().len() == 0,
            r.spec_factories().len() == 0,
            r.spec_buffers() == seq![Some(Buffer { size: config.buffer_size })],
    {
        let mut buffers: Registry<Buffer> = Registry::new();
        let empty_buffer = buffers.add(Buffer::new(config.buffer_size));
        proof {
            assert(buffers.slots()[0] is Some);
            assert(Registry::<Buffer>::live_count(buffers.slots(), 0) == 0);
            assert(Registry::<Buffer>::live_count(buffers.slots(), 1) == 1);
            assert(buffers.slots() =~= seq![Some(Buffer { size: config.buffer_size })]);
        }
        Controller {
            tx,
            rx,
            config,
            parameters: Registry::new(),
            factories: Vec::new(),
            factory_classes: Vec::new(),
            processors: Registry::new(),
            buffers,
            empty_buffer,
            nodes: Vec::new(),
        }
    }

    /// Number of live parameter value cells.
    pub fn parameters_len(&self) -> (r: usize)
        ensures
            r == self.spec_parameters_len(),
    {
        self.parameters.len()
    }

    /// Number of live processors.
    pub fn processors_len(&self) -> (r: usize)
        ensures
            r == self.spec_processors_len(),
    {
        self.processors.len()
    }

    /// Number of live buffers (the empty buffer included).
    pub fn buffers_len(&self) -> (r: usize)
        ensures
            r == self.spec_buffers_len(),
    {
        self.buffers.len()
    }

    /// Key of the preallocated empty buffer.
    pub fn empty_buffer_key(&self) -> (r: usize)
        ensures
            r == self.spec_empty_buffer(),
    {
        self.empty_buffer
    }

    /// The cache of a node, if the planner has seen the node.
    pub fn node_cache(&self, node_ref: usize) -> (r: Option<&NodeCache>)
        ensures
            self.cached(node_ref as int) ==> (r matches Some(nc) && *nc == self.cache_at(
                node_ref as int,
            )),
            !self.cached(node_ref as int) ==> r is None,
    {
        if node_ref < self.nodes.len() {
            self.nodes[node_ref].as_ref()
        } else {
            None
        }
    }

    /// Register a factory under every class it supports; a later
    /// registration for the same class overwrites the earlier one.
    pub fn register_processor_factory(&mut self, factory: F)
        requires
            old(self).wf(),
        ensures
            final(self).wf(),
            final(self).spec_nodes() == old(self).spec_nodes(),
            final(self).spec_config() == old(self).spec_config(),
            final(self).spec_empty_buffer() == old(self).spec_empty_buffer(),
            final(self).spec_buffers() == old(self).spec_buffers(),
            final(self).spec_parameters_len() == old(self).spec_parameters_len(),
            final(self).spec_processors_len() == old(self).spec_processors_len(),
            final(self).spec_factories() == old(self).spec_factories().push(factory),
            final(self).spec_factories_len() == old(self).spec_factories_len() + 1,
            forall|k: int|
                old(self).params_contains(k) ==> final(self).params_contains(k)
                    && final(self).param_at(k) == old(self).param_at(k),
            forall|cl: Seq<char>|
                old(self).class_registered(cl) ==> final(self).class_registered(cl),
            forall|cl: Seq<char>, ix: int|
                old(self).resolves_class(cl, ix) ==> final(self).resolves_class(cl, ix)
                    || final(self).resolves_class(cl, old(self).spec_factories_len() as int),
    {
        let classes = factory.supported_classes();
        let index = self.factories.len();
        self.factories.push(factory);
        proof {
            Self::lemma_wf_preserved(*old(self), *self);
            Self::lemma_classes_transfer(*old(self), *self);
            Self::lemma_resolves_transfer(*old(self), *self);
        }
        let mut j: usize = 0;
        while j < classes.len()
            invariant
                self.wf(),
                (index as int) < self.spec_factories_len(),
                index == old(self).spec_factories_len(),
                self.nodes@ == old(self).nodes@,
                self.config == old(self).config,
                self.empty_buffer == old(self).empty_buffer,
                self.parameters == old(self).parameters,
                self.processors == old(self).processors,
                self.buffers == old(self).buffers,
                self.spec_factories() == old(self).spec_factories().push(factory),
                forall|cl: Seq<char>|
                    old(self).class_registered(cl) ==> self.class_registered(cl),
                forall|cl: Seq<char>, ix: int|
                    old(self).resolves_class(cl, ix) ==> self.resolves_class(cl, ix)
                        || self.resolves_class(cl, index as int),
                j <= classes@.len(),
            decreases classes@.len() - j,
        {
            let cl = classes[j].clone();
            let ghost cl_v = cl@;
            let ghost before = *self;
            self.register_class(cl, index);
            proof {
                assert forall|cl2: Seq<char>, ix: int|
                    old(self).resolves_class(cl2, ix) implies self.resolves_class(cl2, ix)
                    || self.resolves_class(cl2, index as int) by {
                    if cl2 == cl_v {
                        assert(self.resolves_class(cl2, index as int));
                    } else {
                        assert(before.resolves_class(cl2, ix) || before.resolves_class(
                            cl2,
                            index as int,
                        ));
                    }
                }
            }
            j = j + 1;
        }
    }

    /// Index one class name to one factory slot, overwriting an earlier
    /// registration of the same class.
    fn register_class(&mut self, class: String, index: usize)
        requires
            old(self).wf(),
            (index as int) < old(self).spec_factories_len(),
        ensures
            final(self).wf(),
            final(self).spec_nodes() == old(self).spec_nodes(),
            final(self).spec_config() == old(self).spec_config(),
            final(self).spec_empty_buffer() == old(self).spec_empty_buffer(),
            final(self).parameters == old(self).parameters,
            final(self).processors == old(self).processors,
            final(self).buffers == old(self).buffers,
            final(self).spec_factories_len() == old(self).spec_factories_len(),
            final(self).spec_factories() == old(self).spec_factories(),
            final(self).class_registered(class@),
            final(self).resolves_class(class@, index as int),
            forall|cl: Seq<char>, ix: int|
                cl != class@ ==> (old(self).resolves_class(cl, ix)
                    <==> final(self).resolves_class(cl, ix)),
            forall|cl: Seq<char>|
                old(self).class_registered(cl) ==> final(self).class_registered(cl),
    {
        let mut j: usize = 0;
        while j < self.factory_classes.len()
            invariant
                self.wf(),
                (index as int) < self.spec_factories_len(),
                j <= self.factory_classes@.len(),
                *self == *old(self),
                forall|j2: int|
                    0 <= j2 < j ==> (#[trigger] self.spec_factory_classes()[j2]).0@ != class@,
            decreases self.factory_classes@.len() - j,
        {
            if self.factory_classes[j].0.eq(&class) {
                let ghost pre = self.factory_classes@;
                let entry = self.factory_classes.remove(j);
                self.factory_classes.insert(j, (entry.0, index));
                proof {
                    assert(self.factory_classes@ =~= pre.update(
                        j as int,
                        (pre[j as int].0, index),
                    ));
                    assert forall|j2: int|
                        0 <= j2 < self.spec_factory_classes().len() implies ((
                    #[trigger] self.spec_factory_classes()[j2]).1 as int)
                        < self.spec_factories_len() by {
                        if j2 != j {
                            assert(self.spec_factory_classes()[j2] == old(
                                self,
                            ).spec_factory_classes()[j2]);
                        }
                    }
                    Self::lemma_caches_keys_wf_preserved(*old(self), *self);
                    assert(self.spec_factory_classes()[j as int].0@ == class@);
                    assert(self.spec_factory_classes()[j as int].1 == index);
                    assert forall|j3: int| 0 <= j3 < j implies (
                    #[trigger] self.spec_factory_classes()[j3]).0@ != class@ by {
                        assert(self.spec_factory_classes()[j3] == old(
                            self,
                        ).spec_factory_classes()[j3]);
                    }
                    assert(self.resolves_class(class@, index as int));
                    assert forall|cl: Seq<char>|
                        old(self).class_registered(cl) implies self.class_registered(cl) by {
                        let j2 = choose|j2: int|
                            0 <= j2 < old(self).spec_factory_classes().len()
                                && (#[trigger] old(self).spec_factory_classes()[j2]).0@ == cl;
                        if j2 == j {
                            assert(self.spec_factory_classes()[j as int].0@ == cl);
                        } else {
                            assert(self.spec_factory_classes()[j2].0@ == cl);
                        }
                    }
                    assert forall|cl: Seq<char>, ix: int|
                        cl != class@ implies (old(self).resolves_class(cl, ix) <==> self
                        .resolves_class(cl, ix)) by {
                        if old(self).resolves_class(cl, ix) {
                            let j2 = choose|j2: int|
                                0 <= j2 < old(self).spec_factory_classes().len()
                                    && (#[trigger] old(self).spec_factory_classes()[j2]).0@ == cl
                                    && old(self).spec_factory_classes()[j2].1 == ix && (forall|
                                    j3: int,
                                |
                                    0 <= j3 < j2 ==> (#[trigger] old(
                                        self,
                                    ).spec_factory_classes()[j3]).0@ != cl);
                            assert(j2 != j);
                            assert((self.spec_factory_classes()[j2]).0@ == cl);
                            assert forall|j3: int| 0 <= j3 < j2 implies (
                            #[trigger] self.spec_factory_classes()[j3]).0@ != cl by {
                                if j3 == j {
                                } else {
                                    assert(self.spec_factory_classes()[j3] == old(
                                        self,
                                    ).spec_factory_classes()[j3]);
                                }
                            }
                            assert(self.resolves_class(cl, ix));
                        }
                        if self.resolves_class(cl, ix) {
                            let j2 = choose|j2: int|
                                0 <= j2 < self.spec_factory_classes().len()
                                    && (#[trigger] self.spec_factory_classes()[j2]).0@ == cl
                                    && self.spec_factory_classes()[j2].1 == ix && (forall|
                                    j3: int,
                                |
                                    0 <= j3 < j2 ==> (
                                    #[trigger] self.spec_factory_classes()[j3]).0@ != cl);
                            assert(j2 != j);
                            assert((old(self).spec_factory_classes()[j2]).0@ == cl);
                            assert forall|j3: int| 0 <= j3 < j2 implies (
                            #[trigger] old(self).spec_factory_classes()[j3]).0@ != cl by {
                                if j3 == j {
                                } else {
                                    assert(old(self).spec_factory_classes()[j3]
                                        == self.spec_factory_classes()[j3]);
                                }
                            }
                            assert(old(self).resolves_class(cl, ix));
                        }
                    }
                }
                return;
            }
            j = j + 1;
        }
        let ghost pre = self.factory_classes@;
        self.factory_classes.push((class, index));
        proof {
            assert forall|j2: int|
                0 <= j2 < self.spec_factory_classes().len() implies ((
            #[trigger] self.spec_factory_classes()[j2]).1 as int) < self.spec_factories_len() by {
                if j2 < pre.len() {
                    assert(self.spec_factory_classes()[j2] == old(self).spec_factory_classes()[j2]);
                }
            }
            Self::lemma_caches_keys_wf_preserved(*old(self), *self);
            assert(self.spec_factory_classes()[pre.len() as int].0@ == class@);
            assert(self.spec_factory_classes()[pre.len() as int].1 == index);
            assert forall|j3: int| 0 <= j3 < pre.len() implies (
            #[trigger] self.spec_factory_classes()[j3]).0@ != class@ by {
                assert(self.spec_factory_classes()[j3] == old(self).spec_factory_classes()[j3]);
            }
            assert(self.resolves_class(class@, index as int));
            assert forall|cl: Seq<char>|
                old(self).class_registered(cl) implies self.class_registered(cl) by {
                let j2 = choose|j2: int|
                    0 <= j2 < old(self).spec_factory_classes().len()
                        && (#[trigger] old(self).spec_factory_classes()[j2]).0@ == cl;
                assert(self.spec_factory_classes()[j2].0@ == cl);
            }
            assert forall|cl: Seq<char>, ix: int|
                cl != class@ implies (old(self).resolves_class(cl, ix) <==> self.resolves_class(
                cl,
                ix,
            )) by {
                if old(self).resolves_class(cl, ix) {
                    let j2 = choose|j2: int|
                        0 <= j2 < old(self).spec_factory_classes().len()
                            && (#[trigger] old(self).spec_factory_classes()[j2]).0@ == cl && old(
                            self,
                        ).spec_factory_classes()[j2].1 == ix && (forall|j3: int|
                            0 <= j3 < j2 ==> (#[trigger] old(self).spec_factory_classes()[j3]).0@
                                != cl);
                    assert((self.spec_factory_classes()[j2]).0@ == cl);
                    assert forall|j3: int| 0 <= j3 < j2 implies (
                    #[trigger] self.spec_factory_classes()[j3]).0@ != cl by {
                        assert(self.spec_factory_classes()[j3] == old(
                            self,
                        ).spec_factory_classes()[j3]);
                    }
                    assert(self.resolves_class(cl, ix));
                }
                if self.resolves_class(cl, ix) {
                    let j2 = choose|j2: int|
                        0 <= j2 < self.spec_factory_classes().len()
                            && (#[trigger] self.spec_factory_classes()[j2]).0@ == cl
                            && self.spec_factory_classes()[j2].1 == ix && (forall|j3: int|
                            0 <= j3 < j2 ==> (#[trigger] self.spec_factory_classes()[j3]).0@
                                != cl);
                    assert(j2 != pre.len());
                    assert((old(self).spec_factory_classes()[j2]).0@ == cl);
                    assert forall|j3: int| 0 <= j3 < j2 implies (
                    #[trigger] old(self).spec_factory_classes()[j3]).0@ != cl by {
                        assert(old(self).spec_factory_classes()[j3]
                            == self.spec_factory_classes()[j3]);
                    }
                    assert(old(self).resolves_class(cl, ix));
                }
            }
        }
    }

    /// The value of one parameter cell.
    pub fn get_param_value(&self, param_key: usize) -> (r: Result<ParamValue, ControllerError>)
        ensures
            self.params_contains(param_key as int) ==> r == Ok::<ParamValue, ControllerError>(
                self.param_at(param_key as int),
            ),
            !self.params_contains(param_key as int) ==> r == Err::<ParamValue, ControllerError>(
                ControllerError::ParamValueNotFound(param_key),
            ),
    {
        match self.parameters.get(param_key) {
            Some(v) => Ok(*v),
            None => Err(ControllerError::ParamValueNotFound(param_key)),
        }
    }

    /// Store a new value in the parameter cell serving one parameter port.
    /// Succeeds exactly when the node has a cache that knows the port; the
    /// cell then holds the written value until the next write.
    pub fn set_param_value(&mut self, param: ParamRef, value: u32) -> (r: Result<
        (),
        ControllerError,
    >)
        requires
            old(self).wf(),
        ensures
            final(self).wf(),
            r is Ok <==> old(self).has_param(param),
            !old(self).cached(param.node_ref as int) ==> r == Err::<(), ControllerError>(
                ControllerError::NodeCacheNotFound(param.node_ref),
            ),
            old(self).cached(param.node_ref as int) && (param.param_port_key as int) >= old(
                self,
            ).cache_at(param.node_ref as int).parameter_value_keys@.len() ==> r == Err::<
                (),
                ControllerError,
            >(ControllerError::ParamValueKeyNotFound(param.param_port_key)),
            r is Ok ==> ({
                let key = old(self).param_key_of(param);
                &&& final(self).params_contains(key as int)
                &&& final(self).param_at(key as int) == ParamValue { bits: value }
                &&& forall|k: int|
                    old(self).params_contains(k) ==> final(self).params_contains(k) && (k
                        != key ==> final(self).param_at(k) == old(self).param_at(k))
            }),
            r is Err ==> *final(self) == *old(self),
            final(self).spec_nodes() == old(self).spec_nodes(),
            final(self).spec_config() == old(self).spec_config(),
            final(self).spec_empty_buffer() == old(self).spec_empty_buffer(),
            final(self).spec_buffers() == old(self).spec_buffers(),
            final(self).spec_buffers_len() == old(self).spec_buffers_len(),
            final(self).spec_processors_len() == old(self).spec_processors_len(),
            final(self).spec_parameters_len() == old(self).spec_parameters_len(),
            final(self).spec_factories() == old(self).spec_factories(),
            final(self).spec_factory_classes() == old(self).spec_factory_classes(),
    {
        let nc = match self.node_cache(param.node_ref) {
            Some(nc) => nc,
            None => {
                return Err(ControllerError::NodeCacheNotFound(param.node_ref));
            },
        };
        let key = match nc.get_param_key(param.param_port_key) {
            Ok(key) => key,
            Err(e) => {
                return Err(e);
            },
        };
        proof {
            assert(old(self).cached(param.node_ref as int));
            assert(key == old(self).cache_at(param.node_ref as int).parameter_value_keys@[
                param.param_port_key as int
            ]);
            assert(old(self).params_contains(key as int));
        }
        let updated = self.parameters.set(key, ParamValue::new(value));
        if updated {
            proof {
                Registry::<ParamValue>::lemma_live_count_update(
                    old(self).parameters.slots(),
                    key as int,
                    ParamValue { bits: value },
                );
                Self::lemma_wf_preserved(*old(self), *self);
            }
            Ok(())
        } else {
            Err(ControllerError::ParamValueNotFound(key))
        }
    }

    /// Drain and destroy the plans the renderer has sent back. Runs on the
    /// control thread; the rest of the controller state is untouched.
    pub fn process_messages(&mut self)
        requires
            old(self).wf(),
        ensures
            final(self).wf(),
            final(self).spec_nodes() == old(self).spec_nodes(),
            final(self).spec_config() == old(self).spec_config(),
            final(self).spec_empty_buffer() == old(self).spec_empty_buffer(),
            final(self).spec_buffers() == old(self).spec_buffers(),
            final(self).spec_buffers_len() == old(self).spec_buffers_len(),
            final(self).spec_processors_len() == old(self).spec_processors_len(),
            final(self).spec_parameters_len() == old(self).spec_parameters_len(),
            final(self).spec_factories() == old(self).spec_factories(),
            final(self).spec_factory_classes() == old(self).spec_factory_classes(),
            forall|k: int|
                old(self).params_contains(k) ==> final(self).params_contains(k)
                    && final(self).param_at(k) == old(self).param_at(k),
    {
        ring_drain(&mut self.rx);
        proof {
            Self::lemma_wf_preserved(*old(self), *self);
        }
    }

    /// Consistency of one node's cache depends only on that cache's core,
    /// its sources' cores, and the empty buffer key: releasing ownership
    /// sets or touching unrelated nodes cannot break it.
    pub proof fn lemma_consistent_preserved(a: Self, b: Self, g: &Graph, i: int)
        requires
            0 <= i < g.nodes@.len(),
            g.node_wf(i),
            a.node_cache_consistent(g, i),
            b.spec_empty_buffer() == a.spec_empty_buffer(),
            b.cached(i),
            cache_core_eq(a.cache_at(i), b.cache_at(i)),
            forall|k: int|
                0 <= k < g.nodes@[i].spec_sources().len() ==> b.cached(
                    #[trigger] g.nodes@[i].spec_sources()[k] as int,
                ) && cache_core_eq(
                    a.cache_at(g.nodes@[i].spec_sources()[k] as int),
                    b.cache_at(g.nodes@[i].spec_sources()[k] as int),
                ),
            forall|k: int|
                0 <= k < g.nodes@[i].spec_sources().len() ==> a.cache_at(
                    #[trigger] g.nodes@[i].spec_sources()[k] as int,
                ).audio_output_buffers@.len() == g.nodes@[g.nodes@[i].spec_sources()[
                    k
                ] as int].audio_outputs@.len(),
        ensures
            b.node_cache_consistent(g, i),
    {
        let n = g.nodes@[i];
        let nca = a.cache_at(i);
        let ncb = b.cache_at(i);
        lemma_bufs_view_index(nca.audio_output_buffers@, ncb.audio_output_buffers@);
        lemma_ops_view_index(nca.render_ops@, ncb.render_ops@);
        assert(ncb.render_ops@[0]@ == nca.render_ops@[0]@);
        assert forall|k: int| 0 <= k < n.spec_sources().len() implies ({
            let s = (#[trigger] n.spec_sources()[k]) as int;
            b.cached(s) && a.cache_at(s).audio_output_buffers@.len() == b.cache_at(
                s,
            ).audio_output_buffers@.len() && (forall|p: int|
                0 <= p < a.cache_at(s).audio_output_buffers@.len() ==> (#[trigger] a.cache_at(
                    s,
                ).audio_output_buffers@[p])@ == b.cache_at(s).audio_output_buffers@[p]@)
        }) by {
            let s = n.spec_sources()[k] as int;
            lemma_bufs_view_index(
                a.cache_at(s).audio_output_buffers@,
                b.cache_at(s).audio_output_buffers@,
            );
        }
        assert(b.expected_inputs(g, i) =~= a.expected_inputs(g, i)) by {
            assert forall|x: int| 0 <= x < n.audio_inputs@.len() implies b.expected_inputs(g, i)[x]
                == a.expected_inputs(g, i)[x] by {
                match n.audio_inputs@[x].connection {
                    None => {
                        assert(Seq::new(
                            n.audio_inputs@[x].channels as nat,
                            |ch: int| b.spec_empty_buffer(),
                        ) =~= Seq::new(
                            n.audio_inputs@[x].channels as nat,
                            |ch: int| a.spec_empty_buffer(),
                        ));
                    },
                    Some(aor) => {
                        n.lemma_connection_in_sources(aor);
                        let s = aor.node_ref as int;
                        let k = choose|k: int|
                            0 <= k < n.spec_sources().len() && n.spec_sources()[k]
                                == aor.node_ref;
                        assert(n.spec_sources()[k] as int == s);
                        assert(g.conn_ok(i, aor));
                        assert((aor.audio_port_key as int) < a.cache_at(
                            s,
                        ).audio_output_buffers@.len());
                        assert(cache_core_eq(a.cache_at(s), b.cache_at(s)));
                        lemma_bufs_view_index(
                            a.cache_at(s).audio_output_buffers@,
                            b.cache_at(s).audio_output_buffers@,
                        );
                    },
                }
            }
        }
        assert(b.expected_outputs(g, i) =~= a.expected_outputs(g, i)) by {
            assert forall|p: int| 0 <= p < n.audio_outputs@.len() implies b.expected_outputs(g, i)[
                p
            ] == a.expected_outputs(g, i)[p] by {
                assert(ncb.audio_output_buffers@[p]@ == nca.audio_output_buffers@[p]@);
            }
        }
        assert(b.expected_inputs(g, i) == a.expected_inputs(g, i));
        assert(b.expected_outputs(g, i) == a.expected_outputs(g, i));
        assert forall|p: int|
            0 <= p < n.audio_outputs@.len() implies (#[trigger] ncb.audio_output_buffers@[p])@.len()
            == n.audio_outputs@[p].channels by {
            assert(nca.audio_output_buffers@[p]@ == ncb.audio_output_buffers@[p]@);
        }
        assert forall|q: int|
            0 <= q < n.params@.len() implies b.param_entry_ok(
            g,
            i,
            #[trigger] (ncb.render_ops@[0]@->Processor_parameters)[q],
            q,
        ) by {
            assert((ncb.render_ops@[0]@->Processor_parameters)[q] == (
            nca.render_ops@[0]@->Processor_parameters)[q]);
            assert(a.param_entry_ok(g, i, (nca.render_ops@[0]@->Processor_parameters)[q], q));
            match n.params@[q].connection {
                None => {},
                Some(aor) => {
                    n.lemma_connection_in_sources(aor);
                    let s = aor.node_ref as int;
                    let k = choose|k: int|
                        0 <= k < n.spec_sources().len() && n.spec_sources()[k] == aor.node_ref;
                    assert(n.spec_sources()[k] as int == s);
                    assert(g.conn_ok(i, aor));
                    assert((aor.audio_port_key as int) < a.cache_at(
                        s,
                    ).audio_output_buffers@.len());
                    assert(cache_core_eq(a.cache_at(s), b.cache_at(s)));
                    lemma_bufs_view_index(
                        a.cache_at(s).audio_output_buffers@,
                        b.cache_at(s).audio_output_buffers@,
                    );
                },
            }
        }
    }

    /// Make sure the cache slot list reaches a node reference; new slots are
    /// empty.
    fn ensure_slot(&mut self, node_ref: usize)
        ensures
            final(self).nodes@.len() > node_ref as int,
            final(self).nodes@.len() >= old(self).nodes@.len(),
            forall|j: int|
                0 <= j < old(self).nodes@.len() ==> final(self).nodes@[j] == old(self).nodes@[j],
            forall|j: int|
                old(self).nodes@.len() <= j < final(self).nodes@.len() ==> final(self).nodes@[j]
                    is None,
            final(self).parameters == old(self).parameters,
            final(self).processors == old(self).processors,
            final(self).buffers == old(self).buffers,
            final(self).factories@ == old(self).factories@,
            final(self).factory_classes@ == old(self).factory_classes@,
            final(self).config == old(self).config,
            final(self).empty_buffer == old(self).empty_buffer,
    {
        while self.nodes.len() <= node_ref
            invariant
                self.nodes@.len() >= old(self).nodes@.len(),
                forall|j: int|
                    0 <= j < old(self).nodes@.len() ==> self.nodes@[j] == old(self).nodes@[j],
                forall|j: int|
                    old(self).nodes@.len() <= j < self.nodes@.len() ==> self.nodes@[j] is None,
                self.parameters == old(self).parameters,
                self.processors == old(self).processors,
                self.buffers == old(self).buffers,
                self.factories@ == old(self).factories@,
                self.factory_classes@ == old(self).factory_classes@,
                self.config == old(self).config,
                self.empty_buffer == old(self).empty_buffer,
            decreases node_ref + 1 - self.nodes@.len(),
        {
            self.nodes.push(None);
        }
    }

    /// The slot of the factory registered for a class, if any.
    fn find_factory(&self, class: &String) -> (r: Option<usize>)
        requires
            self.classes_wf(),
        ensures
            r matches Some(ix) ==> (ix as int) < self.factories@.len() && self.resolves_class(
                class@,
                ix as int,
            ) && self.class_registered(class@),
            r is None ==> !self.class_registered(class@),
    {
        let mut j: usize = 0;
        while j < self.factory_classes.len()
            invariant
                self.classes_wf(),
                j <= self.factory_classes@.len(),
                forall|j2: int|
                    0 <= j2 < j ==> (#[trigger] self.spec_factory_classes()[j2]).0@ != class@,
            decreases self.factory_classes@.len() - j,
        {
            if self.factory_classes[j].0.eq(class) {
                proof {
                    assert((#[trigger] self.spec_factory_classes()[j as int]).0@ == class@);
                }
                return Some(self.factory_classes[j].1);
            }
            j = j + 1;
        }
        None
    }

    /// Build the cache skeleton for a node seen for the first time: create
    /// its processor through the factory registered for its class, and one
    /// parameter value cell per parameter port, each initialized to the
    /// port's initial value.
    fn create_node(&mut self, node_ref: usize, graph: &Graph) -> (r: Result<
        NodeCache,
        ControllerError,
    >)
        requires
            old(self).wf(),
            (node_ref as int) < graph.nodes@.len(),
        ensures
            final(self).wf(),
            final(self).nodes@ == old(self).nodes@,
            final(self).factories@ == old(self).factories@,
            final(self).factory_classes@ == old(self).factory_classes@,
            final(self).config == old(self).config,
            final(self).empty_buffer == old(self).empty_buffer,
            final(self).buffers == old(self).buffers,
            forall|k: int|
                old(self).params_contains(k) ==> final(self).params_contains(k)
                    && final(self).param_at(k) == old(self).param_at(k),
            forall|k: int| old(self).procs_contains(k) ==> final(self).procs_contains(k),
            r matches Ok(nc) ==> ({
                let n = graph.nodes@[node_ref as int];
                &&& nc.parameter_value_keys@.len() == n.params@.len()
                &&& nc.render_ops@.len() == 0
                &&& nc.audio_output_buffers@.len() == 0
                &&& nc.allocated_buffers@.len() == 0
                &&& final(self).procs_contains(nc.processor_key as int)
                &&& !old(self).procs_contains(nc.processor_key as int)
                &&& final(self).spec_processors_len() == old(self).spec_processors_len() + 1
                &&& final(self).spec_parameters_len() == old(self).spec_parameters_len()
                    + n.params@.len()
                &&& final(self).spec_params_key_space() == old(self).spec_params_key_space()
                    + n.params@.len()
                &&& forall|q: int|
                    0 <= q < n.params@.len() ==> (#[trigger] nc.parameter_value_keys@[q]) == old(
                        self,
                    ).spec_params_key_space() + q
                &&& forall|q: int|
                    0 <= q < n.params@.len() ==> final(self).params_contains(
                        #[trigger] nc.parameter_value_keys@[q] as int,
                    ) && final(self).param_at(nc.parameter_value_keys@[q] as int) == (ParamValue {
                        bits: n.params@[q].initial,
                    })
            }),
            r is Err ==> *final(self) == *old(self),
            r matches Err(e) ==> ({
                let n = graph.nodes@[node_ref as int];
                ||| (e matches ControllerError::ProcessorFactoryNotFound(nm, cl) && nm@
                    == n.spec_ref_string() && cl@ == n.class@ && !old(self).class_registered(
                    n.class@,
                ))
                ||| (e matches ControllerError::ProcessorCreationFailed(nm, cl) && nm@
                    == n.spec_ref_string() && cl@ == n.class@)
            }),
            !old(self).class_registered(graph.nodes@[node_ref as int].class@) <==> (r matches Err(
                e,
            ) && e is ProcessorFactoryNotFound),
    {
        let node = match graph.get_node(node_ref) {
            Some(n) => n,
            None => {
                return Err(ControllerError::NodeNotFound(node_ref));
            },
        };
        let factory_index = match self.find_factory(node.class()) {
            Some(ix) => ix,
            None => {
                return Err(
                    ControllerError::ProcessorFactoryNotFound(
                        node.ref_string(),
                        node.class().clone(),
                    ),
                );
            },
        };
        let processor = match self.factories[factory_index].create(node) {
            Some(p) => p,
            None => {
                return Err(
                    ControllerError::ProcessorCreationFailed(
                        node.ref_string(),
                        node.class().clone(),
                    ),
                );
            },
        };
        let processor_key = self.processors.add(processor);
        let ghost mid = *self;
        let mut parameter_value_keys: Vec<usize> = Vec::new();
        let mut q: usize = 0;
        while q < node.params.len()
            invariant
                q <= node.params@.len(),
                parameter_value_keys@.len() == q,
                *node == graph.nodes@[node_ref as int],
                self.nodes@ == mid.nodes@,
                self.factories@ == mid.factories@,
                self.factory_classes@ == mid.factory_classes@,
                self.config == mid.config,
                self.empty_buffer == mid.empty_buffer,
                self.buffers == mid.buffers,
                self.processors == mid.processors,
                self.spec_parameters_len() == mid.spec_parameters_len() + q,
                self.spec_params_key_space() == mid.spec_params_key_space() + q,
                forall|k: int|
                    mid.params_contains(k) ==> self.params_contains(k) && self.param_at(k)
                        == mid.param_at(k),
                forall|j: int|
                    0 <= j < q ==> (#[trigger] parameter_value_keys@[j])
                        == mid.spec_params_key_space() + j,
                forall|j: int|
                    0 <= j < q ==> self.params_contains(
                        #[trigger] parameter_value_keys@[j] as int,
                    ) && self.param_at(parameter_value_keys@[j] as int) == (ParamValue {
                        bits: node.params@[j].initial,
                    }),
            decreases node.params@.len() - q,
        {
            let key = self.parameters.add(ParamValue::new(node.params[q].initial));
            parameter_value_keys.push(key);
            q = q + 1;
        }
        proof {
            assert(mid.parameters == old(self).parameters);
            assert(mid.spec_params_key_space() == old(self).spec_params_key_space());
            assert(mid.spec_parameters_len() == old(self).spec_parameters_len());
            assert forall|k: int| old(self).params_contains(k) implies self.params_contains(k)
                && self.param_at(k) == old(self).param_at(k) by {
                assert(mid.params_contains(k));
            }
            Self::lemma_wf_preserved(*old(self), *self);
        }
        Ok(NodeCache::new(processor_key, parameter_value_keys))
    }

    /// Return a rebuilt node's buffers to the free pool and clear its
    /// output assignments and render operations; its processor and
    /// parameter keys stay.
    fn clear_node_cache(&mut self, node_ref: usize, context: &mut UpdateContext) -> (r: Result<
        (),
        ControllerError,
    >)
        requires
            old(self).cached(node_ref as int),
        ensures
            r is Ok,
            final(self).nodes@.len() == old(self).nodes@.len(),
            forall|j: int|
                0 <= j < old(self).nodes@.len() && j != node_ref ==> final(self).nodes@[j] == old(
                    self,
                ).nodes@[j],
            final(self).cached(node_ref as int),
            ({
                let nc0 = old(self).cache_at(node_ref as int);
                let nc1 = final(self).cache_at(node_ref as int);
                &&& nc1.processor_key == nc0.processor_key
                &&& nc1.parameter_value_keys@ == nc0.parameter_value_keys@
                &&& nc1.audio_output_buffers@.len() == 0
                &&& nc1.allocated_buffers@.len() == 0
                &&& nc1.render_ops@.len() == 0
            }),
            final(self).parameters == old(self).parameters,
            final(self).processors == old(self).processors,
            final(self).buffers == old(self).buffers,
            final(self).factories@ == old(self).factories@,
            final(self).factory_classes@ == old(self).factory_classes@,
            final(self).config == old(self).config,
            final(self).empty_buffer == old(self).empty_buffer,
            final(context).destination_counts@ == old(context).destination_counts@,
            forall|x: usize|
                final(context).free_buffers@.contains(x) <==> (old(context).free_buffers@
                    .contains(x) || old(self).cache_at(
                    node_ref as int,
                ).allocated_buffers@.contains(x)),
    {
        let mut slot: Option<NodeCache> = None;
        self.nodes.set_and_swap(node_ref, &mut slot);
        match slot {
            Some(mut cache) => {
                proof {
                    assert(cache == old(self).cache_at(node_ref as int));
                }
                let ghost alloc0 = cache.allocated_buffers@;
                let ghost ctx0 = *context;
                context.add_to_free_buffers(&cache.allocated_buffers);
                proof {
                    assert(alloc0 == old(self).cache_at(node_ref as int).allocated_buffers@);
                }
                cache.allocated_buffers = Vec::new();
                cache.audio_output_buffers = Vec::new();
                cache.render_ops = Vec::new();
                self.nodes.set(node_ref, Some(cache));
                Ok(())
            },
            None => Err(ControllerError::NodeCacheNotFound(node_ref)),
        }
    }

    /// A buffer for writing: the most recently freed one, or a new block
    /// when the pool is empty.
    fn allocate_buffer(&mut self, context: &mut UpdateContext) -> (r: usize)
        ensures
            final(self).nodes@ == old(self).nodes@,
            final(self).parameters == old(self).parameters,
            final(self).processors == old(self).processors,
            final(self).factories@ == old(self).factories@,
            final(self).factory_classes@ == old(self).factory_classes@,
            final(self).config == old(self).config,
            final(self).empty_buffer == old(self).empty_buffer,
            final(context).destination_counts@ == old(context).destination_counts@,
            old(context).free_buffers@.len() > 0 ==> (final(context).free_buffers@
                == old(context).free_buffers@.drop_last() && r
                == old(context).free_buffers@.last() && final(self).buffers
                == old(self).buffers),
            old(context).free_buffers@.len() == 0 ==> (final(context).free_buffers@
                == old(context).free_buffers@ && final(self).buffers.slots()
                == old(self).buffers.slots().push(
                Some(Buffer { size: old(self).config.buffer_size }),
            ) && r == old(self).buffers.slots().len()),
            (!old(context).free_buffers@.contains(old(self).spec_empty_buffer()) && (old(
                self,
            ).spec_empty_buffer() as int) < old(self).buffers.slots().len()) ==> r != old(
                self,
            ).spec_empty_buffer(),
    {
        match context.free_buffers.pop() {
            Some(key) => key,
            None => self.buffers.add(Buffer::new(self.config.buffer_size)),
        }
    }

    /// One slice buffer per unconnected parameter port; connected ports get
    /// none.
    fn allocate_param_value_buffers(&mut self, node: &Node, context: &mut UpdateContext) -> (r:
        Vec<Option<usize>>)
        ensures
            r@.len() == node.params@.len(),
            forall|q: int|
                0 <= q < r@.len() ==> ((#[trigger] r@[q]) is Some <==> node.params@[q].connection
                    is None),
            (!old(context).free_buffers@.contains(old(self).spec_empty_buffer()) && (old(
                self,
            ).spec_empty_buffer() as int) < old(self).buffers.slots().len()) ==> (forall|q: int|
                0 <= q < r@.len() && (#[trigger] r@[q]) is Some ==> r@[q]->Some_0 != old(
                    self,
                ).spec_empty_buffer()) && !final(context).free_buffers@.contains(
                old(self).spec_empty_buffer(),
            ) && (old(self).spec_empty_buffer() as int) < final(self).buffers.slots().len(),
            final(self).nodes@ == old(self).nodes@,
            final(self).parameters == old(self).parameters,
            final(self).processors == old(self).processors,
            final(self).factories@ == old(self).factories@,
            final(self).factory_classes@ == old(self).factory_classes@,
            final(self).config == old(self).config,
            final(self).empty_buffer == old(self).empty_buffer,
            final(context).destination_counts@ == old(context).destination_counts@,
    {
        let mut r: Vec<Option<usize>> = Vec::new();
        let mut q: usize = 0;
        while q < node.params.len()
            invariant
                q <= node.params@.len(),
                r@.len() == q,
                forall|j: int|
                    0 <= j < q ==> ((#[trigger] r@[j]) is Some <==> node.params@[j].connection
                        is None),
                (!old(context).free_buffers@.contains(old(self).spec_empty_buffer()) && (old(
                    self,
                ).spec_empty_buffer() as int) < old(self).buffers.slots().len()) ==> (forall|
                    j: int,
                |
                    0 <= j < q && (#[trigger] r@[j]) is Some ==> r@[j]->Some_0 != old(
                        self,
                    ).spec_empty_buffer()) && !context.free_buffers@.contains(
                    old(self).spec_empty_buffer(),
                ) && (old(self).spec_empty_buffer() as int) < self.buffers.slots().len(),
                self.nodes@ == old(self).nodes@,
                self.parameters == old(self).parameters,
                self.processors == old(self).processors,
                self.factories@ == old(self).factories@,
                self.factory_classes@ == old(self).factory_classes@,
                self.config == old(self).config,
                self.empty_buffer == old(self).empty_buffer,
                context.destination_counts@ == old(context).destination_counts@,
            decreases node.params@.len() - q,
        {
            let ghost pool_pre = context.free_buffers@;
            match &node.params[q].connection {
                None => {
                    let key = self.allocate_buffer(context);
                    r.push(Some(key));
                },
                Some(_source) => {
                    r.push(None);
                },
            }
            q = q + 1;
            proof {
                if !old(context).free_buffers@.contains(old(self).spec_empty_buffer()) && (old(
                    self,
                ).spec_empty_buffer() as int) < old(self).buffers.slots().len() {
                    if context.free_buffers@.contains(old(self).spec_empty_buffer()) {
                        let j2 = choose|j2: int|
                            0 <= j2 < context.free_buffers@.len() && context.free_buffers@[j2]
                                == old(self).spec_empty_buffer();
                        assert(pool_pre[j2] == old(self).spec_empty_buffer());
                        assert(false);
                    }
                }
            }
        }
        r
    }

    /// The render-port binding of every parameter port: unconnected ports
    /// are bound to their value cell and slice buffer, connected ports to
    /// channel 0 of the source port's buffer list.
    fn build_param_render_ports(
        &self,
        node_ref: usize,
        node: &Node,
        value_buffers: &Vec<Option<usize>>,
    ) -> (r: Result<Vec<(String, ParamRenderPort)>, ControllerError>)
        requires
            self.cached(node_ref as int),
            self.cache_at(node_ref as int).parameter_value_keys@.len() == node.params@.len(),
            value_buffers@.len() == node.params@.len(),
            forall|q: int|
                0 <= q < node.params@.len() ==> ((#[trigger] value_buffers@[q]) is Some
                    <==> node.params@[q].connection is None),
            forall|q: int|
                0 <= q < node.params@.len() && (#[trigger] node.params@[q]).connection is Some
                    ==> ({
                    let aor = node.params@[q].connection->Some_0;
                    &&& self.cached(aor.node_ref as int)
                    &&& (aor.audio_port_key as int) < self.cache_at(
                        aor.node_ref as int,
                    ).audio_output_buffers@.len()
                    &&& self.cache_at(
                        aor.node_ref as int,
                    ).audio_output_buffers@[aor.audio_port_key as int]@.len() >= 1
                }),
        ensures
            r matches Ok(v) && v@.len() == node.params@.len() && (forall|q: int|
                0 <= q < node.params@.len() ==> ({
                    let e = #[trigger] v@[q];
                    &&& e.0@ == node.params@[q].id@
                    &&& match node.params@[q].connection {
                        None => e.1 == (ParamRenderPort::Value {
                            param_value_key: self.cache_at(
                                node_ref as int,
                            ).parameter_value_keys@[q],
                            slice_buffer: value_buffers@[q]->Some_0,
                        }),
                        Some(aor) => e.1 == (ParamRenderPort::Buffer {
                            buffer: self.cache_at(
                                aor.node_ref as int,
                            ).audio_output_buffers@[aor.audio_port_key as int]@[0],
                        }),
                    }
                })),
    {
        let nc = match self.node_cache(node_ref) {
            Some(nc) => nc,
            None => {
                return Err(ControllerError::NodeCacheNotFound(node_ref));
            },
        };
        let mut render_ports: Vec<(String, ParamRenderPort)> = Vec::new();
        let mut q: usize = 0;
        while q < node.params.len()
            invariant
                q <= node.params@.len(),
                render_ports@.len() == q,
                nc == self.cache_at(node_ref as int),
                self.cached(node_ref as int),
                nc.parameter_value_keys@.len() == node.params@.len(),
                value_buffers@.len() == node.params@.len(),
                forall|j: int|
                    0 <= j < node.params@.len() ==> ((#[trigger] value_buffers@[j]) is Some
                        <==> node.params@[j].connection is None),
                forall|j: int|
                    0 <= j < node.params@.len() && (#[trigger] node.params@[j]).connection is Some
                        ==> ({
                        let aor = node.params@[j].connection->Some_0;
                        &&& self.cached(aor.node_ref as int)
                        &&& (aor.audio_port_key as int) < self.cache_at(
                            aor.node_ref as int,
                        ).audio_output_buffers@.len()
                        &&& self.cache_at(
                            aor.node_ref as int,
                        ).audio_output_buffers@[aor.audio_port_key as int]@.len() >= 1
                    }),
                forall|j: int|
                    0 <= j < q ==> ({
                        let e = #[trigger] render_ports@[j];
                        &&& e.0@ == node.params@[j].id@
                        &&& match node.params@[j].connection {
                            None => e.1 == (ParamRenderPort::Value {
                                param_value_key: self.cache_at(
                                    node_ref as int,
                                ).parameter_value_keys@[j],
                                slice_buffer: value_buffers@[j]->Some_0,
                            }),
                            Some(aor) => e.1 == (ParamRenderPort::Buffer {
                                buffer: self.cache_at(
                                    aor.node_ref as int,
                                ).audio_output_buffers@[aor.audio_port_key as int]@[0],
                            }),
                        }
                    }),
            decreases node.params@.len() - q,
        {
            match &node.params[q].connection {
                None => {
                    let key = match nc.get_param_key(q) {
                        Ok(key) => key,
                        Err(e) => {
                            return Err(e);
                        },
                    };
                    let slice_buffer = match &value_buffers[q] {
                        Some(b) => *b,
                        None => {
                            return Err(ControllerError::SliceBufferNotFound(q));
                        },
                    };
                    render_ports.push(
                        (node.params[q].id.clone(), ParamRenderPort::value(key, slice_buffer)),
                    );
                },
                Some(audio_out_ref) => {
                    let aor = *audio_out_ref;
                    let source = match self.node_cache(aor.node_ref) {
                        Some(src) => src,
                        None => {
                            return Err(ControllerError::NodeCacheNotFound(aor.node_ref));
                        },
                    };
                    let buffers = match source.get_audio_output_buffer(aor.audio_port_key) {
                        Ok(b) => b,
                        Err(e) => {
                            return Err(e);
                        },
                    };
                    if buffers.len() == 0 {
                        return Err(ControllerError::AudioOutBufferNotFound(aor.audio_port_key));
                    }
                    render_ports.push(
                        (node.params[q].id.clone(), ParamRenderPort::buffer(buffers[0])),
                    );
                },
            }
            q = q + 1;
        }
        Ok(render_ports)
    }

    /// References to the empty buffer, one per channel.
    fn build_empty_audio_input_buffers(&self, num_channels: usize) -> (r: Vec<usize>)
        ensures
            r@ == Seq::new(num_channels as nat, |ch: int| self.spec_empty_buffer()),
    {
        let mut r: Vec<usize> = Vec::new();
        let mut ch: usize = 0;
        while ch < num_channels
            invariant
                ch <= num_channels,
                r@.len() == ch,
                forall|j: int| 0 <= j < ch ==> r@[j] == self.spec_empty_buffer(),
            decreases num_channels - ch,
        {
            r.push(self.empty_buffer);
            ch = ch + 1;
        }
        proof {
            assert(r@ =~= Seq::new(num_channels as nat, |c: int| self.spec_empty_buffer()));
        }
        r
    }

    /// A copy of the buffer list the connected source port writes.
    fn build_audio_input_buffers(&self, audio_out_ref: &AudioOutRef) -> (r: Result<
        Vec<usize>,
        ControllerError,
    >)
        requires
            self.cached(audio_out_ref.node_ref as int),
            (audio_out_ref.audio_port_key as int) < self.cache_at(
                audio_out_ref.node_ref as int,
            ).audio_output_buffers@.len(),
        ensures
            r matches Ok(v) && v@ == self.cache_at(
                audio_out_ref.node_ref as int,
            ).audio_output_buffers@[audio_out_ref.audio_port_key as int]@,
    {
        let source = match self.node_cache(audio_out_ref.node_ref) {
            Some(src) => src,
            None => {
                return Err(ControllerError::NodeCacheNotFound(audio_out_ref.node_ref));
            },
        };
        let buffers = match source.get_audio_output_buffer(audio_out_ref.audio_port_key) {
            Ok(b) => b,
            Err(e) => {
                return Err(e);
            },
        };
        Ok(copy_keys(buffers))
    }

    /// The buffer list every audio input port reads: the source port's
    /// buffers where connected, the empty buffer per channel where not.
    fn collect_audio_input_buffers(&self, node: &Node) -> (r: Result<
        Vec<(String, Vec<usize>)>,
        ControllerError,
    >)
        requires
            forall|a: int|
                0 <= a < node.audio_inputs@.len() && (#[trigger] node.audio_inputs@[a]).connection
                    is Some ==> ({
                    let aor = node.audio_inputs@[a].connection->Some_0;
                    &&& self.cached(aor.node_ref as int)
                    &&& (aor.audio_port_key as int) < self.cache_at(
                        aor.node_ref as int,
                    ).audio_output_buffers@.len()
                }),
        ensures
            r matches Ok(v) && v@.len() == node.audio_inputs@.len() && (forall|a: int|
                0 <= a < node.audio_inputs@.len() ==> ({
                    let e = #[trigger] v@[a];
                    &&& e.0@ == node.audio_inputs@[a].id@
                    &&& e.1@ == match node.audio_inputs@[a].connection {
                        None => Seq::new(
                            node.audio_inputs@[a].channels as nat,
                            |ch: int| self.spec_empty_buffer(),
                        ),
                        Some(aor) => self.cache_at(
                            aor.node_ref as int,
                        ).audio_output_buffers@[aor.audio_port_key as int]@,
                    }
                })),
    {
        let mut input_buffers: Vec<(String, Vec<usize>)> = Vec::new();
        let mut a: usize = 0;
        while a < node.audio_inputs.len()
            invariant
                a <= node.audio_inputs@.len(),
                input_buffers@.len() == a,
                forall|j: int|
                    0 <= j < node.audio_inputs@.len()
                        && (#[trigger] node.audio_inputs@[j]).connection is Some ==> ({
                        let aor = node.audio_inputs@[j].connection->Some_0;
                        &&& self.cached(aor.node_ref as int)
                        &&& (aor.audio_port_key as int) < self.cache_at(
                            aor.node_ref as int,
                        ).audio_output_buffers@.len()
                    }),
                forall|j: int|
                    0 <= j < a ==> ({
                        let e = #[trigger] input_buffers@[j];
                        &&& e.0@ == node.audio_inputs@[j].id@
                        &&& e.1@ == match node.audio_inputs@[j].connection {
                            None => Seq::new(
                                node.audio_inputs@[j].channels as nat,
                                |ch: int| self.spec_empty_buffer(),
                            ),
                            Some(aor) => self.cache_at(
                                aor.node_ref as int,
                            ).audio_output_buffers@[aor.audio_port_key as int]@,
                        }
                    }),
            decreases node.audio_inputs@.len() - a,
        {
            let port = &node.audio_inputs[a];
            let buffers = match &port.connection {
                None => self.build_empty_audio_input_buffers(port.channels),
                Some(audio_out_ref) => {
                    match self.build_audio_input_buffers(audio_out_ref) {
                        Ok(b) => b,
                        Err(e) => {
                            return Err(e);
                        },
                    }
                },
            };
            input_buffers.push((port.id.clone(), buffers));
            a = a + 1;
        }
        Ok(input_buffers)
    }

    /// Fresh buffers for every channel of every audio output port.
    fn allocate_audio_output_buffers(&mut self, node: &Node, context: &mut UpdateContext) -> (r:
        Vec<(String, Vec<usize>)>)
        ensures
            r@.len() == node.audio_outputs@.len(),
            forall|p: int|
                0 <= p < r@.len() ==> (#[trigger] r@[p]).0@ == node.audio_outputs@[p].id@
                    && r@[p].1@.len() == node.audio_outputs@[p].channels,
            (!old(context).free_buffers@.contains(old(self).spec_empty_buffer()) && (old(
                self,
            ).spec_empty_buffer() as int) < old(self).buffers.slots().len()) ==> (forall|
                p: int,
                c: int,
            |
                0 <= p < r@.len() && 0 <= c < r@[p].1@.len() ==> (#[trigger] r@[p].1@[c]) != old(
                    self,
                ).spec_empty_buffer()) && !final(context).free_buffers@.contains(
                old(self).spec_empty_buffer(),
            ) && (old(self).spec_empty_buffer() as int) < final(self).buffers.slots().len(),
            final(self).nodes@ == old(self).nodes@,
            final(self).parameters == old(self).parameters,
            final(self).processors == old(self).processors,
            final(self).factories@ == old(self).factories@,
            final(self).factory_classes@ == old(self).factory_classes@,
            final(self).config == old(self).config,
            final(self).empty_buffer == old(self).empty_buffer,
            final(context).destination_counts@ == old(context).destination_counts@,
    {
        let mut r: Vec<(String, Vec<usize>)> = Vec::new();
        let mut p: usize = 0;
        while p < node.audio_outputs.len()
            invariant
                p <= node.audio_outputs@.len(),
                r@.len() == p,
                forall|j: int|
                    0 <= j < p ==> (#[trigger] r@[j]).0@ == node.audio_outputs@[j].id@
                        && r@[j].1@.len() == node.audio_outputs@[j].channels,
                (!old(context).free_buffers@.contains(old(self).spec_empty_buffer()) && (old(
                    self,
                ).spec_empty_buffer() as int) < old(self).buffers.slots().len()) ==> (forall|
                    j: int,
                    c: int,
                |
                    0 <= j < p && 0 <= c < r@[j].1@.len() ==> (#[trigger] r@[j].1@[c]) != old(
                        self,
                    ).spec_empty_buffer()) && !context.free_buffers@.contains(
                    old(self).spec_empty_buffer(),
                ) && (old(self).spec_empty_buffer() as int) < self.buffers.slots().len(),
                self.nodes@ == old(self).nodes@,
                self.parameters == old(self).parameters,
                self.processors == old(self).processors,
                self.factories@ == old(self).factories@,
                self.factory_classes@ == old(self).factory_classes@,
                self.config == old(self).config,
                self.empty_buffer == old(self).empty_buffer,
                context.destination_counts@ == old(context).destination_counts@,
            decreases node.audio_outputs@.len() - p,
        {
            let port = &node.audio_outputs[p];
            let mut buffers: Vec<usize> = Vec::new();
            let mut ch: usize = 0;
            while ch < port.channels
                invariant
                    ch <= port.channels,
                    buffers@.len() == ch,
                    (!old(context).free_buffers@.contains(old(self).spec_empty_buffer()) && (old(
                        self,
                    ).spec_empty_buffer() as int) < old(self).buffers.slots().len()) ==> (forall|
                        c: int,
                    |
                        0 <= c < ch ==> (#[trigger] buffers@[c]) != old(
                            self,
                        ).spec_empty_buffer()) && !context.free_buffers@.contains(
                        old(self).spec_empty_buffer(),
                    ) && (old(self).spec_empty_buffer() as int) < self.buffers.slots().len(),
                    self.nodes@ == old(self).nodes@,
                    self.parameters == old(self).parameters,
                    self.processors == old(self).processors,
                    self.factories@ == old(self).factories@,
                    self.factory_classes@ == old(self).factory_classes@,
                    self.config == old(self).config,
                    self.empty_buffer == old(self).empty_buffer,
                    context.destination_counts@ == old(context).destination_counts@,
                decreases port.channels - ch,
            {
                let ghost pool_pre = context.free_buffers@;
                let key = self.allocate_buffer(context);
                buffers.push(key);
                ch = ch + 1;
                proof {
                    if !old(context).free_buffers@.contains(old(self).spec_empty_buffer()) && (
                    old(self).spec_empty_buffer() as int) < old(self).buffers.slots().len() {
                        if context.free_buffers@.contains(old(self).spec_empty_buffer()) {
                            let j2 = choose|j2: int|
                                0 <= j2 < context.free_buffers@.len() && context.free_buffers@[
                                    j2
                                ] == old(self).spec_empty_buffer();
                            assert(pool_pre[j2] == old(self).spec_empty_buffer());
                            assert(false);
                        }
                    }
                }
            }
            r.push((port.id.clone(), buffers));
            p = p + 1;
        }
        r
    }

    /// Release the buffers of every source whose last consumer has now been
    /// planned: decrement its remaining destination count once per
    /// connection and, at zero, return its owned buffers to the free pool
    /// and clear its ownership set. A count already at zero means the
    /// outputs are unreferenced and releasable.
    fn release_input_buffers(&mut self, node: &Node, context: &mut UpdateContext) -> (r: Result<
        (),
        ControllerError,
    >)
        requires
            forall|k: int|
                0 <= k < node.spec_sources().len() ==> old(self).cached(
                    #[trigger] node.spec_sources()[k] as int,
                ),
            forall|k: int|
                0 <= k < node.spec_sources().len() ==> (#[trigger] node.spec_sources()[k] as int)
                    < old(context).destination_counts@.len(),
        ensures
            r is Ok,
            final(self).nodes@.len() == old(self).nodes@.len(),
            forall|j: int| final(self).cached(j) <==> old(self).cached(j),
            forall|j: int|
                #[trigger] old(self).cached(j) ==> cache_core_eq(
                    old(self).cache_at(j),
                    final(self).cache_at(j),
                ) && final(self).cache_at(j).parameter_value_keys@ == old(self).cache_at(
                    j,
                ).parameter_value_keys@,
            forall|j: int|
                0 <= j < old(self).nodes@.len() && !node.spec_sources().contains(j as usize)
                    ==> final(self).nodes@[j] == old(self).nodes@[j],
            final(self).parameters == old(self).parameters,
            final(self).processors == old(self).processors,
            final(self).buffers == old(self).buffers,
            final(self).factories@ == old(self).factories@,
            final(self).factory_classes@ == old(self).factory_classes@,
            final(self).config == old(self).config,
            final(self).empty_buffer == old(self).empty_buffer,
            final(context).destination_counts@.len() == old(context).destination_counts@.len(),
            forall|s: int|
                0 <= s < old(context).destination_counts@.len()
                    ==> final(context).destination_counts@[s] == (if old(
                    context,
                ).destination_counts@[s] >= crate::graph::count_of(
                    node.spec_sources(),
                    s as usize,
                ) {
                    (old(context).destination_counts@[s] - crate::graph::count_of(
                        node.spec_sources(),
                        s as usize,
                    )) as usize
                } else {
                    0usize
                }),
            forall|k: int|
                0 <= k < node.spec_sources().len() && final(context).destination_counts@[
                    #[trigger] node.spec_sources()[k] as int
                ] == 0 ==> final(self).cache_at(
                    node.spec_sources()[k] as int,
                ).allocated_buffers@.len() == 0,
            forall|x: usize|
                final(context).free_buffers@.contains(x)
                    <==> (old(context).free_buffers@.contains(x) || exists|k: int|
                    0 <= k < node.spec_sources().len() && final(context).destination_counts@[
                        #[trigger] node.spec_sources()[k] as int
                    ] == 0 && old(self).cache_at(
                        node.spec_sources()[k] as int,
                    ).allocated_buffers@.contains(x)),
    {
        let sources = node.sources();
        proof {
            vstd::std_specs::vec::axiom_spec_len(&context.destination_counts);
        }
        let mut k: usize = 0;
        while k < sources.len()
            invariant
                k <= sources@.len(),
                sources@ == node.spec_sources(),
                forall|k2: int|
                    0 <= k2 < node.spec_sources().len() ==> old(self).cached(
                        #[trigger] node.spec_sources()[k2] as int,
                    ),
                forall|k2: int|
                    0 <= k2 < node.spec_sources().len() ==> (#[trigger] node.spec_sources()[
                        k2
                    ] as int) < old(context).destination_counts@.len(),
                old(context).destination_counts@.len() <= usize::MAX,
                self.nodes@.len() == old(self).nodes@.len(),
                forall|j: int| self.cached(j) <==> old(self).cached(j),
                forall|j: int|
                    #[trigger] old(self).cached(j) ==> cache_core_eq(
                        old(self).cache_at(j),
                        self.cache_at(j),
                    ) && self.cache_at(j).parameter_value_keys@ == old(self).cache_at(
                        j,
                    ).parameter_value_keys@,
                forall|j: int|
                    0 <= j < old(self).nodes@.len() && !node.spec_sources().contains(j as usize)
                        ==> self.nodes@[j] == old(self).nodes@[j],
                forall|j: int|
                    0 <= j < old(self).nodes@.len() ==> (self.nodes@[j] == old(self).nodes@[j]
                        || (self.cache_at(j).allocated_buffers@.len() == 0 && exists|k2: int|
                        0 <= k2 < k && (#[trigger] node.spec_sources()[k2] as int) == j
                            && context.destination_counts@[node.spec_sources()[k2] as int]
                            == 0)),
                forall|s2: int|
                    0 <= s2 < old(context).destination_counts@.len()
                        && context.destination_counts@[s2] != 0 && 0 <= s2 < old(
                        self,
                    ).nodes@.len() ==> self.nodes@[s2] == old(self).nodes@[s2],
                self.parameters == old(self).parameters,
                self.processors == old(self).processors,
                self.buffers == old(self).buffers,
                self.factories@ == old(self).factories@,
                self.factory_classes@ == old(self).factory_classes@,
                self.config == old(self).config,
                self.empty_buffer == old(self).empty_buffer,
                context.destination_counts@.len() == old(context).destination_counts@.len(),
                forall|s: int|
                    0 <= s < old(context).destination_counts@.len()
                        ==> context.destination_counts@[s] == (if old(
                        context,
                    ).destination_counts@[s] >= crate::graph::count_of(
                        node.spec_sources().subrange(0, k as int),
                        s as usize,
                    ) {
                        (old(context).destination_counts@[s] - crate::graph::count_of(
                            node.spec_sources().subrange(0, k as int),
                            s as usize,
                        )) as usize
                    } else {
                        0usize
                    }),
                forall|k2: int|
                    0 <= k2 < k && context.destination_counts@[
                        #[trigger] node.spec_sources()[k2] as int
                    ] == 0 ==> self.cache_at(
                        node.spec_sources()[k2] as int,
                    ).allocated_buffers@.len() == 0,
                forall|x: usize|
                    context.free_buffers@.contains(x) <==> (old(context).free_buffers@.contains(
                        x,
                    ) || exists|k2: int|
                        0 <= k2 < k && context.destination_counts@[
                            #[trigger] node.spec_sources()[k2] as int
                        ] == 0 && old(self).cache_at(
                            node.spec_sources()[k2] as int,
                        ).allocated_buffers@.contains(x)),
            decreases sources@.len() - k,
        {
            let s = sources[k];
            proof {
                assert(node.spec_sources()[k as int] == s);
                assert(node.spec_sources().contains(s));
            }
            let ghost dc_pre = context.destination_counts@;
            let ghost pool_pre = context.free_buffers@;
            let ghost self_pre = *self;
            let count = context.destination_counts[s];
            let new_count: usize = if count > 0 {
                count - 1
            } else {
                0
            };
            context.destination_counts.set(s, new_count);
            if new_count == 0 {
                let mut slot: Option<NodeCache> = None;
                self.nodes.set_and_swap(s, &mut slot);
                match slot {
                    Some(mut cache) => {
                        context.add_to_free_buffers(&cache.allocated_buffers);
                        cache.allocated_buffers = Vec::new();
                        self.nodes.set(s, Some(cache));
                        proof {
                            assert forall|j: int| self.cached(j) <==> self_pre.cached(j) by {}
                            assert forall|j: int| #[trigger] old(self).cached(j) implies
                                cache_core_eq(old(self).cache_at(j), self.cache_at(j))
                                && self.cache_at(j).parameter_value_keys@ == old(self).cache_at(
                                j,
                            ).parameter_value_keys@ by {
                                if j == s {
                                    assert(cache_core_eq(old(self).cache_at(j), self_pre.cache_at(j)));
                                } else {
                                    assert(self.nodes@[j] == self_pre.nodes@[j]);
                                }
                            }
                        }
                    },
                    None => {
                        return Err(ControllerError::NodeCacheNotFound(s));
                    },
                }
            }
            k = k + 1;
            proof {
                let srcs = node.spec_sources();
                let sub = srcs.subrange(0, k as int);
                assert(sub.drop_last() =~= srcs.subrange(0, k - 1));
                assert(sub.last() == srcs[k - 1]);
                // the decremented counts match the per-connection rule
                assert forall|s2: int|
                    0 <= s2 < old(context).destination_counts@.len() implies
                    context.destination_counts@[s2] == (
                if old(context).destination_counts@[s2] >= crate::graph::count_of(
                    sub,
                    s2 as usize,
                ) {
                    (old(context).destination_counts@[s2] - crate::graph::count_of(
                        sub,
                        s2 as usize,
                    )) as usize
                } else {
                    0usize
                }) by {
                    let c_prev = crate::graph::count_of(srcs.subrange(0, k - 1), s2 as usize);
                    assert(crate::graph::count_of(sub, s2 as usize) == c_prev + (if srcs[k - 1]
                        == s2 as usize {
                        1nat
                    } else {
                        0nat
                    }));
                    assert(dc_pre[s2] == (if old(context).destination_counts@[s2] >= c_prev {
                        (old(context).destination_counts@[s2] - c_prev) as usize
                    } else {
                        0usize
                    }));
                    if s2 == s as int {
                        assert(context.destination_counts@[s2] == new_count);
                    } else {
                        assert(context.destination_counts@[s2] == dc_pre[s2]);
                        if srcs[k - 1] == s2 as usize {
                            assert(s2 < old(context).destination_counts@.len());
                            assert(old(context).destination_counts@.len() <= usize::MAX);
                            assert(s2 as usize as int == s2);
                            assert((s as int) == s2);
                            assert(false);
                        }
                    }
                }
                // a source whose count reached zero has been stripped
                assert forall|k2: int|
                    0 <= k2 < k && context.destination_counts@[
                        #[trigger] node.spec_sources()[k2] as int
                    ] == 0 implies self.cache_at(
                    node.spec_sources()[k2] as int,
                ).allocated_buffers@.len() == 0 by {
                    let s2 = node.spec_sources()[k2] as int;
                    if k2 < k - 1 && s2 != s {
                        assert(dc_pre[s2] == context.destination_counts@[s2]);
                    }
                }
                // the pool gained exactly the released ownership sets
                assert forall|x: usize|
                    context.free_buffers@.contains(x) implies (old(
                    context,
                ).free_buffers@.contains(x) || exists|k2: int|
                    0 <= k2 < k && context.destination_counts@[
                        #[trigger] node.spec_sources()[k2] as int
                    ] == 0 && old(self).cache_at(
                        node.spec_sources()[k2] as int,
                    ).allocated_buffers@.contains(x)) by {
                    if !pool_pre.contains(x) {
                        assert(node.spec_sources()[k - 1] as int == s);
                        assert(self_pre.cache_at(s as int).allocated_buffers@.contains(x));
                        if self_pre.nodes@[s as int] == old(self).nodes@[s as int] {
                        } else {
                            assert(self_pre.cache_at(s as int).allocated_buffers@.len() == 0);
                            assert(false);
                        }
                    } else {
                        if exists|k2: int|
                            0 <= k2 < k - 1 && dc_pre[#[trigger] node.spec_sources()[k2] as int]
                                == 0 && old(self).cache_at(
                                node.spec_sources()[k2] as int,
                            ).allocated_buffers@.contains(x) {
                            let k2 = choose|k2: int|
                                0 <= k2 < k - 1 && dc_pre[
                                    #[trigger] node.spec_sources()[k2] as int
                                ] == 0 && old(self).cache_at(
                                    node.spec_sources()[k2] as int,
                                ).allocated_buffers@.contains(x);
                            assert(context.destination_counts@[node.spec_sources()[k2] as int]
                                == 0);
                        }
                    }
                }
                assert forall|x: usize|
                    (old(context).free_buffers@.contains(x) || exists|k2: int|
                        0 <= k2 < k && context.destination_counts@[
                            #[trigger] node.spec_sources()[k2] as int
                        ] == 0 && old(self).cache_at(
                            node.spec_sources()[k2] as int,
                        ).allocated_buffers@.contains(x)) implies
                    context.free_buffers@.contains(x) by {
                    if !old(context).free_buffers@.contains(x) {
                        let k2 = choose|k2: int|
                            0 <= k2 < k && context.destination_counts@[
                                #[trigger] node.spec_sources()[k2] as int
                            ] == 0 && old(self).cache_at(
                                node.spec_sources()[k2] as int,
                            ).allocated_buffers@.contains(x);
                        let s2 = node.spec_sources()[k2] as int;
                        if dc_pre[s2] == 0 {
                            if k2 < k - 1 {
                                assert(pool_pre.contains(x));
                            } else {
                                assert(s2 == s as int);
                                assert(new_count == 0);
                                if self_pre.nodes@[s as int] == old(self).nodes@[s as int] {
                                    assert(context.free_buffers@.contains(x));
                                } else {
                                    // this source was already released by an earlier pass
                                    // of the loop, which put its old ownership set into
                                    // the pool at that point
                                    let k3 = choose|k3: int|
                                        0 <= k3 < k - 1 && (#[trigger] node.spec_sources()[
                                            k3
                                        ] as int) == s as int && dc_pre[node.spec_sources()[
                                            k3
                                        ] as int] == 0;
                                    assert(pool_pre.contains(x));
                                }
                            }
                        } else {
                            assert(s2 == s as int);
                            assert(new_count == 0);
                            assert(self_pre.nodes@[s as int] == old(self).nodes@[s as int]);
                            assert(self_pre.cache_at(s as int).allocated_buffers@.contains(x));
                            assert(context.free_buffers@.contains(x));
                        }
                    }
                }
            }
        }
        proof {
            assert(node.spec_sources().subrange(0, node.spec_sources().len() as int)
                =~= node.spec_sources());
        }
        Ok(())
    }

    /// Store a rebuilt node's new buffer assignments and ownership set and
    /// emit its render operation.
    fn update_node_cache(
        &mut self,
        node_ref: usize,
        value_buffers: Vec<Option<usize>>,
        param_render_ports: Vec<(String, ParamRenderPort)>,
        audio_input_buffers: Vec<(String, Vec<usize>)>,
        audio_output_buffers: Vec<(String, Vec<usize>)>,
    ) -> (r: Result<(), ControllerError>)
        requires
            old(self).cached(node_ref as int),
        ensures
            r is Ok,
            final(self).nodes@.len() == old(self).nodes@.len(),
            forall|j: int|
                0 <= j < old(self).nodes@.len() && j != node_ref ==> final(self).nodes@[j] == old(
                    self,
                ).nodes@[j],
            final(self).cached(node_ref as int),
            ({
                let nc0 = old(self).cache_at(node_ref as int);
                let nc1 = final(self).cache_at(node_ref as int);
                &&& nc1.processor_key == nc0.processor_key
                &&& nc1.parameter_value_keys@ == nc0.parameter_value_keys@
                &&& nc1.audio_output_buffers@.len() == audio_output_buffers@.len()
                &&& (forall|p: int|
                    0 <= p < audio_output_buffers@.len()
                        ==> (#[trigger] nc1.audio_output_buffers@[p])@ == audio_output_buffers@[
                        p
                    ].1@)
                &&& nc1.allocated_buffers@ == slice_keys(value_buffers@) + output_keys(
                    audio_output_buffers@,
                )
                &&& nc1.render_ops@.len() == 1
                &&& nc1.render_ops@[0]@ == (OpView::Processor {
                    processor_key: nc0.processor_key,
                    audio_inputs: ports_view(audio_input_buffers@),
                    audio_outputs: ports_view(audio_output_buffers@),
                    parameters: params_view(param_render_ports@),
                })
            }),
            final(self).parameters == old(self).parameters,
            final(self).processors == old(self).processors,
            final(self).buffers == old(self).buffers,
            final(self).factories@ == old(self).factories@,
            final(self).factory_classes@ == old(self).factory_classes@,
            final(self).config == old(self).config,
            final(self).empty_buffer == old(self).empty_buffer,
    {
        let mut allocated: Vec<usize> = Vec::new();
        let mut q: usize = 0;
        while q < value_buffers.len()
            invariant
                q <= value_buffers@.len(),
                allocated@ == slice_keys(value_buffers@.subrange(0, q as int)),
            decreases value_buffers@.len() - q,
        {
            match &value_buffers[q] {
                Some(b) => {
                    allocated.push(*b);
                },
                None => {},
            }
            q = q + 1;
            proof {
                let cur = value_buffers@.subrange(0, q as int);
                assert(cur.drop_last() =~= value_buffers@.subrange(0, q - 1));
                assert(cur.last() == value_buffers@[q - 1]);
                assert(allocated@ =~= slice_keys(cur));
            }
        }
        proof {
            assert(value_buffers@.subrange(0, value_buffers@.len() as int) =~= value_buffers@);
        }
        let ghost slices = allocated@;
        let mut out_lists: Vec<Vec<usize>> = Vec::new();
        let mut p: usize = 0;
        while p < audio_output_buffers.len()
            invariant
                p <= audio_output_buffers@.len(),
                out_lists@.len() == p,
                forall|j: int|
                    0 <= j < p ==> (#[trigger] out_lists@[j])@ == audio_output_buffers@[j].1@,
                allocated@ == slices + output_keys(audio_output_buffers@.subrange(0, p as int)),
            decreases audio_output_buffers@.len() - p,
        {
            let bufs = copy_keys(&audio_output_buffers[p].1);
            let ghost pre = allocated@;
            let mut c: usize = 0;
            while c < bufs.len()
                invariant
                    c <= bufs@.len(),
                    bufs@ == audio_output_buffers@[p as int].1@,
                    p < audio_output_buffers@.len(),
                    allocated@ == pre + bufs@.subrange(0, c as int),
                decreases bufs@.len() - c,
            {
                allocated.push(bufs[c]);
                c = c + 1;
                proof {
                    assert(allocated@ =~= pre + bufs@.subrange(0, c as int));
                }
            }
            out_lists.push(bufs);
            p = p + 1;
            proof {
                let cur = audio_output_buffers@.subrange(0, p as int);
                assert(cur.drop_last() =~= audio_output_buffers@.subrange(0, p - 1));
                assert(cur.last() == audio_output_buffers@[p - 1]);
                assert(audio_output_buffers@[p - 1].1@.subrange(
                    0,
                    audio_output_buffers@[p - 1].1@.len() as int,
                ) =~= audio_output_buffers@[p - 1].1@);
                assert(allocated@ =~= slices + output_keys(cur));
            }
        }
        proof {
            assert(audio_output_buffers@.subrange(0, audio_output_buffers@.len() as int)
                =~= audio_output_buffers@);
        }
        let mut slot: Option<NodeCache> = None;
        self.nodes.set_and_swap(node_ref, &mut slot);
        match slot {
            Some(cache) => {
                let processor_key = cache.processor_key;
                let op = RenderOp::RenderProcessor {
                    processor_key,
                    audio_inputs: audio_input_buffers,
                    audio_outputs: audio_output_buffers,
                    parameters: param_render_ports,
                };
                let mut render_ops: Vec<RenderOp> = Vec::new();
                render_ops.push(op);
                let new_cache = NodeCache {
                    processor_key,
                    parameter_value_keys: cache.parameter_value_keys,
                    audio_output_buffers: out_lists,
                    allocated_buffers: allocated,
                    render_ops,
                };
                self.nodes.set(node_ref, Some(new_cache));
                Ok(())
            },
            None => Err(ControllerError::NodeCacheNotFound(node_ref)),
        }
    }

    /// Key liveness carries over when every cache keeps its processor key
    /// and parameter keys and no registry entry disappears.
    proof fn lemma_keys_wf_from_core(a: Self, b: Self)
        requires
            a.caches_keys_wf(),
            forall|j: int| #[trigger] b.cached(j) ==> a.cached(j),
            forall|j: int|
                #[trigger] b.cached(j) ==> b.cache_at(j).processor_key == a.cache_at(
                    j,
                ).processor_key && b.cache_at(j).parameter_value_keys@ == a.cache_at(
                    j,
                ).parameter_value_keys@,
            forall|k: int| a.params_contains(k) ==> b.params_contains(k),
            forall|k: int| a.procs_contains(k) ==> b.procs_contains(k),
        ensures
            b.caches_keys_wf(),
    {
        assert forall|i: int| #[trigger] b.cached(i) implies b.procs_contains(
            b.cache_at(i).processor_key as int,
        ) && (forall|q: int|
            0 <= q < b.cache_at(i).parameter_value_keys@.len() ==> b.params_contains(
                #[trigger] b.cache_at(i).parameter_value_keys@[q] as int,
            )) by {
            assert(a.cached(i));
            assert(a.procs_contains(a.cache_at(i).processor_key as int));
            assert forall|q: int|
                0 <= q < b.cache_at(i).parameter_value_keys@.len() implies b.params_contains(
                #[trigger] b.cache_at(i).parameter_value_keys@[q] as int,
            ) by {
                assert(a.params_contains(a.cache_at(i).parameter_value_keys@[q] as int));
            }
        }
    }

    /// Visit a node whose cache is valid: consume its inputs for the
    /// destination counts and keep its own buffers out of the free pool.
    fn visit_unchanged_node(
        &mut self,
        node_ref: usize,
        graph: &Graph,
        context: &mut UpdateContext,
    ) -> (r: Result<(), ControllerError>)
        requires
            (node_ref as int) < graph.nodes@.len(),
            old(self).cached(node_ref as int),
            forall|k: int|
                0 <= k < graph.nodes@[node_ref as int].spec_sources().len() ==> old(self).cached(
                    #[trigger] graph.nodes@[node_ref as int].spec_sources()[k] as int,
                ),
            forall|k: int|
                0 <= k < graph.nodes@[node_ref as int].spec_sources().len() ==> (
                #[trigger] graph.nodes@[node_ref as int].spec_sources()[k] as int) < old(
                    context,
                ).destination_counts@.len(),
        ensures
            r is Ok,
            final(self).nodes@.len() == old(self).nodes@.len(),
            forall|j: int| final(self).cached(j) <==> old(self).cached(j),
            forall|j: int|
                #[trigger] old(self).cached(j) ==> cache_core_eq(
                    old(self).cache_at(j),
                    final(self).cache_at(j),
                ),
            forall|j: int|
                0 <= j < old(self).nodes@.len() && !graph.nodes@[
                    node_ref as int
                ].spec_sources().contains(j as usize) ==> final(self).nodes@[j] == old(
                    self,
                ).nodes@[j],
            final(self).parameters == old(self).parameters,
            final(self).processors == old(self).processors,
            final(self).buffers == old(self).buffers,
            final(self).factories@ == old(self).factories@,
            final(self).factory_classes@ == old(self).factory_classes@,
            final(self).config == old(self).config,
            final(self).empty_buffer == old(self).empty_buffer,
            final(context).destination_counts@.len() == old(context).destination_counts@.len(),
            forall|s: int|
                0 <= s < old(context).destination_counts@.len()
                    ==> final(context).destination_counts@[s] == (
                if old(context).destination_counts@[s] >= crate::graph::count_of(
                    graph.nodes@[node_ref as int].spec_sources(),
                    s as usize,
                ) {
                    (old(context).destination_counts@[s] - crate::graph::count_of(
                        graph.nodes@[node_ref as int].spec_sources(),
                        s as usize,
                    )) as usize
                } else {
                    0usize
                }),
            forall|k: int|
                0 <= k < graph.nodes@[node_ref as int].spec_sources().len()
                    && final(context).destination_counts@[
                    #[trigger] graph.nodes@[node_ref as int].spec_sources()[k] as int
                ] == 0 ==> final(self).cache_at(
                    graph.nodes@[node_ref as int].spec_sources()[k] as int,
                ).allocated_buffers@.len() == 0,
            forall|x: usize|
                final(context).free_buffers@.contains(x)
                    <==> ((old(context).free_buffers@.contains(x) || exists|k: int|
                    0 <= k < graph.nodes@[node_ref as int].spec_sources().len()
                        && final(context).destination_counts@[
                        #[trigger] graph.nodes@[node_ref as int].spec_sources()[k] as int
                    ] == 0 && old(self).cache_at(
                        graph.nodes@[node_ref as int].spec_sources()[k] as int,
                    ).allocated_buffers@.contains(x)) && !final(self).cache_at(
                    node_ref as int,
                ).allocated_buffers@.contains(x)),
    {
        let node = match graph.get_node(node_ref) {
            Some(n) => n,
            None => {
                return Err(ControllerError::NodeNotFound(node_ref));
            },
        };
        match self.release_input_buffers(node, context) {
            Ok(()) => {},
            Err(e) => {
                return Err(e);
            },
        }
        let ghost mid_pool = context.free_buffers@;
        let node_cache = match self.node_cache(node_ref) {
            Some(nc) => nc,
            None => {
                return Err(ControllerError::NodeCacheNotFound(node_ref));
            },
        };
        context.remove_from_free_buffers(&node_cache.allocated_buffers);
        proof {
            let srcs = graph.nodes@[node_ref as int].spec_sources();
            assert forall|x: usize|
                context.free_buffers@.contains(x) implies ((old(context).free_buffers@.contains(
                x,
            ) || exists|k: int|
                0 <= k < srcs.len() && context.destination_counts@[
                    #[trigger] srcs[k] as int
                ] == 0 && old(self).cache_at(srcs[k] as int).allocated_buffers@.contains(x))
                && !self.cache_at(node_ref as int).allocated_buffers@.contains(x)) by {
                assert(mid_pool.contains(x));
            }
            assert forall|x: usize|
                ((old(context).free_buffers@.contains(x) || exists|k: int|
                    0 <= k < srcs.len() && context.destination_counts@[
                        #[trigger] srcs[k] as int
                    ] == 0 && old(self).cache_at(srcs[k] as int).allocated_buffers@.contains(x))
                    && !self.cache_at(node_ref as int).allocated_buffers@.contains(x)) implies
                context.free_buffers@.contains(x) by {
                assert(mid_pool.contains(x));
            }
        }
        Ok(())
    }

    /// Rebuild the cache of an invalidated or freshly created node: return
    /// its old buffers to the pool, allocate slice and output buffers, bind
    /// every port, release consumed inputs, and emit its render operation.
    fn visit_invalidated_node(
        &mut self,
        node_ref: usize,
        graph: &Graph,
        context: &mut UpdateContext,
    ) -> (r: Result<(), ControllerError>)
        requires
            graph.wf(),
            (node_ref as int) < graph.nodes@.len(),
            old(self).cached(node_ref as int),
            old(self).cache_at(node_ref as int).parameter_value_keys@.len() == graph.nodes@[
                node_ref as int
            ].params@.len(),
            forall|j: int| 0 <= j < node_ref ==> old(self).node_cache_consistent(graph, j),
            old(context).destination_counts@.len() == graph.nodes@.len(),
        ensures
            r is Ok,
            final(self).nodes@.len() == old(self).nodes@.len(),
            forall|j: int| final(self).cached(j) <==> old(self).cached(j),
            final(self).node_cache_consistent(graph, node_ref as int),
            forall|j: int| 0 <= j < node_ref ==> final(self).node_cache_consistent(graph, j),
            forall|j: int|
                #[trigger] old(self).cached(j) && j != node_ref ==> cache_core_eq(
                    old(self).cache_at(j),
                    final(self).cache_at(j),
                ),
            forall|j: int|
                0 <= j < old(self).nodes@.len() && j != node_ref && !graph.nodes@[
                    node_ref as int
                ].spec_sources().contains(j as usize) ==> final(self).nodes@[j] == old(
                    self,
                ).nodes@[j],
            final(self).cache_at(node_ref as int).parameter_value_keys@ == old(self).cache_at(
                node_ref as int,
            ).parameter_value_keys@,
            final(self).cache_at(node_ref as int).processor_key == old(self).cache_at(
                node_ref as int,
            ).processor_key,
            final(self).parameters == old(self).parameters,
            final(self).processors == old(self).processors,
            final(self).factories@ == old(self).factories@,
            final(self).factory_classes@ == old(self).factory_classes@,
            final(self).config == old(self).config,
            final(self).empty_buffer == old(self).empty_buffer,
            final(context).destination_counts@.len() == old(context).destination_counts@.len(),
    {
        let ghost s0 = *self;
        match self.clear_node_cache(node_ref, context) {
            Ok(()) => {},
            Err(e) => {
                return Err(e);
            },
        }
        let node = match graph.get_node(node_ref) {
            Some(n) => n,
            None => {
                return Err(ControllerError::NodeNotFound(node_ref));
            },
        };
        let value_buffers = self.allocate_param_value_buffers(node, context);
        let ghost s2 = *self;
        proof {
            assert forall|q: int|
                0 <= q < node.params@.len() && (#[trigger] node.params@[q]).connection
                    is Some implies ({
                let aor = node.params@[q].connection->Some_0;
                &&& self.cached(aor.node_ref as int)
                &&& (aor.audio_port_key as int) < self.cache_at(
                    aor.node_ref as int,
                ).audio_output_buffers@.len()
                &&& self.cache_at(
                    aor.node_ref as int,
                ).audio_output_buffers@[aor.audio_port_key as int]@.len() >= 1
            }) by {
                let aor = node.params@[q].connection->Some_0;
                assert(graph.node_wf(node_ref as int));
                assert(graph.conn_ok(node_ref as int, aor));
                assert(s0.node_cache_consistent(graph, aor.node_ref as int));
                assert(self.nodes@[aor.node_ref as int] == s0.nodes@[aor.node_ref as int]);
            }
            assert forall|a: int|
                0 <= a < node.audio_inputs@.len() && (#[trigger] node.audio_inputs@[a]).connection
                    is Some implies ({
                let aor = node.audio_inputs@[a].connection->Some_0;
                &&& self.cached(aor.node_ref as int)
                &&& (aor.audio_port_key as int) < self.cache_at(
                    aor.node_ref as int,
                ).audio_output_buffers@.len()
            }) by {
                let aor = node.audio_inputs@[a].connection->Some_0;
                assert(graph.node_wf(node_ref as int));
                assert(graph.conn_ok(node_ref as int, aor));
                assert(s0.node_cache_consistent(graph, aor.node_ref as int));
                assert(self.nodes@[aor.node_ref as int] == s0.nodes@[aor.node_ref as int]);
            }
        }
        let param_render_ports = match self.build_param_render_ports(
            node_ref,
            node,
            &value_buffers,
        ) {
            Ok(v) => v,
            Err(e) => {
                return Err(e);
            },
        };
        let audio_input_buffers = match self.collect_audio_input_buffers(node) {
            Ok(v) => v,
            Err(e) => {
                return Err(e);
            },
        };
        let audio_output_buffers = self.allocate_audio_output_buffers(node, context);
        let ghost s3 = *self;
        proof {
            assert forall|k: int|
                0 <= k < node.spec_sources().len() implies self.cached(
                #[trigger] node.spec_sources()[k] as int,
            ) && ((node.spec_sources()[k] as int) < context.destination_counts@.len()) by {
                graph.lemma_source_bounds(node_ref as int, k);
                let sj = node.spec_sources()[k] as int;
                assert(s0.node_cache_consistent(graph, sj));
                assert(self.nodes@[sj] == s0.nodes@[sj]);
            }
        }
        match self.release_input_buffers(node, context) {
            Ok(()) => {},
            Err(e) => {
                return Err(e);
            },
        }
        let ghost s4 = *self;
        match self.update_node_cache(
            node_ref,
            value_buffers,
            param_render_ports,
            audio_input_buffers,
            audio_output_buffers,
        ) {
            Ok(()) => {},
            Err(e) => {
                return Err(e);
            },
        }
        proof {
            let g = graph;
            let i = node_ref as int;
            let n = g.nodes@[i];
            let nc1 = self.cache_at(i);
            assert forall|j: int| self.cached(j) <==> s0.cached(j) by {
                if j == i {
                    assert(self.cached(j));
                    assert(s0.cached(j));
                } else {
                    if 0 <= j < s0.nodes@.len() {
                        assert(s2.nodes@[j] == s0.nodes@[j]);
                        assert(s4.cached(j) <==> s3.cached(j));
                        assert(self.nodes@[j] == s4.nodes@[j]);
                    }
                }
            }
            // every untouched node keeps its core through the whole visit
            assert forall|j: int| #[trigger] s0.cached(j) && j != i implies cache_core_eq(
                s0.cache_at(j),
                self.cache_at(j),
            ) && self.cached(j) by {
                assert(s2.nodes@[j] == s0.nodes@[j]);
                assert(s3.cached(j));
                assert(cache_core_eq(s3.cache_at(j), s4.cache_at(j)));
                assert(self.nodes@[j] == s4.nodes@[j]);
            }
            // sources seen by the port builders kept their buffer views
            assert forall|k: int| 0 <= k < n.spec_sources().len() implies ({
                let sj = #[trigger] n.spec_sources()[k] as int;
                &&& self.cached(sj)
                &&& s0.cached(sj)
                &&& cache_core_eq(s0.cache_at(sj), self.cache_at(sj))
                &&& sj != i
            }) by {
                g.lemma_source_bounds(i, k);
                let sj = n.spec_sources()[k] as int;
                assert(s0.node_cache_consistent(g, sj));
            }
            // the rebuilt cache is consistent with the graph
            assert(ports_view(audio_input_buffers@) =~= self.expected_inputs(g, i)) by {
                assert forall|a: int| 0 <= a < n.audio_inputs@.len() implies ports_view(
                    audio_input_buffers@,
                )[a] == self.expected_inputs(g, i)[a] by {
                    match n.audio_inputs@[a].connection {
                        None => {
                            assert(Seq::new(
                                n.audio_inputs@[a].channels as nat,
                                |ch: int| s2.spec_empty_buffer(),
                            ) =~= Seq::new(
                                n.audio_inputs@[a].channels as nat,
                                |ch: int| self.spec_empty_buffer(),
                            ));
                        },
                        Some(aor) => {
                            n.lemma_connection_in_sources(aor);
                            let sj = aor.node_ref as int;
                            assert(g.node_wf(i));
                            assert(g.conn_ok(i, aor));
                            assert(s2.cache_at(sj) == s0.cache_at(sj));
                            assert(cache_core_eq(s0.cache_at(sj), self.cache_at(sj)));
                            lemma_bufs_view_index(
                                s0.cache_at(sj).audio_output_buffers@,
                                self.cache_at(sj).audio_output_buffers@,
                            );
                            assert(s0.node_cache_consistent(g, sj));
                        },
                    }
                }
            }
            assert(ports_view(audio_output_buffers@) =~= self.expected_outputs(g, i)) by {
                assert forall|p: int| 0 <= p < n.audio_outputs@.len() implies ports_view(
                    audio_output_buffers@,
                )[p] == self.expected_outputs(g, i)[p] by {
                    assert(nc1.audio_output_buffers@[p]@ == audio_output_buffers@[p].1@);
                }
            }
            assert forall|q: int| 0 <= q < n.params@.len() implies self.param_entry_ok(
                g,
                i,
                #[trigger] params_view(param_render_ports@)[q],
                q,
            ) by {
                assert(params_view(param_render_ports@)[q] == (
                    param_render_ports@[q].0@,
                    param_render_ports@[q].1,
                ));
                match n.params@[q].connection {
                    None => {
                        assert(s2.cache_at(i).parameter_value_keys@ == nc1.parameter_value_keys@);
                    },
                    Some(aor) => {
                        n.lemma_connection_in_sources(aor);
                        let sj = aor.node_ref as int;
                        assert(g.node_wf(i));
                        assert(g.conn_ok(i, aor));
                        assert(s2.cache_at(sj) == s0.cache_at(sj));
                        assert(cache_core_eq(s0.cache_at(sj), self.cache_at(sj)));
                        lemma_bufs_view_index(
                            s0.cache_at(sj).audio_output_buffers@,
                            self.cache_at(sj).audio_output_buffers@,
                        );
                        assert(s0.node_cache_consistent(g, sj));
                    },
                }
            }
            assert forall|p: int|
                0 <= p < n.audio_outputs@.len() implies (
            #[trigger] nc1.audio_output_buffers@[p])@.len() == n.audio_outputs@[p].channels by {
                assert(nc1.audio_output_buffers@[p]@ == audio_output_buffers@[p].1@);
            }
            assert(self.node_cache_consistent(g, i));
            // earlier nodes stay consistent: their cores and their sources'
            // cores are untouched
            assert forall|j: int| 0 <= j < i implies self.node_cache_consistent(g, j) by {
                assert(s0.node_cache_consistent(g, j));
                assert forall|k: int|
                    0 <= k < g.nodes@[j].spec_sources().len() implies self.cached(
                    #[trigger] g.nodes@[j].spec_sources()[k] as int,
                ) && cache_core_eq(
                    s0.cache_at(g.nodes@[j].spec_sources()[k] as int),
                    self.cache_at(g.nodes@[j].spec_sources()[k] as int),
                ) && s0.cache_at(g.nodes@[j].spec_sources()[k] as int).audio_output_buffers@
                    .len() == g.nodes@[g.nodes@[j].spec_sources()[k] as int].audio_outputs@.len()
                    by {
                    g.lemma_source_bounds(j, k);
                    let sj = g.nodes@[j].spec_sources()[k] as int;
                    assert(s0.node_cache_consistent(g, sj));
                    assert(s0.cached(sj) && sj != i || sj == i);
                    if sj == i {
                        assert(false);
                    }
                }
                assert(g.node_wf(j));
                Self::lemma_consistent_preserved(s0, *self, g, j);
            }
        }
        Ok(())
    }


    /// Number of nodes among the first `k` that have no cache yet: the
    /// processors an update must create.
    pub open spec fn uncached_count_upto(&self, g: &Graph, k: int) -> nat
        decreases k,
    {
        if k <= 0 {
            0
        } else {
            self.uncached_count_upto(g, k - 1) + (if !self.cached(k - 1) {
                1nat
            } else {
                0nat
            })
        }
    }

    /// Parameter ports of the nodes among the first `k` that have no cache
    /// yet: the parameter value cells an update must create.
    pub open spec fn uncached_params_upto(&self, g: &Graph, k: int) -> nat
        decreases k,
    {
        if k <= 0 {
            0
        } else {
            self.uncached_params_upto(g, k - 1) + (if !self.cached(k - 1) {
                g.nodes@[k - 1].params@.len()
            } else {
                0nat
            })
        }
    }

    /// When every node is cached, nothing remains to create.
    pub proof fn lemma_uncached_counts_zero(&self, g: &Graph, k: int)
        requires
            forall|i: int| 0 <= i < k ==> self.cached(i),
        ensures
            self.uncached_count_upto(g, k) == 0,
            self.uncached_params_upto(g, k) == 0,
        decreases k,
    {
        if k > 0 {
            self.lemma_uncached_counts_zero(g, k - 1);
        }
    }

    /// A node that is not rebuilt stays consistent across an update: its
    /// cache core is untouched, and by downstream closure of invalidation so
    /// are the cores of all its sources.
    proof fn lemma_unchanged_still_consistent(a: Self, b: Self, g: &Graph)
        requires
            g.wf(),
            a.caches_consistent_for(g),
            a.rebuild_closed(g),
            b.spec_empty_buffer() == a.spec_empty_buffer(),
            forall|j: int| #[trigger] a.cached(j) ==> b.cached(j),
            forall|j: int|
                0 <= j < g.nodes@.len() && a.cached(j) && !g.nodes@[j].invalidated
                    ==> cache_core_eq(a.cache_at(j), b.cache_at(j)),
        ensures
            forall|j: int|
                0 <= j < g.nodes@.len() && a.cached(j) && !g.nodes@[j].invalidated
                    ==> b.node_cache_consistent(g, j),
    {
        assert forall|j: int|
            0 <= j < g.nodes@.len() && a.cached(j) && !g.nodes@[j].invalidated implies
            b.node_cache_consistent(g, j) by {
            assert(a.node_cache_consistent(g, j));
            assert(!a.needs_rebuild(g, j));
            assert forall|k: int| 0 <= k < g.nodes@[j].spec_sources().len() implies ({
                let sj = #[trigger] g.nodes@[j].spec_sources()[k] as int;
                &&& b.cached(sj)
                &&& cache_core_eq(a.cache_at(sj), b.cache_at(sj))
                &&& a.cache_at(sj).audio_output_buffers@.len()
                    == g.nodes@[sj].audio_outputs@.len()
            }) by {
                g.lemma_source_bounds(j, k);
                let sj = g.nodes@[j].spec_sources()[k] as int;
                assert(!a.needs_rebuild(g, sj));
                assert(a.cached(sj) && !g.nodes@[sj].invalidated);
                assert(a.node_cache_consistent(g, sj));
            }
            assert(g.node_wf(j));
            Self::lemma_consistent_preserved(a, b, g, j);
        }
    }

    /// Walk the nodes in dependency order: create missing caches, rebuild
    /// invalidated or fresh ones, and account for unchanged ones.
    fn update_nodes(
        &mut self,
        node_refs: &Vec<usize>,
        graph: &Graph,
        context: &mut UpdateContext,
    ) -> (r: Result<(), ControllerError>)
        requires
            graph.wf(),
            node_refs@.len() == graph.nodes@.len(),
            forall|x: int| 0 <= x < node_refs@.len() ==> node_refs@[x] == x,
            old(context).destination_counts@.len() == graph.nodes@.len(),
            old(self).wf(),
            old(self).caches_consistent_for(graph),
            old(self).rebuild_closed(graph),
            old(self).param_keys_shaped(graph),
        ensures
            final(self).wf(),
            r is Ok ==> forall|i: int|
                0 <= i < graph.nodes@.len() ==> final(self).node_cache_consistent(graph, i),
            final(self).caches_consistent_for(graph),
            final(self).param_keys_shaped(graph),
            forall|j: int| #[trigger] old(self).cached(j) ==> final(self).cached(j),
            forall|j: int|
                0 <= j < graph.nodes@.len() && old(self).cached(j) && !graph.nodes@[
                    j
                ].invalidated ==> cache_core_eq(old(self).cache_at(j), final(self).cache_at(j)),
            forall|k: int|
                old(self).params_contains(k) ==> final(self).params_contains(k)
                    && final(self).param_at(k) == old(self).param_at(k),
            final(self).spec_factory_classes() == old(self).spec_factory_classes(),
            final(self).spec_factories() == old(self).spec_factories(),
            final(self).spec_config() == old(self).spec_config(),
            final(self).spec_empty_buffer() == old(self).spec_empty_buffer(),
            forall|j: int|
                j >= graph.nodes@.len() ==> (final(self).cached(j) <==> old(self).cached(j)),
            r is Ok ==> final(self).spec_processors_len() == old(self).spec_processors_len()
                + old(self).uncached_count_upto(graph, graph.nodes@.len() as int),
            r is Ok ==> final(self).spec_parameters_len() == old(self).spec_parameters_len()
                + old(self).uncached_params_upto(graph, graph.nodes@.len() as int),
            (forall|i: int| 0 <= i < graph.nodes@.len() ==> old(self).cached(i))
                ==> final(self).spec_processors_len() == old(self).spec_processors_len()
                && final(self).spec_parameters_len() == old(self).spec_parameters_len(),
            (forall|i: int| 0 <= i < graph.nodes@.len() ==> !old(self).needs_rebuild(graph, i))
                ==> final(self).spec_buffers() == old(self).spec_buffers(),
            forall|i: int|
                #![trigger graph.nodes@[i]]
                (0 <= i < graph.nodes@.len() && !old(self).cached(i) && !old(
                    self,
                ).class_registered(graph.nodes@[i].class@) && (forall|j: int|
                    0 <= j < i ==> old(self).cached(j))) ==> (r matches Err(e) && e matches
                    ControllerError::ProcessorFactoryNotFound(nm, cl) && cl@ == graph.nodes@[
                    i
                ].class@ && nm@ == graph.nodes@[i].spec_ref_string()
                    && final(self).spec_processors_len() == old(self).spec_processors_len()
                    && final(self).spec_parameters_len() == old(self).spec_parameters_len()),
            r matches Err(e) ==> ({
                ||| (e matches ControllerError::ProcessorFactoryNotFound(nm, cl) && !old(
                    self,
                ).class_registered(cl@) && exists|i: int|
                    0 <= i < graph.nodes@.len() && !old(self).cached(i) && (
                    #[trigger] graph.nodes@[i]).class@ == cl@ && nm@ == graph.nodes@[
                        i
                    ].spec_ref_string())
                ||| (e matches ControllerError::ProcessorCreationFailed(nm, cl) && exists|i: int|
                    0 <= i < graph.nodes@.len() && !old(self).cached(i) && (
                    #[trigger] graph.nodes@[i]).class@ == cl@ && nm@ == graph.nodes@[
                        i
                    ].spec_ref_string())
            }),
    {
        let ghost c0 = *old(self);
        let n = node_refs.len();
        let mut idx: usize = 0;
        while idx < n
            invariant
                graph.wf(),
                node_refs@.len() == graph.nodes@.len(),
                forall|x: int| 0 <= x < node_refs@.len() ==> node_refs@[x] == x,
                n == node_refs@.len(),
                idx <= n,
                self.wf(),
                c0 == *old(self),
                c0.wf(),
                c0.caches_consistent_for(graph),
                c0.rebuild_closed(graph),
                c0.param_keys_shaped(graph),
                context.destination_counts@.len() == graph.nodes@.len(),
                forall|j: int| 0 <= j < idx ==> self.node_cache_consistent(graph, j),
                forall|j: int|
                    idx <= j < graph.nodes@.len() ==> (self.cached(j) <==> c0.cached(j)),
                forall|j: int|
                    idx <= j < graph.nodes@.len() && c0.cached(j) ==> self.cache_at(j)
                        == c0.cache_at(j),
                forall|j: int| #[trigger] c0.cached(j) ==> self.cached(j),
                forall|j: int|
                    0 <= j < idx && c0.cached(j) && !graph.nodes@[j].invalidated
                        ==> cache_core_eq(c0.cache_at(j), self.cache_at(j)),
                forall|k: int|
                    c0.params_contains(k) ==> self.params_contains(k) && self.param_at(k)
                        == c0.param_at(k),
                self.spec_factory_classes() == c0.spec_factory_classes(),
                self.spec_factories() == c0.spec_factories(),
                self.spec_config() == c0.spec_config(),
                self.spec_empty_buffer() == c0.spec_empty_buffer(),
                forall|j: int|
                    j >= graph.nodes@.len() ==> (self.cached(j) <==> c0.cached(j)),
                self.spec_processors_len() == c0.spec_processors_len()
                    + c0.uncached_count_upto(graph, idx as int),
                self.spec_parameters_len() == c0.spec_parameters_len()
                    + c0.uncached_params_upto(graph, idx as int),
                (forall|i2: int| 0 <= i2 < n ==> !c0.needs_rebuild(graph, i2)) ==> self.buffers
                    == c0.buffers,
                forall|j: int|
                    0 <= j < idx && !c0.cached(j) ==> c0.class_registered(
                        (#[trigger] graph.nodes@[j]).class@,
                    ),
            decreases n - idx,
        {
            let i = node_refs[idx];
            let ghost top = *self;
            proof {
                assert(i as int == idx as int);
            }
            let cache_missing: bool = match self.node_cache(i) {
                Some(_existing) => false,
                None => true,
            };
            if cache_missing {
                let cache = match self.create_node(i, graph) {
                    Ok(c) => c,
                    Err(e) => {
                        proof {
                            assert(!c0.cached(i as int));
                            if forall|i2: int| 0 <= i2 < n ==> c0.cached(i2) {
                                assert(c0.cached(i as int));
                                assert(false);
                            }
                            if forall|i2: int|
                                0 <= i2 < n ==> !c0.needs_rebuild(graph, i2) {
                                assert(!c0.needs_rebuild(graph, i as int));
                                assert(false);
                            }
                            assert forall|i2: int|
                                #![trigger graph.nodes@[i2]]
                                (0 <= i2 < graph.nodes@.len() && !c0.cached(i2)
                                    && !c0.class_registered(graph.nodes@[i2].class@) && (forall|
                                    j: int,
                                |
                                    0 <= j < i2 ==> c0.cached(j))) implies (e matches
                                ControllerError::ProcessorFactoryNotFound(nm, cl) && cl@
                                == graph.nodes@[i2].class@ && nm@ == graph.nodes@[
                                i2
                            ].spec_ref_string() && self.spec_processors_len()
                                == c0.spec_processors_len() && self.spec_parameters_len()
                                == c0.spec_parameters_len()) by {
                                if i2 < idx {
                                    assert(c0.class_registered(graph.nodes@[i2].class@));
                                    assert(false);
                                } else if i2 > idx {
                                    assert(c0.cached(i as int));
                                    assert(false);
                                } else {
                                    c0.lemma_uncached_counts_zero(graph, idx as int);
                                    Self::lemma_classes_transfer(c0, top);
                                    if !(e matches ControllerError::ProcessorFactoryNotFound(
                                        nm,
                                        cl,
                                    ) && cl@ == graph.nodes@[i2].class@ && nm@ == graph.nodes@[
                                        i2
                                    ].spec_ref_string()) {
                                        assert(top.class_registered(
                                            graph.nodes@[i as int].class@,
                                        ));
                                        Self::lemma_classes_transfer(top, c0);
                                        assert(false);
                                    }
                                }
                            }
                            assert forall|j: int|
                                0 <= j < graph.nodes@.len() && c0.cached(j) && !graph.nodes@[
                                j
                            ].invalidated implies cache_core_eq(
                                c0.cache_at(j),
                                self.cache_at(j),
                            ) by {
                                if idx <= j {
                                    assert(self.cache_at(j) == c0.cache_at(j));
                                }
                            }
                            Self::lemma_unchanged_still_consistent(c0, *self, graph);
                            assert forall|j: int|
                                0 <= j < graph.nodes@.len() && #[trigger] self.cached(j)
                                    && !graph.nodes@[j].invalidated implies
                                self.node_cache_consistent(graph, j) by {
                                if j < idx {
                                } else {
                                    assert(c0.cached(j));
                                }
                            }
                            assert forall|j: int|
                                0 <= j < graph.nodes@.len() && #[trigger] self.cached(j) implies
                                self.cache_at(j).parameter_value_keys@.len() == graph.nodes@[
                                j
                            ].params@.len() by {
                                if j < idx {
                                    assert(self.node_cache_consistent(graph, j));
                                } else {
                                    assert(c0.cached(j));
                                    assert(self.cache_at(j) == c0.cache_at(j));
                                }
                            }
                        }
                        return Err(e);
                    },
                };
                let ghost after_create = *self;
                let ghost cache_g = cache;
                self.ensure_slot(i);
                self.nodes.set(i, Some(cache));
                proof {
                    assert forall|j2: int|
                        0 <= j2 < self.spec_factory_classes().len() implies ((
                    #[trigger] self.spec_factory_classes()[j2]).1 as int)
                        < self.spec_factories_len() by {
                        assert(((after_create.spec_factory_classes()[j2]).1 as int)
                            < after_create.spec_factories_len());
                    }
                    assert forall|j: int| #[trigger] self.cached(j) implies self.procs_contains(
                        self.cache_at(j).processor_key as int,
                    ) && (forall|q: int|
                        0 <= q < self.cache_at(j).parameter_value_keys@.len()
                            ==> self.params_contains(
                            #[trigger] self.cache_at(j).parameter_value_keys@[q] as int,
                        )) by {
                        if j == i as int {
                            assert(self.cache_at(j) == cache_g);
                        } else {
                            assert(after_create.cached(j));
                            assert(after_create.procs_contains(
                                after_create.cache_at(j).processor_key as int,
                            ));
                            assert(self.cache_at(j) == after_create.cache_at(j));
                        }
                    }
                    assert(self.wf());
                    assert(self.cache_at(i as int).parameter_value_keys@.len() == graph.nodes@[
                        i as int
                    ].params@.len());
                    assert(top.class_registered(graph.nodes@[i as int].class@));
                    Self::lemma_classes_transfer(top, c0);
                    assert(c0.class_registered(graph.nodes@[i as int].class@));
                }
            }
            let created = cache_missing;
            let node = match graph.get_node(i) {
                Some(nd) => nd,
                None => {
                    proof {
                        assert(false);
                    }
                    return Err(ControllerError::NodeNotFound(i));
                },
            };
            let ghost pre = *self;
            proof {
                // creation only touched slot `i`, so the visited prefix is
                // still consistent
                assert forall|j: int| 0 <= j < idx implies self.node_cache_consistent(
                    graph,
                    j,
                ) by {
                    assert(top.node_cache_consistent(graph, j));
                    assert(self.nodes@[j] == top.nodes@[j]);
                    assert(cache_core_eq(top.cache_at(j), self.cache_at(j)));
                    assert forall|k: int|
                        0 <= k < graph.nodes@[j].spec_sources().len() implies ({
                        let sj = #[trigger] graph.nodes@[j].spec_sources()[k] as int;
                        &&& self.cached(sj)
                        &&& cache_core_eq(top.cache_at(sj), self.cache_at(sj))
                        &&& top.cache_at(sj).audio_output_buffers@.len() == graph.nodes@[
                            sj
                        ].audio_outputs@.len()
                    }) by {
                        graph.lemma_source_bounds(j, k);
                        let sj = graph.nodes@[j].spec_sources()[k] as int;
                        assert(top.node_cache_consistent(graph, sj));
                        assert(self.nodes@[sj] == top.nodes@[sj]);
                    }
                    assert(graph.node_wf(j));
                    Self::lemma_consistent_preserved(top, *self, graph, j);
                }
            }
            if node.invalidated() || created {
                proof {
                    if !created {
                        assert(self.cache_at(i as int) == c0.cache_at(i as int));
                        assert(c0.cached(i as int));
                        assert(self.cache_at(i as int).parameter_value_keys@.len()
                            == graph.nodes@[i as int].params@.len());
                    }
                }
                match self.visit_invalidated_node(i, graph, context) {
                    Ok(()) => {},
                    Err(e) => {
                        proof {
                            assert(false);
                        }
                        return Err(e);
                    },
                }
            } else {
                proof {
                    assert(c0.cached(i as int));
                    assert(!c0.needs_rebuild(graph, i as int));
                    assert forall|k: int|
                        0 <= k < graph.nodes@[i as int].spec_sources().len() implies ({
                        let sj = #[trigger] graph.nodes@[i as int].spec_sources()[k] as int;
                        &&& self.cached(sj)
                        &&& sj < context.destination_counts@.len()
                    }) by {
                        graph.lemma_source_bounds(i as int, k);
                        let sj = graph.nodes@[i as int].spec_sources()[k] as int;
                        assert(!c0.needs_rebuild(graph, sj));
                        assert(c0.cached(sj));
                    }
                }
                match self.visit_unchanged_node(i, graph, context) {
                    Ok(()) => {},
                    Err(e) => {
                        proof {
                            assert(false);
                        }
                        return Err(e);
                    },
                }
                proof {
                    assert forall|j: int| 0 <= j < idx implies self.node_cache_consistent(
                        graph,
                        j,
                    ) by {
                        assert(pre.node_cache_consistent(graph, j));
                        assert forall|k: int|
                            0 <= k < graph.nodes@[j].spec_sources().len() implies ({
                            let sj = #[trigger] graph.nodes@[j].spec_sources()[k] as int;
                            &&& self.cached(sj)
                            &&& cache_core_eq(pre.cache_at(sj), self.cache_at(sj))
                            &&& pre.cache_at(sj).audio_output_buffers@.len() == graph.nodes@[
                                sj
                            ].audio_outputs@.len()
                        }) by {
                            graph.lemma_source_bounds(j, k);
                            let sj = graph.nodes@[j].spec_sources()[k] as int;
                            assert(pre.node_cache_consistent(graph, sj));
                            assert(pre.cached(sj));
                        }
                        assert(graph.node_wf(j));
                        Self::lemma_consistent_preserved(pre, *self, graph, j);
                    }
                    assert(c0.node_cache_consistent(graph, i as int));
                    assert forall|k: int|
                        0 <= k < graph.nodes@[i as int].spec_sources().len() implies ({
                        let sj = #[trigger] graph.nodes@[i as int].spec_sources()[k] as int;
                        &&& self.cached(sj)
                        &&& cache_core_eq(c0.cache_at(sj), self.cache_at(sj))
                        &&& c0.cache_at(sj).audio_output_buffers@.len() == graph.nodes@[
                            sj
                        ].audio_outputs@.len()
                    }) by {
                        graph.lemma_source_bounds(i as int, k);
                        let sj = graph.nodes@[i as int].spec_sources()[k] as int;
                        assert(!c0.needs_rebuild(graph, sj));
                        assert(c0.cached(sj) && !graph.nodes@[sj].invalidated);
                        assert(c0.node_cache_consistent(graph, sj));
                        if sj < i as int {
                            assert(cache_core_eq(c0.cache_at(sj), pre.cache_at(sj)));
                            assert(cache_core_eq(pre.cache_at(sj), self.cache_at(sj)));
                        } else {
                            assert(false);
                        }
                    }
                    assert(cache_core_eq(c0.cache_at(i as int), pre.cache_at(i as int)));
                    assert(cache_core_eq(pre.cache_at(i as int), self.cache_at(i as int)));
                    assert(graph.node_wf(i as int));
                    Self::lemma_consistent_preserved(c0, *self, graph, i as int);
                }
            }
            proof {
                assert forall|j2: int|
                    0 <= j2 < self.spec_factory_classes().len() implies ((
                #[trigger] self.spec_factory_classes()[j2]).1 as int)
                    < self.spec_factories_len() by {
                    assert(((pre.spec_factory_classes()[j2]).1 as int)
                        < pre.spec_factories_len());
                }
                Self::lemma_keys_wf_from_core(pre, *self);
                assert(self.wf());
                assert forall|j: int|
                    0 <= j < idx + 1 && c0.cached(j) && !graph.nodes@[j].invalidated implies
                    cache_core_eq(c0.cache_at(j), self.cache_at(j)) by {
                    if j < idx {
                        assert(cache_core_eq(c0.cache_at(j), top.cache_at(j)));
                        assert(top.cached(j));
                        assert(pre.cache_at(j) == top.cache_at(j));
                        assert(pre.cached(j));
                        assert(cache_core_eq(pre.cache_at(j), self.cache_at(j)));
                    } else {
                        assert(top.cached(j));
                        assert(top.cache_at(j) == c0.cache_at(j));
                        assert(pre.cache_at(j) == top.cache_at(j));
                        assert(pre.cached(j));
                        assert(cache_core_eq(pre.cache_at(j), self.cache_at(j)));
                    }
                }
                assert(c0.uncached_count_upto(graph, idx + 1) == c0.uncached_count_upto(
                    graph,
                    idx as int,
                ) + (if !c0.cached(idx as int) {
                    1nat
                } else {
                    0nat
                }));
                assert(c0.uncached_params_upto(graph, idx + 1) == c0.uncached_params_upto(
                    graph,
                    idx as int,
                ) + (if !c0.cached(idx as int) {
                    graph.nodes@[idx as int].params@.len()
                } else {
                    0nat
                }));
                assert(self.spec_processors_len() == c0.spec_processors_len()
                    + c0.uncached_count_upto(graph, idx + 1));
                assert(self.spec_parameters_len() == c0.spec_parameters_len()
                    + c0.uncached_params_upto(graph, idx + 1));
                if forall|i2: int| 0 <= i2 < n ==> !c0.needs_rebuild(graph, i2) {
                    assert(!c0.needs_rebuild(graph, i as int));
                    assert(!created);
                    assert(pre.buffers == c0.buffers);
                    assert(self.buffers == c0.buffers);
                }
                assert forall|j: int|
                    0 <= j < idx + 1 && !c0.cached(j) implies c0.class_registered(
                    (#[trigger] graph.nodes@[j]).class@,
                ) by {}
                // nodes after this one were not touched: sources lie before
                assert forall|j: int|
                    idx + 1 <= j < graph.nodes@.len() && c0.cached(j) implies self.cache_at(j)
                        == c0.cache_at(j) by {
                    if graph.nodes@[i as int].spec_sources().contains(j as usize) {
                        let k = choose|k: int|
                            0 <= k < graph.nodes@[i as int].spec_sources().len()
                                && graph.nodes@[i as int].spec_sources()[k] == j as usize;
                        graph.lemma_source_bounds(i as int, k);
                        assert(false);
                    }
                    assert(self.nodes@[j] == pre.nodes@[j]);
                    assert(pre.cache_at(j) == c0.cache_at(j));
                }
            }
            idx = idx + 1;
        }
        proof {
            assert forall|j: int|
                0 <= j < graph.nodes@.len() && #[trigger] self.cached(j) && !graph.nodes@[
                j
            ].invalidated implies self.node_cache_consistent(graph, j) by {}
            assert forall|j: int|
                0 <= j < graph.nodes@.len() && #[trigger] self.cached(j) implies self.cache_at(
                j,
            ).parameter_value_keys@.len() == graph.nodes@[j].params@.len() by {
                assert(self.node_cache_consistent(graph, j));
            }
            if forall|i2: int| 0 <= i2 < graph.nodes@.len() ==> c0.cached(i2) {
                c0.lemma_uncached_counts_zero(graph, graph.nodes@.len() as int);
            }
            assert forall|i2: int|
                #![trigger graph.nodes@[i2]]
                (0 <= i2 < graph.nodes@.len() && !c0.cached(i2) && !c0.class_registered(
                    graph.nodes@[i2].class@,
                ) && (forall|j: int| 0 <= j < i2 ==> c0.cached(j))) implies false by {
                assert(c0.class_registered(graph.nodes@[i2].class@));
            }
        }
        Ok(())
    }

    /// Build the render plan for a graph: update every node cache, then
    /// concatenate the per-node render operations in dependency order and
    /// append one output operation per bound output alias. The plan is
    /// returned without being sent.
    pub fn build_render_plan(&mut self, graph: &Graph) -> (r: Result<RenderPlan, ControllerError>)
        requires
            graph.wf(),
            old(self).wf(),
            old(self).caches_consistent_for(graph),
            old(self).rebuild_closed(graph),
            old(self).param_keys_shaped(graph),
        ensures
            final(self).wf(),
            final(self).caches_consistent_for(graph),
            final(self).param_keys_shaped(graph),
            forall|j: int| #[trigger] old(self).cached(j) ==> final(self).cached(j),
            forall|j: int|
                0 <= j < graph.nodes@.len() && old(self).cached(j) && !graph.nodes@[
                    j
                ].invalidated ==> cache_core_eq(old(self).cache_at(j), final(self).cache_at(j)),
            forall|k: int|
                old(self).params_contains(k) ==> final(self).params_contains(k)
                    && final(self).param_at(k) == old(self).param_at(k),
            final(self).spec_factory_classes() == old(self).spec_factory_classes(),
            final(self).spec_factories() == old(self).spec_factories(),
            final(self).spec_config() == old(self).spec_config(),
            final(self).spec_empty_buffer() == old(self).spec_empty_buffer(),
            forall|j: int|
                j >= graph.nodes@.len() ==> (final(self).cached(j) <==> old(self).cached(j)),
            r is Ok ==> final(self).spec_processors_len() == old(self).spec_processors_len()
                + old(self).uncached_count_upto(graph, graph.nodes@.len() as int),
            r is Ok ==> final(self).spec_parameters_len() == old(self).spec_parameters_len()
                + old(self).uncached_params_upto(graph, graph.nodes@.len() as int),
            (forall|i: int| 0 <= i < graph.nodes@.len() ==> old(self).cached(i))
                ==> final(self).spec_processors_len() == old(self).spec_processors_len()
                && final(self).spec_parameters_len() == old(self).spec_parameters_len(),
            (forall|i: int| 0 <= i < graph.nodes@.len() ==> !old(self).needs_rebuild(graph, i))
                ==> final(self).spec_buffers() == old(self).spec_buffers(),
            forall|i: int|
                #![trigger graph.nodes@[i]]
                (0 <= i < graph.nodes@.len() && !old(self).cached(i) && !old(
                    self,
                ).class_registered(graph.nodes@[i].class@) && (forall|j: int|
                    0 <= j < i ==> old(self).cached(j))) ==> (r matches Err(e) && e matches
                    ControllerError::ProcessorFactoryNotFound(nm, cl) && cl@ == graph.nodes@[
                    i
                ].class@ && nm@ == graph.nodes@[i].spec_ref_string()
                    && final(self).spec_processors_len() == old(self).spec_processors_len()
                    && final(self).spec_parameters_len() == old(self).spec_parameters_len()),
            r matches Ok(plan) ==> (forall|i: int|
                0 <= i < graph.nodes@.len() ==> final(self).node_cache_consistent(graph, i))
                && plan.ops() == final(self).plan_ops(graph),
            r matches Err(e) ==> ({
                ||| (e matches ControllerError::ProcessorFactoryNotFound(nm, cl) && !old(
                    self,
                ).class_registered(cl@) && exists|i: int|
                    0 <= i < graph.nodes@.len() && !old(self).cached(i) && (
                    #[trigger] graph.nodes@[i]).class@ == cl@ && nm@ == graph.nodes@[
                        i
                    ].spec_ref_string())
                ||| (e matches ControllerError::ProcessorCreationFailed(nm, cl) && exists|i: int|
                    0 <= i < graph.nodes@.len() && !old(self).cached(i) && (
                    #[trigger] graph.nodes@[i]).class@ == cl@ && nm@ == graph.nodes@[
                        i
                    ].spec_ref_string())
            }),
    {
        let topology = graph.topology();
        let all_keys = self.buffers.keys();
        let mut free: Vec<usize> = Vec::new();
        let mut fk: usize = 0;
        while fk < all_keys.len()
            invariant
                fk <= all_keys@.len(),
                !free@.contains(self.spec_empty_buffer()),
            decreases all_keys@.len() - fk,
        {
            let key = all_keys[fk];
            let ghost free_pre = free@;
            if key != self.empty_buffer {
                free.push(key);
            }
            fk = fk + 1;
            proof {
                if free@.contains(self.spec_empty_buffer()) {
                    let j2 = choose|j2: int|
                        0 <= j2 < free@.len() && free@[j2] == self.spec_empty_buffer();
                    if j2 < free_pre.len() {
                        assert(free_pre[j2] == self.spec_empty_buffer());
                    }
                    assert(false);
                }
            }
        }
        let mut update_context = UpdateContext::new(&topology, free);
        match self.update_nodes(&topology.nodes, graph, &mut update_context) {
            Ok(()) => {},
            Err(e) => {
                return Err(e);
            },
        }
        let ghost cfin = *self;
        let n = topology.nodes.len();
        let mut plan = RenderPlan::default();
        let mut idx: usize = 0;
        while idx < n
            invariant
                idx <= n,
                n == graph.nodes@.len(),
                *self == cfin,
                forall|i: int|
                    0 <= i < graph.nodes@.len() ==> self.node_cache_consistent(graph, i),
                plan.ops() == Seq::new(idx as nat, |i: int| cfin.cache_at(i).render_ops@[0]@),
            decreases n - idx,
        {
            let node_cache = match self.node_cache(idx) {
                Some(nc) => nc,
                None => {
                    proof {
                        assert(self.node_cache_consistent(graph, idx as int));
                        assert(false);
                    }
                    return Err(ControllerError::NodeCacheNotFound(idx));
                },
            };
            let ghost plan0 = plan;
            let mut t: usize = 0;
            while t < node_cache.render_ops.len()
                invariant
                    t <= node_cache.render_ops@.len(),
                    node_cache == cfin.cache_at(idx as int),
                    plan.operations@.len() == plan0.operations@.len() + t,
                    forall|x: int|
                        0 <= x < plan0.operations@.len() ==> (
                        #[trigger] plan.operations@[x])@ == plan0.operations@[x]@,
                    forall|x: int|
                        0 <= x < t ==> (#[trigger] plan.operations@[
                            plan0.operations@.len() + x
                        ])@ == node_cache.render_ops@[x]@,
                decreases node_cache.render_ops@.len() - t,
            {
                plan.operations.push(node_cache.render_ops[t].clone());
                t = t + 1;
            }
            idx = idx + 1;
            proof {
                assert(self.node_cache_consistent(graph, idx - 1));
                assert(cfin.cache_at(idx - 1).render_ops@.len() == 1);
                let goal = Seq::new(idx as nat, |i2: int| cfin.cache_at(i2).render_ops@[0]@);
                assert(plan0.ops().len() == idx - 1);
                assert(plan0.operations@.len() == idx - 1);
                assert(plan.operations@.len() == idx);
                assert forall|x: int| 0 <= x < plan.operations@.len() implies plan.ops()[x]
                    == goal[x] by {
                    assert(plan.ops()[x] == plan.operations@[x]@);
                    if x < plan0.operations@.len() {
                        assert(plan.operations@[x]@ == plan0.operations@[x]@);
                        assert(plan0.ops()[x] == plan0.operations@[x]@);
                    } else {
                        assert(plan.operations@[plan0.operations@.len() as int + 0]@
                            == node_cache.render_ops@[0]@);
                        assert(x == plan0.operations@.len());
                    }
                }
                assert(plan.ops() =~= goal);
            }
        }
        let ghost proc_ops = plan.ops();
        let mut b: usize = 0;
        while b < graph.bound_outputs.len()
            invariant
                b <= graph.bound_outputs@.len(),
                n == graph.nodes@.len(),
                *self == cfin,
                graph.wf(),
                forall|i: int|
                    0 <= i < graph.nodes@.len() ==> self.node_cache_consistent(graph, i),
                plan.operations@.len() == n + b,
                plan.ops() == proc_ops + graph.bound_outputs@.subrange(0, b as int).map_values(
                    |bo: (String, AudioOutRef)|
                        OpView::Output {
                            alias: bo.0@,
                            audio_input: cfin.cache_at(
                                bo.1.node_ref as int,
                            ).audio_output_buffers@[bo.1.audio_port_key as int]@,
                        },
                ),
                proc_ops.len() == n,
            decreases graph.bound_outputs@.len() - b,
        {
            let ghost plan0 = plan;
            let entry = &graph.bound_outputs[b];
            proof {
                assert(graph.bound_ok(b as int));
                assert(self.node_cache_consistent(graph, entry.1.node_ref as int));
            }
            let node_cache = match self.node_cache(entry.1.node_ref) {
                Some(nc) => nc,
                None => {
                    proof {
                        assert(false);
                    }
                    return Err(ControllerError::NodeCacheNotFound(entry.1.node_ref));
                },
            };
            let output_buffers = match node_cache.get_audio_output_buffer(entry.1.audio_port_key) {
                Ok(bufs) => bufs,
                Err(e) => {
                    proof {
                        assert(false);
                    }
                    return Err(e);
                },
            };
            let op = RenderOp::RenderOutput {
                alias: entry.0.clone(),
                audio_input: copy_keys(output_buffers),
            };
            plan.operations.push(op);
            b = b + 1;
            proof {
                let f = |bo: (String, AudioOutRef)|
                    OpView::Output {
                        alias: bo.0@,
                        audio_input: cfin.cache_at(
                            bo.1.node_ref as int,
                        ).audio_output_buffers@[bo.1.audio_port_key as int]@,
                    };
                assert(plan.operations@[plan.operations@.len() - 1]@ == f(
                    graph.bound_outputs@[b - 1],
                ));
                let goal = proc_ops + graph.bound_outputs@.subrange(0, b as int).map_values(f);
                let prev = proc_ops + graph.bound_outputs@.subrange(0, b - 1).map_values(f);
                assert forall|x: int| 0 <= x < plan.operations@.len() implies plan.ops()[x]
                    == goal[x] by {
                    assert(plan.ops()[x] == plan.operations@[x]@);
                    if x < plan0.operations@.len() {
                        assert(plan.operations@[x] == plan0.operations@[x]);
                        assert(plan0.ops()[x] == plan0.operations@[x]@);
                        assert(plan0.ops()[x] == prev[x]);
                        if x >= proc_ops.len() {
                            assert(prev[x] == f(graph.bound_outputs@.subrange(0, b - 1)[
                                x - proc_ops.len()
                            ]));
                            assert(goal[x] == f(graph.bound_outputs@.subrange(0, b as int)[
                                x - proc_ops.len()
                            ]));
                            assert(graph.bound_outputs@.subrange(0, b - 1)[x - proc_ops.len()]
                                == graph.bound_outputs@.subrange(0, b as int)[
                                x - proc_ops.len()
                            ]);
                        }
                    } else {
                        assert(plan.operations@[x]@ == f(graph.bound_outputs@[b - 1]));
                        assert(goal[x] == f(graph.bound_outputs@.subrange(0, b as int)[
                            x - proc_ops.len()
                        ]));
                    }
                }
                assert(plan.ops() =~= goal);
            }
        }
        proof {
            assert(graph.bound_outputs@.subrange(0, graph.bound_outputs@.len() as int)
                =~= graph.bound_outputs@);
            assert(plan.ops() =~= self.plan_ops(graph));
        }
        Ok(plan)
    }

    /// Translate the graph into a fresh render plan and hand it to the
    /// renderer. The send is the commit point: on `SendFailure` the caches
    /// are fully rebuilt and valid, and the next successful call re-sends
    /// an equivalent plan.
    pub fn update_graph(&mut self, graph: &Graph) -> (r: Result<(), ControllerError>)
        requires
            graph.wf(),
            old(self).wf(),
            old(self).caches_consistent_for(graph),
            old(self).rebuild_closed(graph),
            old(self).param_keys_shaped(graph),
        ensures
            final(self).wf(),
            final(self).caches_consistent_for(graph),
            final(self).param_keys_shaped(graph),
            forall|j: int| #[trigger] old(self).cached(j) ==> final(self).cached(j),
            forall|j: int|
                0 <= j < graph.nodes@.len() && old(self).cached(j) && !graph.nodes@[
                    j
                ].invalidated ==> cache_core_eq(old(self).cache_at(j), final(self).cache_at(j)),
            forall|k: int|
                old(self).params_contains(k) ==> final(self).params_contains(k)
                    && final(self).param_at(k) == old(self).param_at(k),
            final(self).spec_factory_classes() == old(self).spec_factory_classes(),
            final(self).spec_factories() == old(self).spec_factories(),
            final(self).spec_config() == old(self).spec_config(),
            final(self).spec_empty_buffer() == old(self).spec_empty_buffer(),
            forall|j: int|
                j >= graph.nodes@.len() ==> (final(self).cached(j) <==> old(self).cached(j)),
            (r is Ok || (r matches Err(e) && e is SendFailure))
                ==> final(self).spec_processors_len() == old(self).spec_processors_len()
                + old(self).uncached_count_upto(graph, graph.nodes@.len() as int)
                && final(self).spec_parameters_len() == old(self).spec_parameters_len()
                + old(self).uncached_params_upto(graph, graph.nodes@.len() as int),
            (forall|i: int| 0 <= i < graph.nodes@.len() ==> old(self).cached(i))
                ==> final(self).spec_processors_len() == old(self).spec_processors_len()
                && final(self).spec_parameters_len() == old(self).spec_parameters_len(),
            (forall|i: int| 0 <= i < graph.nodes@.len() ==> !old(self).needs_rebuild(graph, i))
                ==> final(self).spec_buffers() == old(self).spec_buffers(),
            forall|i: int|
                #![trigger graph.nodes@[i]]
                (0 <= i < graph.nodes@.len() && !old(self).cached(i) && !old(
                    self,
                ).class_registered(graph.nodes@[i].class@) && (forall|j: int|
                    0 <= j < i ==> old(self).cached(j))) ==> (r matches Err(e) && e matches
                    ControllerError::ProcessorFactoryNotFound(nm, cl) && cl@ == graph.nodes@[
                    i
                ].class@ && nm@ == graph.nodes@[i].spec_ref_string()
                    && final(self).spec_processors_len() == old(self).spec_processors_len()
                    && final(self).spec_parameters_len() == old(self).spec_parameters_len()),
            (r is Ok || (r matches Err(e) && e is SendFailure)) ==> forall|i: int|
                0 <= i < graph.nodes@.len() ==> final(self).node_cache_consistent(graph, i),
            r matches Err(e) ==> ({
                ||| e is SendFailure
                ||| (e matches ControllerError::ProcessorFactoryNotFound(nm, cl) && !old(
                    self,
                ).class_registered(cl@) && exists|i: int|
                    0 <= i < graph.nodes@.len() && !old(self).cached(i) && (
                    #[trigger] graph.nodes@[i]).class@ == cl@ && nm@ == graph.nodes@[
                        i
                    ].spec_ref_string())
                ||| (e matches ControllerError::ProcessorCreationFailed(nm, cl) && exists|i: int|
                    0 <= i < graph.nodes@.len() && !old(self).cached(i) && (
                    #[trigger] graph.nodes@[i]).class@ == cl@ && nm@ == graph.nodes@[
                        i
                    ].spec_ref_string())
            }),
    {
        let plan = match self.build_render_plan(graph) {
            Ok(p) => p,
            Err(e) => {
                return Err(e);
            },
        };
        let ghost mid = *self;
        let sent = ring_push(&mut self.tx, Message::MoveRenderPlan(Box::new(plan)));
        proof {
            Self::lemma_wf_preserved(mid, *self);
            assert forall|i: int| 0 <= i < graph.nodes@.len() implies self.node_cache_consistent(
                graph,
                i,
            ) by {
                assert(mid.node_cache_consistent(graph, i));
                assert(graph.node_wf(i));
                assert(cache_core_eq(mid.cache_at(i), self.cache_at(i)));
                assert forall|k: int|
                    0 <= k < graph.nodes@[i].spec_sources().len() implies ({
                    let sj = #[trigger] graph.nodes@[i].spec_sources()[k] as int;
                    &&& self.cached(sj)
                    &&& cache_core_eq(mid.cache_at(sj), self.cache_at(sj))
                    &&& mid.cache_at(sj).audio_output_buffers@.len() == graph.nodes@[
                        sj
                    ].audio_outputs@.len()
                }) by {
                    graph.lemma_source_bounds(i, k);
                    let sj = graph.nodes@[i].spec_sources()[k] as int;
                    assert(mid.node_cache_consistent(graph, sj));
                }
                Self::lemma_consistent_preserved(mid, *self, graph, i);
            }
            assert forall|j: int|
                0 <= j < graph.nodes@.len() && #[trigger] self.cached(j) implies self.cache_at(
                j,
            ).parameter_value_keys@.len() == graph.nodes@[j].params@.len() by {
                assert(self.node_cache_consistent(graph, j));
            }
        }
        match sent {
            None => Ok(()),
            Some(_rejected) => Err(ControllerError::SendFailure),
        }
    }
}


} // verus!
