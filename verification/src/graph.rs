//! The controller's own model of the audio processing graph it consumes:
//! nodes with parameter ports, audio input ports and audio output ports,
//! connections between them, and host-bound output aliases.
//!
//! Node references are indices into the graph's node list, which is kept in
//! dependency order: a connection always runs from an earlier node (the
//! source) to a later one. Port keys are indices into the owning node's port
//! lists. The topology handed to the planner is therefore the node list
//! itself plus a per-node count of downstream connections.

use vstd::prelude::*;
use vstd::string::StringExecFns;

verus! {

/// Reference to one audio output port: the source node and its port key.
#[derive(Clone, Copy, Debug, PartialEq, Eq, Structural)]
pub struct AudioOutRef {
    pub node_ref: usize,
    pub audio_port_key: usize,
}

/// Reference to one audio input port.
#[derive(Clone, Copy, Debug, PartialEq, Eq, Structural)]
pub struct AudioInRef {
    pub node_ref: usize,
    pub audio_port_key: usize,
}

/// Reference to one parameter port.
#[derive(Clone, Copy, Debug, PartialEq, Eq, Structural)]
pub struct ParamRef {
    pub node_ref: usize,
    pub param_port_key: usize,
}

/// Describes one audio port: its identifier and channel count.
pub struct AudioDescriptor {
    pub id: String,
    pub channels: usize,
}

impl AudioDescriptor {
    pub fn new(id: &str, channels: usize) -> (r: Self)
        ensures
            r.id@ == id@,
            r.channels == channels,
    {
        AudioDescriptor { id: id.to_owned(), channels }
    }
}

/// Describes one parameter port: its identifier and the initial value of its
/// parameter cell, given as the raw 32-bit pattern of the sample value.
pub struct ParamDescriptor {
    pub id: String,
    pub initial: u32,
}

impl ParamDescriptor {
    pub fn new(id: &str) -> (r: Self)
        ensures
            r.id@ == id@,
            r.initial == 0u32,
    {
        ParamDescriptor { id: id.to_owned(), initial: 0 }
    }

    pub fn with_initial(self, initial: u32) -> (r: Self)
        ensures
            r.id@ == self.id@,
            r.initial == initial,
    {
        ParamDescriptor { id: self.id, initial }
    }
}

/// Describes a node class: its class name and its static ports.
pub struct NodeDescriptor {
    pub class: String,
    pub audio_inputs: Vec<AudioDescriptor>,
    pub audio_outputs: Vec<AudioDescriptor>,
    pub parameters: Vec<ParamDescriptor>,
}

impl NodeDescriptor {
    pub fn new(class: &str) -> (r: Self)
        ensures
            r.class@ == class@,
            r.audio_inputs@.len() == 0,
            r.audio_outputs@.len() == 0,
            r.parameters@.len() == 0,
    {
        NodeDescriptor {
            class: class.to_owned(),
            audio_inputs: Vec::new(),
            audio_outputs: Vec::new(),
            parameters: Vec::new(),
        }
    }

    pub fn static_audio_inputs(self, audio_inputs: Vec<AudioDescriptor>) -> (r: Self)
        ensures
            r == (NodeDescriptor { audio_inputs, ..self }),
    {
        NodeDescriptor { audio_inputs, ..self }
    }

    pub fn static_audio_outputs(self, audio_outputs: Vec<AudioDescriptor>) -> (r: Self)
        ensures
            r == (NodeDescriptor { audio_outputs, ..self }),
    {
        NodeDescriptor { audio_outputs, ..self }
    }

    pub fn static_parameters(self, parameters: Vec<ParamDescriptor>) -> (r: Self)
        ensures
            r == (NodeDescriptor { parameters, ..self }),
    {
        NodeDescriptor { parameters, ..self }
    }
}

/// A parameter port of a node, possibly driven by an audio output.
pub struct ParamPort {
    pub id: String,
    pub initial: u32,
    pub connection: Option<AudioOutRef>,
}

/// An audio input port of a node.
pub struct AudioInPort {
    pub id: String,
    pub channels: usize,
    pub connection: Option<AudioOutRef>,
}

/// An audio output port of a node.
pub struct AudioOutPort {
    pub id: String,
    pub channels: usize,
}

/// One node of the graph.
pub struct Node {
    pub name: String,
    pub class: String,
    pub invalidated: bool,
    pub params: Vec<ParamPort>,
    pub audio_inputs: Vec<AudioInPort>,
    pub audio_outputs: Vec<AudioOutPort>,
}

/// Source node references contributed by a parameter port list, one entry per
/// connection, in port order.
pub open spec fn param_sources(ps: Seq<ParamPort>) -> Seq<usize>
    decreases ps.len(),
{
    if ps.len() == 0 {
        Seq::empty()
    } else {
        param_sources(ps.drop_last()) + (if ps.last().connection is Some {
            seq![ps.last().connection->Some_0.node_ref]
        } else {
            Seq::empty()
        })
    }
}

/// Source node references contributed by an audio input port list.
pub open spec fn audio_in_sources(ps: Seq<AudioInPort>) -> Seq<usize>
    decreases ps.len(),
{
    if ps.len() == 0 {
        Seq::empty()
    } else {
        audio_in_sources(ps.drop_last()) + (if ps.last().connection is Some {
            seq![ps.last().connection->Some_0.node_ref]
        } else {
            Seq::empty()
        })
    }
}

impl Node {
    /// Every source node this node reads from, one entry per connection:
    /// parameter connections first, then audio input connections.
    pub open spec fn spec_sources(&self) -> Seq<usize> {
        param_sources(self.params@) + audio_in_sources(self.audio_inputs@)
    }

    /// Diagnostic name of the node, `Node[<name>]`.
    pub open spec fn spec_ref_string(&self) -> Seq<char> {
        "Node["@ + self.name@ + "]"@
    }

    pub fn invalidated(&self) -> (r: bool)
        ensures
            r == self.invalidated,
    {
        self.invalidated
    }

    pub fn class(&self) -> (r: &String)
        ensures
            r@ == self.class@,
    {
        &self.class
    }

    pub fn ref_string(&self) -> (r: String)
        ensures
            r@ == self.spec_ref_string(),
    {
        let mut s: String = "Node[".to_owned();
        s.append(self.name.as_str());
        s.append("]");
        s
    }

    /// Every source node this node reads from, one entry per connection.
    pub fn sources(&self) -> (r: Vec<usize>)
        ensures
            r@ == self.spec_sources(),
    {
        let mut r: Vec<usize> = Vec::new();
        let mut q: usize = 0;
        while q < self.params.len()
            invariant
                q <= self.params@.len(),
                r@ == param_sources(self.params@.subrange(0, q as int)),
            decreases self.params@.len() - q,
        {
            let ghost pre = self.params@.subrange(0, q as int);
            match &self.params[q].connection {
                Some(aor) => { r.push(aor.node_ref) },
                None => {},
            }
            q = q + 1;
            proof {
                let cur = self.params@.subrange(0, q as int);
                assert(cur.drop_last() =~= pre);
                assert(cur.last() == self.params@[q - 1]);
                if self.params@[q - 1].connection is Some {
                    assert(r@ =~= param_sources(cur));
                } else {
                    assert(r@ =~= param_sources(cur));
                }
            }
        }
        proof {
            assert(self.params@.subrange(0, self.params@.len() as int) =~= self.params@);
        }
        let ghost first = r@;
        let mut a: usize = 0;
        while a < self.audio_inputs.len()
            invariant
                a <= self.audio_inputs@.len(),
                r@ == first + audio_in_sources(self.audio_inputs@.subrange(0, a as int)),
            decreases self.audio_inputs@.len() - a,
        {
            let ghost pre = self.audio_inputs@.subrange(0, a as int);
            match &self.audio_inputs[a].connection {
                Some(aor) => { r.push(aor.node_ref) },
                None => {},
            }
            a = a + 1;
            proof {
                let cur = self.audio_inputs@.subrange(0, a as int);
                assert(cur.drop_last() =~= pre);
                assert(cur.last() == self.audio_inputs@[a - 1]);
                assert(r@ =~= first + audio_in_sources(cur));
            }
        }
        proof {
            assert(self.audio_inputs@.subrange(0, self.audio_inputs@.len() as int)
                =~= self.audio_inputs@);
            assert(r@ =~= self.spec_sources());
        }
        r
    }
}

/// A connected parameter port's source node appears in the port list's
/// source references.
pub proof fn lemma_param_sources_contains(ps: Seq<ParamPort>, q: int)
    requires
        0 <= q < ps.len(),
        ps[q].connection is Some,
    ensures
        param_sources(ps).contains(ps[q].connection->Some_0.node_ref),
    decreases ps.len(),
{
    if q == ps.len() - 1 {
        let s = param_sources(ps);
        assert(s[s.len() - 1] == ps[q].connection->Some_0.node_ref);
    } else {
        lemma_param_sources_contains(ps.drop_last(), q);
        assert(ps.drop_last()[q] == ps[q]);
        let pre = param_sources(ps.drop_last());
        let j = choose|j: int|
            0 <= j < pre.len() && pre[j] == ps[q].connection->Some_0.node_ref;
        assert(param_sources(ps)[j] == ps[q].connection->Some_0.node_ref);
    }
}

/// A connected audio input port's source node appears in the port list's
/// source references.
pub proof fn lemma_audio_in_sources_contains(ps: Seq<AudioInPort>, a: int)
    requires
        0 <= a < ps.len(),
        ps[a].connection is Some,
    ensures
        audio_in_sources(ps).contains(ps[a].connection->Some_0.node_ref),
    decreases ps.len(),
{
    if a == ps.len() - 1 {
        let s = audio_in_sources(ps);
        assert(s[s.len() - 1] == ps[a].connection->Some_0.node_ref);
    } else {
        lemma_audio_in_sources_contains(ps.drop_last(), a);
        assert(ps.drop_last()[a] == ps[a]);
        let pre = audio_in_sources(ps.drop_last());
        let j = choose|j: int|
            0 <= j < pre.len() && pre[j] == ps[a].connection->Some_0.node_ref;
        assert(audio_in_sources(ps)[j] == ps[a].connection->Some_0.node_ref);
    }
}

impl Node {
    /// Every node a connection of this node reads from stands in its source
    /// references.
    pub proof fn lemma_connection_in_sources(&self, aor: AudioOutRef)
        requires
            (exists|q: int|
                0 <= q < self.params@.len() && (#[trigger] self.params@[q]).connection == Some(
                    aor,
                )) || (exists|a: int|
                0 <= a < self.audio_inputs@.len()
                    && (#[trigger] self.audio_inputs@[a]).connection == Some(aor)),
        ensures
            self.spec_sources().contains(aor.node_ref),
    {
        if exists|q: int|
            0 <= q < self.params@.len() && (#[trigger] self.params@[q]).connection == Some(aor) {
            let q = choose|q: int|
                0 <= q < self.params@.len() && (#[trigger] self.params@[q]).connection == Some(
                    aor,
                );
            lemma_param_sources_contains(self.params@, q);
            let pre = param_sources(self.params@);
            let j = choose|j: int| 0 <= j < pre.len() && pre[j] == aor.node_ref;
            assert(self.spec_sources()[j] == aor.node_ref);
        } else {
            let a = choose|a: int|
                0 <= a < self.audio_inputs@.len()
                    && (#[trigger] self.audio_inputs@[a]).connection == Some(aor);
            lemma_audio_in_sources_contains(self.audio_inputs@, a);
            let pre = audio_in_sources(self.audio_inputs@);
            let j = choose|j: int| 0 <= j < pre.len() && pre[j] == aor.node_ref;
            assert(self.spec_sources()[param_sources(self.params@).len() + j] == aor.node_ref);
        }
    }
}

/// Every source reference of a parameter port list comes from some
/// connected port.
pub proof fn lemma_param_sources_to_conn(ps: Seq<ParamPort>, k: int)
    requires
        0 <= k < param_sources(ps).len(),
    ensures
        exists|q: int|
            0 <= q < ps.len() && (#[trigger] ps[q]).connection is Some
                && ps[q].connection->Some_0.node_ref == param_sources(ps)[k],
    decreases ps.len(),
{
    let pre = param_sources(ps.drop_last());
    if k < pre.len() {
        lemma_param_sources_to_conn(ps.drop_last(), k);
        let q = choose|q: int|
            0 <= q < ps.drop_last().len() && (#[trigger] ps.drop_last()[q]).connection is Some
                && ps.drop_last()[q].connection->Some_0.node_ref == param_sources(
                ps.drop_last(),
            )[k];
        assert(ps[q] == ps.drop_last()[q]);
        assert(param_sources(ps)[k] == pre[k]);
    } else {
        assert(ps.last().connection is Some);
        assert(ps[ps.len() - 1].connection is Some);
        assert(param_sources(ps)[k] == ps[ps.len() - 1].connection->Some_0.node_ref);
    }
}

/// Every source reference of an audio input port list comes from some
/// connected port.
pub proof fn lemma_audio_in_sources_to_conn(ps: Seq<AudioInPort>, k: int)
    requires
        0 <= k < audio_in_sources(ps).len(),
    ensures
        exists|a: int|
            0 <= a < ps.len() && (#[trigger] ps[a]).connection is Some
                && ps[a].connection->Some_0.node_ref == audio_in_sources(ps)[k],
    decreases ps.len(),
{
    let pre = audio_in_sources(ps.drop_last());
    if k < pre.len() {
        lemma_audio_in_sources_to_conn(ps.drop_last(), k);
        let a = choose|a: int|
            0 <= a < ps.drop_last().len() && (#[trigger] ps.drop_last()[a]).connection is Some
                && ps.drop_last()[a].connection->Some_0.node_ref == audio_in_sources(
                ps.drop_last(),
            )[k];
        assert(ps[a] == ps.drop_last()[a]);
        assert(audio_in_sources(ps)[k] == pre[k]);
    } else {
        assert(ps.last().connection is Some);
        assert(ps[ps.len() - 1].connection is Some);
        assert(audio_in_sources(ps)[k] == ps[ps.len() - 1].connection->Some_0.node_ref);
    }
}

impl Graph {
    /// In a well-formed graph, every source reference of a node points at an
    /// earlier node with at least one audio output port.
    pub proof fn lemma_source_bounds(&self, i: int, k: int)
        requires
            0 <= i < self.nodes@.len(),
            self.node_wf(i),
            0 <= k < self.nodes@[i].spec_sources().len(),
        ensures
            (self.nodes@[i].spec_sources()[k] as int) < i,
    {
        let n = self.nodes@[i];
        let ps = param_sources(n.params@);
        if k < ps.len() {
            lemma_param_sources_to_conn(n.params@, k);
            let q = choose|q: int|
                0 <= q < n.params@.len() && (#[trigger] n.params@[q]).connection is Some
                    && n.params@[q].connection->Some_0.node_ref == param_sources(n.params@)[k];
            assert(self.conn_ok(i, n.params@[q].connection->Some_0));
        } else {
            let k2 = k - ps.len();
            lemma_audio_in_sources_to_conn(n.audio_inputs@, k2);
            let a = choose|a: int|
                0 <= a < n.audio_inputs@.len() && (#[trigger] n.audio_inputs@[a]).connection
                    is Some && n.audio_inputs@[a].connection->Some_0.node_ref == audio_in_sources(
                    n.audio_inputs@,
                )[k2];
            assert(self.conn_ok(i, n.audio_inputs@[a].connection->Some_0));
            assert(n.spec_sources()[k] == audio_in_sources(n.audio_inputs@)[k2]);
        }
    }
}

/// Why a graph editing call was rejected.
#[derive(Clone, Copy, Debug, PartialEq, Eq, Structural)]
pub enum GraphError {
    NodeNotFound,
    PortNotFound,
    NoAudioOutputs,
    NotInDependencyOrder,
}

/// Topology handed to the planner: node references in dependency order and,
/// for each node, how many downstream connections read its outputs.
pub struct GraphTopology {
    pub nodes: Vec<usize>,
    pub destination_counts: Vec<usize>,
}

/// The user-editable audio processing graph.
pub struct Graph {
    pub nodes: Vec<Node>,
    pub bound_outputs: Vec<(String, AudioOutRef)>,
}

/// Number of occurrences of `x` in `q`.
pub open spec fn count_of(q: Seq<usize>, x: usize) -> nat
    decreases q.len(),
{
    if q.len() == 0 {
        0
    } else {
        count_of(q.drop_last(), x) + (if q.last() == x {
            1nat
        } else {
            0nat
        })
    }
}

/// All source references of the first `k` nodes, concatenated.
pub open spec fn all_sources_upto(nodes: Seq<Node>, k: int) -> Seq<usize>
    decreases k,
{
    if k <= 0 {
        Seq::empty()
    } else {
        all_sources_upto(nodes, k - 1) + nodes[k - 1].spec_sources()
    }
}

pub proof fn lemma_count_le_len(q: Seq<usize>, x: usize)
    ensures
        count_of(q, x) <= q.len(),
    decreases q.len(),
{
    if q.len() > 0 {
        lemma_count_le_len(q.drop_last(), x);
    }
}

pub proof fn lemma_count_append(a: Seq<usize>, b: Seq<usize>, x: usize)
    ensures
        count_of(a + b, x) == count_of(a, x) + count_of(b, x),
    decreases b.len(),
{
    if b.len() == 0 {
        assert(a + b =~= a);
    } else {
        lemma_count_append(a, b.drop_last(), x);
        assert((a + b).drop_last() =~= a + b.drop_last());
        assert((a + b).last() == b.last());
    }
}

impl Graph {
    /// A graph is well formed when every connection runs from an earlier node
    /// to a later one and points at an existing output port with at least one
    /// channel, port identifiers are distinct within each port list, bound
    /// output aliases are distinct and point at existing ports, and the total
    /// number of connections fits the machine.
    pub open spec fn conn_ok(&self, i: int, c: AudioOutRef) -> bool {
        &&& (c.node_ref as int) < i
        &&& (c.audio_port_key as int) < self.nodes@[c.node_ref as int].audio_outputs@.len()
        &&& self.nodes@[c.node_ref as int].audio_outputs@[c.audio_port_key as int].channels >= 1
    }

    pub open spec fn node_wf(&self, i: int) -> bool {
        let n = self.nodes@[i];
        &&& forall|q: int|
            0 <= q < n.params@.len() && (#[trigger] n.params@[q]).connection is Some
                ==> self.conn_ok(i, n.params@[q].connection->Some_0)
        &&& forall|a: int|
            0 <= a < n.audio_inputs@.len() && (#[trigger] n.audio_inputs@[a]).connection is Some
                ==> self.conn_ok(i, n.audio_inputs@[a].connection->Some_0)
        &&& forall|q1: int, q2: int|
            0 <= q1 < q2 < n.params@.len() ==> n.params@[q1].id@ != n.params@[q2].id@
        &&& forall|a1: int, a2: int|
            0 <= a1 < a2 < n.audio_inputs@.len() ==> n.audio_inputs@[a1].id@
                != n.audio_inputs@[a2].id@
        &&& forall|p1: int, p2: int|
            0 <= p1 < p2 < n.audio_outputs@.len() ==> n.audio_outputs@[p1].id@
                != n.audio_outputs@[p2].id@
    }

    pub open spec fn bound_ok(&self, b: int) -> bool {
        let r = self.bound_outputs@[b].1;
        &&& (r.node_ref as int) < self.nodes@.len()
        &&& (r.audio_port_key as int) < self.nodes@[r.node_ref as int].audio_outputs@.len()
    }

    pub open spec fn wf(&self) -> bool {
        &&& forall|i: int| 0 <= i < self.nodes@.len() ==> self.node_wf(i)
        &&& forall|b: int| 0 <= b < self.bound_outputs@.len() ==> self.bound_ok(b)
        &&& forall|b1: int, b2: int|
            0 <= b1 < b2 < self.bound_outputs@.len() ==> self.bound_outputs@[b1].0@
                != self.bound_outputs@[b2].0@
        &&& all_sources_upto(self.nodes@, self.nodes@.len() as int).len() <= usize::MAX
    }

    /// Downstream connection count of node `s`.
    pub open spec fn spec_destination_count(&self, s: usize) -> nat {
        count_of(all_sources_upto(self.nodes@, self.nodes@.len() as int), s)
    }

    pub fn new() -> (r: Self)
        ensures
            r.nodes@.len() == 0,
            r.bound_outputs@.len() == 0,
    {
        Graph { nodes: Vec::new(), bound_outputs: Vec::new() }
    }

    /// Add a node built from a descriptor; returns its node reference. New
    /// nodes have no connections and are not invalidated.
    pub fn add_node(&mut self, name: &str, descriptor: NodeDescriptor) -> (r: usize)
        ensures
            r == old(self).nodes@.len(),
            final(self).nodes@.len() == old(self).nodes@.len() + 1,
            final(self).nodes@.subrange(0, r as int) == old(self).nodes@,
            final(self).bound_outputs@ == old(self).bound_outputs@,
            ({
                let n = final(self).nodes@[r as int];
                &&& n.name@ == name@
                &&& n.class@ == descriptor.class@
                &&& !n.invalidated
                &&& n.params@.len() == descriptor.parameters@.len()
                &&& forall|q: int|
                    0 <= q < n.params@.len() ==> (#[trigger] n.params@[q]).id@
                        == descriptor.parameters@[q].id@ && n.params@[q].initial
                        == descriptor.parameters@[q].initial && n.params@[q].connection is None
                &&& n.audio_inputs@.len() == descriptor.audio_inputs@.len()
                &&& forall|a: int|
                    0 <= a < n.audio_inputs@.len() ==> (#[trigger] n.audio_inputs@[a]).id@
                        == descriptor.audio_inputs@[a].id@ && n.audio_inputs@[a].channels
                        == descriptor.audio_inputs@[a].channels && n.audio_inputs@[a].connection
                        is None
                &&& n.audio_outputs@.len() == descriptor.audio_outputs@.len()
                &&& forall|p: int|
                    0 <= p < n.audio_outputs@.len() ==> (#[trigger] n.audio_outputs@[p]).id@
                        == descriptor.audio_outputs@[p].id@ && n.audio_outputs@[p].channels
                        == descriptor.audio_outputs@[p].channels
            }),
    {
        let NodeDescriptor { class, audio_inputs, audio_outputs, parameters } = descriptor;
        let mut params: Vec<ParamPort> = Vec::new();
        let mut q: usize = 0;
        while q < parameters.len()
            invariant
                q <= parameters@.len(),
                params@.len() == q,
                forall|j: int|
                    0 <= j < q ==> (#[trigger] params@[j]).id@ == parameters@[j].id@
                        && params@[j].initial == parameters@[j].initial
                        && params@[j].connection is None,
            decreases parameters@.len() - q,
        {
            params.push(
                ParamPort {
                    id: parameters[q].id.clone(),
                    initial: parameters[q].initial,
                    connection: None,
                },
            );
            q = q + 1;
        }
        let mut ins: Vec<AudioInPort> = Vec::new();
        let mut a: usize = 0;
        while a < audio_inputs.len()
            invariant
                a <= audio_inputs@.len(),
                ins@.len() == a,
                forall|j: int|
                    0 <= j < a ==> (#[trigger] ins@[j]).id@ == audio_inputs@[j].id@
                        && ins@[j].channels == audio_inputs@[j].channels
                        && ins@[j].connection is None,
            decreases audio_inputs@.len() - a,
        {
            ins.push(
                AudioInPort {
                    id: audio_inputs[a].id.clone(),
                    channels: audio_inputs[a].channels,
                    connection: None,
                },
            );
            a = a + 1;
        }
        let mut outs: Vec<AudioOutPort> = Vec::new();
        let mut p: usize = 0;
        while p < audio_outputs.len()
            invariant
                p <= audio_outputs@.len(),
                outs@.len() == p,
                forall|j: int|
                    0 <= j < p ==> (#[trigger] outs@[j]).id@ == audio_outputs@[j].id@
                        && outs@[j].channels == audio_outputs@[j].channels,
            decreases audio_outputs@.len() - p,
        {
            outs.push(
                AudioOutPort { id: audio_outputs[p].id.clone(), channels: audio_outputs[p].channels },
            );
            p = p + 1;
        }
        let r = self.nodes.len();
        self.nodes.push(
            Node {
                name: name.to_owned(),
                class,
                invalidated: false,
                params,
                audio_inputs: ins,
                audio_outputs: outs,
            },
        );
        proof {
            assert(final(self).nodes@.subrange(0, r as int) =~= old(self).nodes@);
        }
        r
    }

    pub fn get_node(&self, node_ref: usize) -> (r: Option<&Node>)
        ensures
            (node_ref as int) < self.nodes@.len() ==> (r matches Some(n) && *n
                == self.nodes@[node_ref as int]),
            (node_ref as int) >= self.nodes@.len() ==> r is None,
    {
        if node_ref < self.nodes.len() {
            Some(&self.nodes[node_ref])
        } else {
            None
        }
    }

    /// Mark or clear the invalidation bit of a node.
    pub fn set_node_invalidated(&mut self, node_ref: usize, invalidated: bool) -> (r: bool)
        ensures
            r == ((node_ref as int) < old(self).nodes@.len()),
            r ==> final(self).nodes@ == old(self).nodes@.update(
                node_ref as int,
                Node { invalidated, ..old(self).nodes@[node_ref as int] },
            ),
            !r ==> *final(self) == *old(self),
            final(self).bound_outputs@ == old(self).bound_outputs@,
    {
        if node_ref < self.nodes.len() {
            let n = &mut self.nodes;
            let m = n.remove(node_ref);
            let m2 = Node { invalidated, ..m };
            n.insert(node_ref, m2);
            proof {
                assert(final(self).nodes@ =~= old(self).nodes@.update(
                    node_ref as int,
                    Node { invalidated, ..old(self).nodes@[node_ref as int] },
                ));
            }
            true
        } else {
            false
        }
    }

    fn find_port_id_param(&self, node_ref: usize, id: &String) -> (r: Option<usize>)
        requires
            (node_ref as int) < self.nodes@.len(),
        ensures
            (r matches Some(q) && (q as int) < self.nodes@[node_ref as int].params@.len()
                && self.nodes@[node_ref as int].params@[q as int].id@ == id@) || (r is None
                && forall|j: int|
                0 <= j < self.nodes@[node_ref as int].params@.len()
                    ==> (#[trigger] self.nodes@[node_ref as int].params@[j]).id@ != id@),
    {
        let n = &self.nodes[node_ref];
        let mut q: usize = 0;
        while q < n.params.len()
            invariant
                q <= n.params@.len(),
                (node_ref as int) < self.nodes@.len(),
                n == self.nodes@[node_ref as int],
                forall|j: int| 0 <= j < q ==> (#[trigger] n.params@[j]).id@ != id@,
            decreases n.params@.len() - q,
        {
            if n.params[q].id.eq(id) {
                return Some(q);
            }
            q = q + 1;
        }
        None
    }

    /// Resolve a parameter port by node and identifier. Succeeds exactly
    /// when the node exists and has a parameter port under that identifier.
    pub fn param(&self, node_ref: usize, id: &str) -> (r: Result<ParamRef, GraphError>)
        ensures
            r matches Ok(pr) ==> pr.node_ref == node_ref && (node_ref as int) < self.nodes@.len()
                && (pr.param_port_key as int) < self.nodes@[node_ref as int].params@.len()
                && self.nodes@[node_ref as int].params@[pr.param_port_key as int].id@ == id@,
            r is Ok <==> ((node_ref as int) < self.nodes@.len() && exists|q: int|
                0 <= q < self.nodes@[node_ref as int].params@.len()
                    && (#[trigger] self.nodes@[node_ref as int].params@[q]).id@ == id@),
            (node_ref as int) >= self.nodes@.len() ==> r == Err::<ParamRef, GraphError>(
                GraphError::NodeNotFound,
            ),
            ((node_ref as int) < self.nodes@.len() && !(exists|q: int|
                0 <= q < self.nodes@[node_ref as int].params@.len()
                    && (#[trigger] self.nodes@[node_ref as int].params@[q]).id@ == id@)) ==> r
                == Err::<ParamRef, GraphError>(GraphError::PortNotFound),
    {
        if node_ref >= self.nodes.len() {
            return Err(GraphError::NodeNotFound);
        }
        let id_s = id.to_owned();
        match self.find_port_id_param(node_ref, &id_s) {
            Some(q) => Ok(ParamRef { node_ref, param_port_key: q }),
            None => Err(GraphError::PortNotFound),
        }
    }

    /// Resolve an audio input port by node and identifier. Succeeds exactly
    /// when the node exists and has an audio input port under that
    /// identifier.
    pub fn audio_input(&self, node_ref: usize, id: &str) -> (r: Result<AudioInRef, GraphError>)
        ensures
            r matches Ok(ar) ==> ar.node_ref == node_ref && (node_ref as int) < self.nodes@.len()
                && (ar.audio_port_key as int) < self.nodes@[node_ref as int].audio_inputs@.len()
                && self.nodes@[node_ref as int].audio_inputs@[ar.audio_port_key as int].id@ == id@,
            r is Ok <==> ((node_ref as int) < self.nodes@.len() && exists|a: int|
                0 <= a < self.nodes@[node_ref as int].audio_inputs@.len()
                    && (#[trigger] self.nodes@[node_ref as int].audio_inputs@[a]).id@ == id@),
            (node_ref as int) >= self.nodes@.len() ==> r == Err::<AudioInRef, GraphError>(
                GraphError::NodeNotFound,
            ),
            ((node_ref as int) < self.nodes@.len() && !(exists|a: int|
                0 <= a < self.nodes@[node_ref as int].audio_inputs@.len()
                    && (#[trigger] self.nodes@[node_ref as int].audio_inputs@[a]).id@ == id@))
                ==> r == Err::<AudioInRef, GraphError>(GraphError::PortNotFound),
    {
        if node_ref >= self.nodes.len() {
            return Err(GraphError::NodeNotFound);
        }
        let n = &self.nodes[node_ref];
        let id_s = id.to_owned();
        let mut a: usize = 0;
        while a < n.audio_inputs.len()
            invariant
                a <= n.audio_inputs@.len(),
                (node_ref as int) < self.nodes@.len(),
                n == self.nodes@[node_ref as int],
                id_s@ == id@,
                forall|j: int| 0 <= j < a ==> (#[trigger] n.audio_inputs@[j]).id@ != id@,
            decreases n.audio_inputs@.len() - a,
        {
            if n.audio_inputs[a].id.eq(&id_s) {
                return Ok(AudioInRef { node_ref, audio_port_key: a });
            }
            a = a + 1;
        }
        Err(GraphError::PortNotFound)
    }

    /// Resolve an audio output port by node and identifier. Succeeds
    /// exactly when the node exists and has an audio output port under that
    /// identifier.
    pub fn audio_output(&self, node_ref: usize, id: &str) -> (r: Result<AudioOutRef, GraphError>)
        ensures
            r matches Ok(ar) ==> ar.node_ref == node_ref && (node_ref as int) < self.nodes@.len()
                && (ar.audio_port_key as int) < self.nodes@[node_ref as int].audio_outputs@.len()
                && self.nodes@[node_ref as int].audio_outputs@[ar.audio_port_key as int].id@ == id@,
            r is Ok <==> ((node_ref as int) < self.nodes@.len() && exists|p: int|
                0 <= p < self.nodes@[node_ref as int].audio_outputs@.len()
                    && (#[trigger] self.nodes@[node_ref as int].audio_outputs@[p]).id@ == id@),
            (node_ref as int) >= self.nodes@.len() ==> r == Err::<AudioOutRef, GraphError>(
                GraphError::NodeNotFound,
            ),
            ((node_ref as int) < self.nodes@.len() && !(exists|p: int|
                0 <= p < self.nodes@[node_ref as int].audio_outputs@.len()
                    && (#[trigger] self.nodes@[node_ref as int].audio_outputs@[p]).id@ == id@))
                ==> r == Err::<AudioOutRef, GraphError>(GraphError::PortNotFound),
    {
        if node_ref >= self.nodes.len() {
            return Err(GraphError::NodeNotFound);
        }
        let n = &self.nodes[node_ref];
        let id_s = id.to_owned();
        let mut p: usize = 0;
        while p < n.audio_outputs.len()
            invariant
                p <= n.audio_outputs@.len(),
                (node_ref as int) < self.nodes@.len(),
                n == self.nodes@[node_ref as int],
                id_s@ == id@,
                forall|j: int| 0 <= j < p ==> (#[trigger] n.audio_outputs@[j]).id@ != id@,
            decreases n.audio_outputs@.len() - p,
        {
            if n.audio_outputs[p].id.eq(&id_s) {
                return Ok(AudioOutRef { node_ref, audio_port_key: p });
            }
            p = p + 1;
        }
        Err(GraphError::PortNotFound)
    }

    fn set_audio_in_connection(&mut self, sink: AudioInRef, source: AudioOutRef)
        requires
            (sink.node_ref as int) < old(self).nodes@.len(),
            (sink.audio_port_key as int) < old(self).nodes@[sink.node_ref as int].audio_inputs@.len(),
        ensures
            final(self).nodes@.len() == old(self).nodes@.len(),
            final(self).bound_outputs@ == old(self).bound_outputs@,
            forall|i: int|
                0 <= i < old(self).nodes@.len() && i != sink.node_ref ==> final(self).nodes@[i]
                    == old(self).nodes@[i],
            ({
                let n0 = old(self).nodes@[sink.node_ref as int];
                let n1 = final(self).nodes@[sink.node_ref as int];
                &&& n1.name == n0.name
                &&& n1.class == n0.class
                &&& n1.invalidated == n0.invalidated
                &&& n1.params == n0.params
                &&& n1.audio_outputs == n0.audio_outputs
                &&& n1.audio_inputs@ == n0.audio_inputs@.update(
                    sink.audio_port_key as int,
                    AudioInPort {
                        connection: Some(source),
                        ..n0.audio_inputs@[sink.audio_port_key as int]
                    },
                )
            }),
    {
        let n = self.nodes.remove(sink.node_ref);
        let Node { name, class, invalidated, params, mut audio_inputs, audio_outputs } = n;
        let port = audio_inputs.remove(sink.audio_port_key);
        let port2 = AudioInPort { connection: Some(source), ..port };
        audio_inputs.insert(sink.audio_port_key, port2);
        self.nodes.insert(
            sink.node_ref,
            Node { name, class, invalidated, params, audio_inputs, audio_outputs },
        );
        proof {
            let n0 = old(self).nodes@[sink.node_ref as int];
            assert(final(self).nodes@[sink.node_ref as int].audio_inputs@ =~= n0.audio_inputs@
                .update(
                sink.audio_port_key as int,
                AudioInPort { connection: Some(source), ..n0.audio_inputs@[sink.audio_port_key as int] },
            ));
        }
    }

    fn set_param_connection(&mut self, sink: ParamRef, source: AudioOutRef)
        requires
            (sink.node_ref as int) < old(self).nodes@.len(),
            (sink.param_port_key as int) < old(self).nodes@[sink.node_ref as int].params@.len(),
        ensures
            final(self).nodes@.len() == old(self).nodes@.len(),
            final(self).bound_outputs@ == old(self).bound_outputs@,
            forall|i: int|
                0 <= i < old(self).nodes@.len() && i != sink.node_ref ==> final(self).nodes@[i]
                    == old(self).nodes@[i],
            ({
                let n0 = old(self).nodes@[sink.node_ref as int];
                let n1 = final(self).nodes@[sink.node_ref as int];
                &&& n1.name == n0.name
                &&& n1.class == n0.class
                &&& n1.invalidated == n0.invalidated
                &&& n1.audio_inputs == n0.audio_inputs
                &&& n1.audio_outputs == n0.audio_outputs
                &&& n1.params@ == n0.params@.update(
                    sink.param_port_key as int,
                    ParamPort { connection: Some(source), ..n0.params@[sink.param_port_key as int] },
                )
            }),
    {
        let n = self.nodes.remove(sink.node_ref);
        let Node { name, class, invalidated, mut params, audio_inputs, audio_outputs } = n;
        let port = params.remove(sink.param_port_key);
        let port2 = ParamPort { connection: Some(source), ..port };
        params.insert(sink.param_port_key, port2);
        self.nodes.insert(
            sink.node_ref,
            Node { name, class, invalidated, params, audio_inputs, audio_outputs },
        );
        proof {
            let n0 = old(self).nodes@[sink.node_ref as int];
            assert(final(self).nodes@[sink.node_ref as int].params@ =~= n0.params@.update(
                sink.param_port_key as int,
                ParamPort { connection: Some(source), ..n0.params@[sink.param_port_key as int] },
            ));
        }
    }

    /// First audio output of a source node, as a connection target.
    fn default_output(&self, source: usize) -> (r: Result<AudioOutRef, GraphError>)
        ensures
            r matches Ok(ar) ==> ar.node_ref == source && ar.audio_port_key == 0
                && (source as int) < self.nodes@.len()
                && self.nodes@[source as int].audio_outputs@.len() >= 1,
            r is Ok <==> ((source as int) < self.nodes@.len() && self.nodes@[
                source as int
            ].audio_outputs@.len() >= 1),
    {
        if source >= self.nodes.len() {
            return Err(GraphError::NodeNotFound);
        }
        if self.nodes[source].audio_outputs.len() == 0 {
            return Err(GraphError::NoAudioOutputs);
        }
        Ok(AudioOutRef { node_ref: source, audio_port_key: 0 })
    }

    /// Connect the first audio output of `source` to an audio input port.
    /// The source must come before the sink in dependency order. On success
    /// the sink port's connection is set and nothing else changes.
    pub fn connect_audio(&mut self, source: usize, sink: AudioInRef) -> (r: Result<
        (),
        GraphError,
    >)
        ensures
            r is Err ==> *final(self) == *old(self),
            r is Ok <==> ((sink.node_ref as int) < old(self).nodes@.len() && (
            sink.audio_port_key as int) < old(self).nodes@[sink.node_ref as int]
                .audio_inputs@.len() && source < sink.node_ref && old(self).nodes@[
                source as int
            ].audio_outputs@.len() >= 1),
            r is Ok ==> ({
                let n0 = old(self).nodes@[sink.node_ref as int];
                let n1 = final(self).nodes@[sink.node_ref as int];
                &&& final(self).nodes@.len() == old(self).nodes@.len()
                &&& final(self).bound_outputs@ == old(self).bound_outputs@
                &&& (forall|i: int|
                    0 <= i < old(self).nodes@.len() && i != sink.node_ref
                        ==> final(self).nodes@[i] == old(self).nodes@[i])
                &&& n1.name == n0.name
                &&& n1.class == n0.class
                &&& n1.invalidated == n0.invalidated
                &&& n1.params == n0.params
                &&& n1.audio_outputs == n0.audio_outputs
                &&& n1.audio_inputs@ == n0.audio_inputs@.update(
                    sink.audio_port_key as int,
                    AudioInPort {
                        connection: Some(
                            AudioOutRef { node_ref: source, audio_port_key: 0 },
                        ),
                        ..n0.audio_inputs@[sink.audio_port_key as int]
                    },
                )
            }),
    {
        if sink.node_ref >= self.nodes.len() {
            return Err(GraphError::NodeNotFound);
        }
        if sink.audio_port_key >= self.nodes[sink.node_ref].audio_inputs.len() {
            return Err(GraphError::PortNotFound);
        }
        if source >= sink.node_ref {
            return Err(GraphError::NotInDependencyOrder);
        }
        let aor = match self.default_output(source) {
            Ok(aor) => aor,
            Err(e) => { return Err(e) },
        };
        self.set_audio_in_connection(sink, aor);
        Ok(())
    }

    /// Connect the first audio output of `source` to a parameter port. On
    /// success the parameter port's connection is set and nothing else
    /// changes.
    pub fn connect(&mut self, source: usize, sink: ParamRef) -> (r: Result<(), GraphError>)
        ensures
            r is Err ==> *final(self) == *old(self),
            r is Ok <==> ((sink.node_ref as int) < old(self).nodes@.len() && (
            sink.param_port_key as int) < old(self).nodes@[sink.node_ref as int].params@.len()
                && source < sink.node_ref && old(self).nodes@[
                source as int
            ].audio_outputs@.len() >= 1),
            r is Ok ==> ({
                let n0 = old(self).nodes@[sink.node_ref as int];
                let n1 = final(self).nodes@[sink.node_ref as int];
                &&& final(self).nodes@.len() == old(self).nodes@.len()
                &&& final(self).bound_outputs@ == old(self).bound_outputs@
                &&& (forall|i: int|
                    0 <= i < old(self).nodes@.len() && i != sink.node_ref
                        ==> final(self).nodes@[i] == old(self).nodes@[i])
                &&& n1.name == n0.name
                &&& n1.class == n0.class
                &&& n1.invalidated == n0.invalidated
                &&& n1.audio_inputs == n0.audio_inputs
                &&& n1.audio_outputs == n0.audio_outputs
                &&& n1.params@ == n0.params@.update(
                    sink.param_port_key as int,
                    ParamPort {
                        connection: Some(
                            AudioOutRef { node_ref: source, audio_port_key: 0 },
                        ),
                        ..n0.params@[sink.param_port_key as int]
                    },
                )
            }),
    {
        if sink.node_ref >= self.nodes.len() {
            return Err(GraphError::NodeNotFound);
        }
        if sink.param_port_key >= self.nodes[sink.node_ref].params.len() {
            return Err(GraphError::PortNotFound);
        }
        if source >= sink.node_ref {
            return Err(GraphError::NotInDependencyOrder);
        }
        let aor = match self.default_output(source) {
            Ok(aor) => aor,
            Err(e) => { return Err(e) },
        };
        self.set_param_connection(sink, aor);
        Ok(())
    }

    /// Export an audio output to the host under an alias. Succeeds exactly
    /// when the output port exists.
    pub fn bind_output(&mut self, output: AudioOutRef, alias: &str) -> (r: Result<(), GraphError>)
        ensures
            r is Err ==> *final(self) == *old(self),
            r is Ok <==> ((output.node_ref as int) < old(self).nodes@.len() && (
            output.audio_port_key as int) < old(self).nodes@[output.node_ref as int]
                .audio_outputs@.len()),
            r is Ok ==> final(self).nodes@ == old(self).nodes@ && exists|s: String|
                s@ == alias@ && final(self).bound_outputs@ == old(self).bound_outputs@.push(
                    (s, output),
                ),
    {
        if output.node_ref >= self.nodes.len() {
            return Err(GraphError::NodeNotFound);
        }
        if output.audio_port_key >= self.nodes[output.node_ref].audio_outputs.len() {
            return Err(GraphError::PortNotFound);
        }
        let s = alias.to_owned();
        self.bound_outputs.push((s, output));
        Ok(())
    }

    /// The topology the planner walks: the node list in dependency order plus
    /// the destination count of every node.
    pub fn topology(&self) -> (r: GraphTopology)
        requires
            all_sources_upto(self.nodes@, self.nodes@.len() as int).len() <= usize::MAX,
        ensures
            r.nodes@.len() == self.nodes@.len(),
            forall|i: int| 0 <= i < r.nodes@.len() ==> r.nodes@[i] == i,
            r.destination_counts@.len() == self.nodes@.len(),
            forall|s: int|
                0 <= s < r.destination_counts@.len() ==> r.destination_counts@[s]
                    == self.spec_destination_count(s as usize),
    {
        let n = self.nodes.len();
        let mut order: Vec<usize> = Vec::new();
        let mut i: usize = 0;
        while i < n
            invariant
                i <= n,
                order@.len() == i,
                forall|j: int| 0 <= j < i ==> order@[j] == j,
            decreases n - i,
        {
            order.push(i);
            i = i + 1;
        }
        let mut counts: Vec<usize> = Vec::new();
        let mut i2: usize = 0;
        while i2 < n
            invariant
                i2 <= n,
                counts@.len() == i2,
                forall|j: int| 0 <= j < i2 ==> counts@[j] == 0,
            decreases n - i2,
        {
            counts.push(0);
            i2 = i2 + 1;
        }
        let ghost total = all_sources_upto(self.nodes@, self.nodes@.len() as int);
        let mut k: usize = 0;
        while k < n
            invariant
                k <= n,
                n == self.nodes@.len(),
                counts@.len() == n,
                total == all_sources_upto(self.nodes@, n as int),
                total.len() <= usize::MAX,
                forall|s: int|
                    0 <= s < n ==> counts@[s] == count_of(
                        all_sources_upto(self.nodes@, k as int),
                        s as usize,
                    ),
            decreases n - k,
        {
            let srcs = self.nodes[k].sources();
            let ghost upto_k = all_sources_upto(self.nodes@, k as int);
            let mut j: usize = 0;
            while j < srcs.len()
                invariant
                    j <= srcs@.len(),
                    n == self.nodes@.len(),
                    counts@.len() == n,
                    srcs@ == self.nodes@[k as int].spec_sources(),
                    k < n,
                    upto_k == all_sources_upto(self.nodes@, k as int),
                    total == all_sources_upto(self.nodes@, n as int),
                    total.len() <= usize::MAX,
                    forall|s: int|
                        0 <= s < n ==> counts@[s] == count_of(
                            upto_k + srcs@.subrange(0, j as int),
                            s as usize,
                        ),
                decreases srcs@.len() - j,
            {
                let s = srcs[j];
                let ghost pre = upto_k + srcs@.subrange(0, j as int);
                if s < counts.len() {
                    proof {
                        lemma_count_le_len(pre, s);
                        lemma_prefix_le_total(self.nodes@, k as int, n as int, srcs@, j as int + 1);
                    }
                    let c = counts[s];
                    counts.set(s, c + 1);
                }
                j = j + 1;
                proof {
                    let cur = upto_k + srcs@.subrange(0, j as int);
                    assert(cur.drop_last() =~= pre);
                    assert(cur.last() == srcs@[j - 1]);
                    assert forall|t: int| 0 <= t < n implies counts@[t] == count_of(
                        cur,
                        t as usize,
                    ) by {
                        assert(count_of(cur, t as usize) == count_of(pre, t as usize) + (
                        if srcs@[j - 1] == t as usize {
                            1nat
                        } else {
                            0nat
                        }));
                    }
                }
            }
            k = k + 1;
            proof {
                assert(srcs@.subrange(0, srcs@.len() as int) =~= srcs@);
                assert(all_sources_upto(self.nodes@, k as int) == upto_k + srcs@);
            }
        }
        GraphTopology { nodes: order, destination_counts: counts }
    }
}

/// What the counting loop has seen so far is a prefix of all sources, so no
/// destination count can exceed the machine-sized total.
proof fn lemma_prefix_le_total(nodes: Seq<Node>, k: int, n: int, srcs: Seq<usize>, j: int)
    requires
        0 <= k < n <= nodes.len(),
        srcs == nodes[k].spec_sources(),
        0 <= j <= srcs.len(),
    ensures
        (all_sources_upto(nodes, k) + srcs.subrange(0, j)).len() <= all_sources_upto(
            nodes,
            n,
        ).len(),
    decreases n - k,
{
    if k + 1 == n {
        assert(all_sources_upto(nodes, n) == all_sources_upto(nodes, k) + nodes[k].spec_sources());
    } else {
        lemma_sources_upto_le(nodes, k + 1, n);
        assert(all_sources_upto(nodes, k + 1) == all_sources_upto(nodes, k)
            + nodes[k].spec_sources());
    }
}

proof fn lemma_sources_upto_le(nodes: Seq<Node>, k: int, n: int)
    requires
        0 <= k <= n <= nodes.len(),
    ensures
        all_sources_upto(nodes, k).len() <= all_sources_upto(nodes, n).len(),
    decreases n - k,
{
    if k < n {
        lemma_sources_upto_le(nodes, k, n - 1);
        assert(all_sources_upto(nodes, n) == all_sources_upto(nodes, n - 1) + nodes[n
            - 1].spec_sources());
    }
}

} // verus!
