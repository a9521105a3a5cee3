use kiro_audio_engine::controller::Controller;
use kiro_audio_engine::graph::{AudioDescriptor, Graph, NodeDescriptor, ParamDescriptor};
use kiro_audio_engine::plan::{Message, RenderOp, RenderPlan};
use kiro_audio_engine::processor::{Processor, ProcessorFactory};
use kiro_audio_engine::EngineConfig;
use ringbuf::RingBuffer;

struct ChainFactory;

impl ProcessorFactory for ChainFactory {
    fn supported_classes(&self) -> Vec<String> {
        vec!["source-class".to_string(), "sink-class".to_string()]
    }

    fn create(&self, node: &kiro_audio_engine::graph::Node) -> Option<Processor> {
        Some(Processor::new(node.class().clone()))
    }
}

fn chain_graph() -> (Graph, usize, usize, usize) {
    let mut g = Graph::new();
    let n1 = g.add_node(
        "N1",
        NodeDescriptor::new("source-class")
            .static_audio_outputs(vec![AudioDescriptor::new("OUT", 1)]),
    );
    let n2 = g.add_node(
        "N2",
        NodeDescriptor::new("source-class")
            .static_audio_outputs(vec![AudioDescriptor::new("OUT", 1)]),
    );
    let n3 = g.add_node(
        "N3",
        NodeDescriptor::new("sink-class")
            .static_audio_inputs(vec![
                AudioDescriptor::new("IN1", 1),
                AudioDescriptor::new("IN2", 1),
            ])
            .static_audio_outputs(vec![AudioDescriptor::new("OUT", 1)])
            .static_parameters(vec![
                ParamDescriptor::new("P1"),
                ParamDescriptor::new("P2"),
                ParamDescriptor::new("P3"),
            ]),
    );
    g.connect_audio(n1, g.audio_input(n3, "IN1").unwrap()).unwrap();
    g.connect_audio(n2, g.audio_input(n3, "IN2").unwrap()).unwrap();
    g.connect(n2, g.param(n3, "P1").unwrap()).unwrap();
    let n3_out = g.audio_output(n3, "OUT").unwrap();
    g.bind_output(n3_out, "OUT").unwrap();
    (g, n1, n2, n3)
}

fn chain_controller() -> Controller<ChainFactory> {
    let ring_buffer = RingBuffer::<Message>::new(4);
    let (tx, rx) = ring_buffer.split();
    let mut ct = Controller::new(tx, rx, EngineConfig::default());
    ct.register_processor_factory(ChainFactory);
    ct
}

fn op_output_buffers(op: &RenderOp) -> Vec<usize> {
    match op {
        RenderOp::RenderProcessor { audio_outputs, .. } => {
            audio_outputs.iter().flat_map(|(_, bufs)| bufs.iter().cloned()).collect()
        }
        RenderOp::RenderOutput { .. } => Vec::new(),
    }
}

#[test]
fn plan_inputs_come_from_earlier_outputs() {
    let (g, _, _, _) = chain_graph();
    let mut ct = chain_controller();
    let plan = ct.build_render_plan(&g).unwrap();
    let empty = ct.empty_buffer_key();

    let mut written: Vec<usize> = Vec::new();
    for op in plan.operations.iter() {
        if let RenderOp::RenderProcessor { audio_inputs, .. } = op {
            for (_, bufs) in audio_inputs.iter() {
                for b in bufs.iter() {
                    assert!(*b == empty || written.contains(b));
                }
            }
        }
        written.extend(op_output_buffers(op));
    }
}

#[test]
fn output_ops_follow_processor_ops() {
    let (g, _, _, _) = chain_graph();
    let mut ct = chain_controller();
    let plan = ct.build_render_plan(&g).unwrap();
    assert_eq!(plan.operations.len(), 4);
    for (i, op) in plan.operations.iter().enumerate() {
        if i < 3 {
            assert!(matches!(op, RenderOp::RenderProcessor { .. }));
        } else {
            assert!(matches!(op, RenderOp::RenderOutput { .. }));
        }
    }
}

#[test]
fn one_output_op_per_bound_alias() {
    let (g, _, _, n3) = chain_graph();
    let mut ct = chain_controller();
    let plan = ct.build_render_plan(&g).unwrap();

    let outputs: Vec<&RenderOp> = plan
        .operations
        .iter()
        .filter(|op| matches!(op, RenderOp::RenderOutput { .. }))
        .collect();
    assert_eq!(outputs.len(), 1);
    match outputs[0] {
        RenderOp::RenderOutput { alias, audio_input } => {
            assert_eq!(alias, "OUT");
            let nc3 = ct.node_cache(n3).unwrap();
            assert_eq!(audio_input, &nc3.audio_output_buffers[0]);
        }
        _ => unreachable!(),
    }
}

#[test]
fn every_param_port_appears_once() {
    let (g, _, _, _) = chain_graph();
    let mut ct = chain_controller();
    let plan = ct.build_render_plan(&g).unwrap();

    match &plan.operations[2] {
        RenderOp::RenderProcessor { parameters, .. } => {
            assert_eq!(parameters.len(), 3);
            for wanted in ["P1", "P2", "P3"] {
                assert_eq!(
                    parameters.iter().filter(|(id, _)| id == wanted).count(),
                    1
                );
            }
        }
        _ => panic!("third operation should run the sink processor"),
    }
}

#[test]
fn audio_driven_param_reads_channel_zero() {
    let (g, _, n2, _) = chain_graph();
    let mut ct = chain_controller();
    let plan = ct.build_render_plan(&g).unwrap();
    let nc2_out = ct.node_cache(n2).unwrap().audio_output_buffers[0][0];
    match &plan.operations[2] {
        RenderOp::RenderProcessor { parameters, .. } => {
            let p1 = parameters.iter().find(|(id, _)| id == "P1").unwrap();
            match p1.1 {
                kiro_audio_engine::plan::ParamRenderPort::Buffer { buffer } => {
                    assert_eq!(buffer, nc2_out);
                }
                _ => panic!("P1 is audio driven and must read a buffer"),
            }
        }
        _ => panic!("third operation should run the sink processor"),
    }
}

#[test]
fn unconnected_inputs_read_the_empty_buffer() {
    let mut g = Graph::new();
    let n = g.add_node(
        "LONE",
        NodeDescriptor::new("sink-class")
            .static_audio_inputs(vec![AudioDescriptor::new("IN1", 2)])
            .static_audio_outputs(vec![AudioDescriptor::new("OUT", 1)]),
    );
    let mut ct = chain_controller();
    let plan = ct.build_render_plan(&g).unwrap();
    let empty = ct.empty_buffer_key();
    match &plan.operations[0] {
        RenderOp::RenderProcessor { audio_inputs, .. } => {
            assert_eq!(audio_inputs.len(), 1);
            assert_eq!(audio_inputs[0].0, "IN1");
            assert_eq!(audio_inputs[0].1, vec![empty, empty]);
        }
        _ => panic!("expected a processor operation"),
    }
    let _ = n;
}

#[test]
fn rerunning_unchanged_graph_reproduces_the_plan() {
    let (g, _, _, _) = chain_graph();
    let mut ct = chain_controller();
    let plan1: RenderPlan = ct.build_render_plan(&g).unwrap();
    let plan2: RenderPlan = ct.build_render_plan(&g).unwrap();
    assert_eq!(plan1, plan2);
}

#[test]
fn invalidating_one_node_rebuilds_only_that_node() {
    let (mut g, n1, n2, n3) = chain_graph();
    let mut ct = chain_controller();
    let _plan1 = ct.build_render_plan(&g).unwrap();

    let nc1_ops_before = ct.node_cache(n1).unwrap().render_ops.clone();
    let nc2_ops_before = ct.node_cache(n2).unwrap().render_ops.clone();
    let nc1_bufs_before = ct.node_cache(n1).unwrap().audio_output_buffers.clone();
    let nc2_bufs_before = ct.node_cache(n2).unwrap().audio_output_buffers.clone();
    let buffers_before = ct.buffers_len();

    assert!(g.set_node_invalidated(n3, true));
    let _plan2 = ct.build_render_plan(&g).unwrap();

    assert_eq!(ct.node_cache(n1).unwrap().render_ops, nc1_ops_before);
    assert_eq!(ct.node_cache(n2).unwrap().render_ops, nc2_ops_before);
    assert_eq!(ct.node_cache(n1).unwrap().audio_output_buffers, nc1_bufs_before);
    assert_eq!(ct.node_cache(n2).unwrap().audio_output_buffers, nc2_bufs_before);
    // recycling: rebuilding a node does not grow the buffer pool
    assert_eq!(ct.buffers_len(), buffers_before);
    assert_eq!(ct.node_cache(n3).unwrap().allocated_buffers.len(), 3);
}

#[test]
fn registry_counts_grow_only_on_first_sight() {
    let (g, _, _, _) = chain_graph();
    let mut ct = chain_controller();
    ct.build_render_plan(&g).unwrap();
    assert_eq!(ct.parameters_len(), 3);
    assert_eq!(ct.processors_len(), 3);
    assert_eq!(ct.buffers_len(), 6);
    ct.build_render_plan(&g).unwrap();
    assert_eq!(ct.parameters_len(), 3);
    assert_eq!(ct.processors_len(), 3);
    assert_eq!(ct.buffers_len(), 6);
}
