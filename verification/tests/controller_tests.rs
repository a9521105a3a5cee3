use kiro_audio_engine::controller::{Controller, ControllerError};
use kiro_audio_engine::graph::{AudioDescriptor, Graph, GraphError, NodeDescriptor,
    ParamDescriptor};
use kiro_audio_engine::plan::{Message, RenderOp};
use kiro_audio_engine::processor::{Processor, ProcessorFactory};
use kiro_audio_engine::EngineConfig;
use ringbuf::RingBuffer;

struct TestProcessorFactory;

impl ProcessorFactory for TestProcessorFactory {
    fn supported_classes(&self) -> Vec<String> {
        vec!["source-class".to_string(), "sink-class".to_string()]
    }

    fn create(&self, node: &kiro_audio_engine::graph::Node) -> Option<Processor> {
        Some(Processor::new(node.class().clone()))
    }
}

struct RefusingFactory;

impl ProcessorFactory for RefusingFactory {
    fn supported_classes(&self) -> Vec<String> {
        vec!["source-class".to_string(), "sink-class".to_string()]
    }

    fn create(&self, _node: &kiro_audio_engine::graph::Node) -> Option<Processor> {
        None
    }
}

fn source_desc() -> NodeDescriptor {
    NodeDescriptor::new("source-class")
        .static_audio_outputs(vec![AudioDescriptor::new("OUT", 1)])
}

fn sink_desc() -> NodeDescriptor {
    NodeDescriptor::new("sink-class")
        .static_audio_inputs(vec![
            AudioDescriptor::new("IN1", 1),
            AudioDescriptor::new("IN2", 1),
        ])
        .static_audio_outputs(vec![AudioDescriptor::new("OUT", 1)])
        .static_parameters(vec![
            ParamDescriptor::new("P1"),
            ParamDescriptor::new("P2"),
            ParamDescriptor::new("P3"),
        ])
}

fn create_graph() -> (Graph, usize, usize, usize) {
    let mut g = Graph::new();
    let n1 = g.add_node("N1", source_desc());
    let n2 = g.add_node("N2", source_desc());
    let n3 = g.add_node("N3", sink_desc());

    g.connect_audio(n1, g.audio_input(n3, "IN1").unwrap()).unwrap();
    g.connect_audio(n2, g.audio_input(n3, "IN2").unwrap()).unwrap();
    g.connect(n2, g.param(n3, "P1").unwrap()).unwrap();

    let n3_out = g.audio_output(n3, "OUT").unwrap();
    g.bind_output(n3_out, "OUT").unwrap();

    (g, n1, n2, n3)
}

fn create_controller_without_processor_factory() -> Controller<TestProcessorFactory> {
    let ring_buffer = RingBuffer::<Message>::new(1);
    let (tx, rx) = ring_buffer.split();
    Controller::new(tx, rx, EngineConfig::default())
}

fn create_controller() -> Controller<TestProcessorFactory> {
    let mut controller = create_controller_without_processor_factory();
    controller.register_processor_factory(TestProcessorFactory);
    controller
}

#[test]
fn update_graph_processor_factory_not_found() {
    let (g, _, _, _) = create_graph();
    let mut ct = create_controller_without_processor_factory();

    let result = ct.update_graph(&g);
    match result {
        Err(ControllerError::ProcessorFactoryNotFound(node, class)) => {
            assert!(node.contains("Node[N1]") || node.contains("Node[N2]"));
            assert_eq!(class, "source-class");
        }
        _ => assert!(false, "unexpected result"),
    }
}

#[test]
fn update_graph_success() {
    let (g, n1, n2, n3) = create_graph();
    let mut ct = create_controller();

    ct.update_graph(&g).unwrap();

    assert_eq!(ct.parameters_len(), 3);
    assert_eq!(ct.processors_len(), 3);
    assert_eq!(ct.buffers_len(), 6); // empty + 3 output buffers + 2 param slice buffers

    let nc1 = ct.node_cache(n1).unwrap();
    assert_eq!(nc1.parameter_value_keys.len(), 0);
    assert_eq!(
        nc1.audio_output_buffers.iter().flatten().count(),
        1
    );
    assert_eq!(nc1.allocated_buffers.len(), 0);
    assert_eq!(nc1.render_ops.len(), 1);
    assert!(match nc1.render_ops.get(0).unwrap() {
        RenderOp::RenderProcessor { .. } => true,
        _ => false,
    });

    let nc2 = ct.node_cache(n2).unwrap();
    assert_eq!(nc2.parameter_value_keys.len(), 0);
    assert_eq!(
        nc2.audio_output_buffers.iter().flatten().count(),
        1
    );
    assert_eq!(nc2.allocated_buffers.len(), 0);
    assert_eq!(nc2.render_ops.len(), 1);
    assert!(match nc2.render_ops.get(0).unwrap() {
        RenderOp::RenderProcessor { .. } => true,
        _ => false,
    });

    let nc3 = ct.node_cache(n3).unwrap();
    assert_eq!(nc3.parameter_value_keys.len(), 3);
    assert_eq!(
        nc3.audio_output_buffers.iter().flatten().count(),
        1
    );
    assert_eq!(nc3.allocated_buffers.len(), 3);
    assert_eq!(nc3.render_ops.len(), 1);
    assert!(match nc3.render_ops.get(0).unwrap() {
        RenderOp::RenderProcessor { .. } => true,
        _ => false,
    });
}

#[test]
fn empty_graph_gives_empty_plan() {
    let g = Graph::new();
    let mut ct = create_controller();
    let plan = ct.build_render_plan(&g).unwrap();
    assert_eq!(plan.operations.len(), 0);
    assert!(ct.update_graph(&g).is_ok());
}

#[test]
fn processor_creation_failed_is_reported() {
    let mut g = Graph::new();
    g.add_node("N1", source_desc());
    let ring_buffer = RingBuffer::<Message>::new(1);
    let (tx, rx) = ring_buffer.split();
    let mut ct: Controller<RefusingFactory> = Controller::new(tx, rx, EngineConfig::default());
    ct.register_processor_factory(RefusingFactory);
    match ct.update_graph(&g) {
        Err(ControllerError::ProcessorCreationFailed(node, class)) => {
            assert!(node.contains("Node[N1]"));
            assert_eq!(class, "source-class");
        }
        _ => assert!(false, "unexpected result"),
    }
}

#[test]
fn send_failure_then_drain_then_retry() {
    let (g, _, _, _) = create_graph();
    let mut ct = create_controller();

    // the queue holds one plan: the first update fills it
    assert!(ct.update_graph(&g).is_ok());
    // the second update cannot send
    assert_eq!(
        ct.update_graph(&g),
        Err(ControllerError::SendFailure)
    );
    // draining the returned plans makes room again
    ct.process_messages();
    assert!(ct.update_graph(&g).is_ok());
}

#[test]
fn set_param_value_round_trip() {
    let (g, _, _, n3) = create_graph();
    let mut ct = create_controller();
    ct.update_graph(&g).unwrap();
    ct.process_messages();

    let p2 = g.param(n3, "P2").unwrap();
    let bits = 0.5f32.to_bits();
    ct.set_param_value(p2, bits).unwrap();

    let key = ct.node_cache(n3).unwrap().parameter_value_keys[p2.param_port_key];
    assert_eq!(ct.get_param_value(key).unwrap().get(), bits);
}

#[test]
fn set_param_value_survives_update() {
    let (g, _, _, n3) = create_graph();
    let mut ct = create_controller();
    ct.update_graph(&g).unwrap();
    ct.process_messages();

    let p2 = g.param(n3, "P2").unwrap();
    let bits = 0.25f32.to_bits();
    ct.set_param_value(p2, bits).unwrap();

    ct.update_graph(&g).unwrap();
    ct.process_messages();

    let key = ct.node_cache(n3).unwrap().parameter_value_keys[p2.param_port_key];
    assert_eq!(ct.get_param_value(key).unwrap().get(), bits);
}

#[test]
fn set_param_value_unknown_node_fails() {
    let (g, _, _, n3) = create_graph();
    let mut ct = create_controller();
    ct.update_graph(&g).unwrap();
    let bogus = kiro_audio_engine::graph::ParamRef { node_ref: 99, param_port_key: 0 };
    assert_eq!(
        ct.set_param_value(bogus, 0),
        Err(ControllerError::NodeCacheNotFound(99))
    );
    let bad_port = kiro_audio_engine::graph::ParamRef { node_ref: n3, param_port_key: 9 };
    assert_eq!(
        ct.set_param_value(bad_port, 0),
        Err(ControllerError::ParamValueKeyNotFound(9))
    );
}

#[test]
fn parameter_cells_start_at_initial_value() {
    let mut g = Graph::new();
    let desc = NodeDescriptor::new("source-class")
        .static_audio_outputs(vec![AudioDescriptor::new("OUT", 1)])
        .static_parameters(vec![ParamDescriptor::new("GAIN").with_initial(1.0f32.to_bits())]);
    let n1 = g.add_node("N1", desc);
    let mut ct = create_controller();
    ct.update_graph(&g).unwrap();
    let pr = g.param(n1, "GAIN").unwrap();
    let key = ct.node_cache(n1).unwrap().parameter_value_keys[pr.param_port_key];
    assert_eq!(ct.get_param_value(key).unwrap().get(), 1.0f32.to_bits());
}

#[test]
fn graph_edit_errors() {
    let mut g = Graph::new();
    let n1 = g.add_node("N1", source_desc());
    let n2 = g.add_node("N2", sink_desc());
    // backward connections are refused: the node list is the dependency order
    let in1 = g.audio_input(n2, "IN1").unwrap();
    assert_eq!(g.connect_audio(n2, in1), Err(GraphError::NotInDependencyOrder));
    assert!(g.audio_input(n2, "NO_SUCH").is_err());
    assert!(g.param(n2, "NO_SUCH").is_err());
    assert!(g.audio_output(n2, "NO_SUCH").is_err());
    assert!(g.param(99, "P1").is_err());
    // a source with no audio outputs cannot drive anything
    let mut g2 = Graph::new();
    let s = g2.add_node("S", NodeDescriptor::new("source-class"));
    let t = g2.add_node("T", sink_desc());
    let tin = g2.audio_input(t, "IN1").unwrap();
    assert_eq!(g2.connect_audio(s, tin), Err(GraphError::NoAudioOutputs));
    let _ = n1;
}

#[test]
fn node_ref_string_names_the_node() {
    let mut g = Graph::new();
    let n1 = g.add_node("N1", source_desc());
    let node = g.get_node(n1).unwrap();
    assert_eq!(node.ref_string(), "Node[N1]");
}

#[test]
fn get_param_value_unknown_key_fails() {
    let ct = create_controller();
    assert_eq!(
        ct.get_param_value(5),
        Err(ControllerError::ParamValueNotFound(5))
    );
}
