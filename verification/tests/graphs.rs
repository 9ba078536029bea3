use rendergraph::driver::{FrameDriver, ANGLE_MAX, ANGLE_MIN, ANGLE_STEP};
use rendergraph::encoder::Command;
use rendergraph::error::RenderError;
use rendergraph::graph::GraphBuilder;
use rendergraph::pipeline::{PipelineDescriptor, Position, ShaderSet, Vertex};
use rendergraph::resource::{
    AccessStage, ClearColor, Device, ImageLayout, ResourceState,
};
use rendergraph::schedule::schedule;
use rendergraph::transition::Transition;

fn triangle() -> Vec<Vertex> {
    vec![
        Vertex { position: Position { x: -500, y: 500 }, tex_coords: None },
        Vertex { position: Position { x: 0, y: -500 }, tex_coords: None },
        Vertex { position: Position { x: 500, y: 250 }, tex_coords: None },
    ]
}

fn flat_shaders() -> ShaderSet {
    ShaderSet {
        vertex_binary: vec![1],
        fragment_binary: vec![2],
        attribute_sizes: vec![8],
        bindings: vec![],
    }
}

fn blue() -> Option<ClearColor> {
    Some(ClearColor { r: 0, g: 0, b: 255, a: 255 })
}

#[test]
fn diamond_schedules_every_edge_in_order() {
    let edges = vec![(0usize, 1usize), (0, 2), (1, 3), (2, 3)];
    let order = schedule(4, &edges).unwrap();
    assert_eq!(order, vec![0, 1, 2, 3]);
}

#[test]
fn independent_nodes_keep_declaration_order() {
    let edges: Vec<(usize, usize)> = Vec::new();
    let order = schedule(3, &edges).unwrap();
    assert_eq!(order, vec![0, 1, 2]);
}

#[test]
fn later_declared_prerequisite_still_runs_first() {
    let edges = vec![(2usize, 0usize)];
    let order = schedule(3, &edges).unwrap();
    assert_eq!(order, vec![1, 2, 0]);
}

#[test]
fn a_cycle_fails_the_schedule() {
    let edges = vec![(0usize, 1usize), (1, 2), (2, 0)];
    let r = schedule(3, &edges);
    assert!(matches!(r.unwrap_err(), RenderError::CyclicGraph { .. }));
}

#[test]
fn cyclic_graph_compiles_to_nothing() {
    let mut builder = GraphBuilder::new();
    let color = builder.create_image(64, 64, blue());
    // A present node declared first, and a render pass that explicitly
    // depends on it while writing the resource the present consumes: the
    // data edge and the declared edge close a cycle.
    let present = builder.add_present(color, vec![]);
    builder.add_render_pass(
        PipelineDescriptor::flat(triangle()),
        flat_shaders(),
        color,
        vec![present],
    );
    let mut device = Device::new(1_000_000);
    let r = builder.build(&mut device);
    assert!(matches!(r.unwrap_err(), RenderError::CyclicGraph { .. }));
    assert_eq!(device.used, 0);
}

#[test]
fn color_pass_then_present_compiles_with_one_transition() {
    let mut builder = GraphBuilder::new();
    let color = builder.create_image(800, 600, blue());
    let pass = builder.add_render_pass(
        PipelineDescriptor::flat(triangle()),
        flat_shaders(),
        color,
        vec![],
    );
    builder.add_present(color, vec![pass]);
    let mut device = Device::new(10_000_000);
    let graph = builder.build(&mut device).unwrap();
    assert_eq!(graph.order, vec![0, 1]);
    assert_eq!(graph.transitions.len(), 1);
    assert_eq!(
        graph.transitions[0],
        Transition {
            at: 1,
            res: color,
            from: ResourceState {
                stage: AccessStage::ColorAttachmentWrite,
                layout: ImageLayout::ColorAttachmentOptimal,
            },
            to: ResourceState { stage: AccessStage::Present, layout: ImageLayout::PresentSrc },
        }
    );
}

#[test]
fn depending_on_the_present_node_fails_validation() {
    let mut builder = GraphBuilder::new();
    let color = builder.create_image(64, 64, blue());
    let other = builder.create_image(64, 64, blue());
    let pass = builder.add_render_pass(
        PipelineDescriptor::flat(triangle()),
        flat_shaders(),
        color,
        vec![],
    );
    let present = builder.add_present(color, vec![pass]);
    builder.add_render_pass(
        PipelineDescriptor::flat(triangle()),
        flat_shaders(),
        other,
        vec![present],
    );
    let mut device = Device::new(1_000_000);
    let r = builder.build(&mut device);
    assert_eq!(r.unwrap_err(), RenderError::GraphValidation { node: 2 });
    assert_eq!(device.used, 0);
}

#[test]
fn touching_a_presented_resource_fails_validation() {
    let mut builder = GraphBuilder::new();
    let color = builder.create_image(64, 64, blue());
    let pass = builder.add_render_pass(
        PipelineDescriptor::flat(triangle()),
        flat_shaders(),
        color,
        vec![],
    );
    builder.add_present(color, vec![pass]);
    builder.add_present(color, vec![pass]);
    let mut device = Device::new(1_000_000);
    let r = builder.build(&mut device);
    assert_eq!(r.unwrap_err(), RenderError::GraphValidation { node: 2 });
    assert_eq!(device.used, 0);
}

#[test]
fn graph_too_large_for_the_device_fails_allocation() {
    let mut builder = GraphBuilder::new();
    let color = builder.create_image(800, 600, blue());
    let pass = builder.add_render_pass(
        PipelineDescriptor::flat(triangle()),
        flat_shaders(),
        color,
        vec![],
    );
    builder.add_present(color, vec![pass]);
    let mut device = Device::new(100);
    let r = builder.build(&mut device);
    assert!(matches!(r.unwrap_err(), RenderError::Allocation { .. }));
    assert_eq!(device.used, 0);
}

#[test]
fn one_frame_records_draw_transition_and_present() {
    let mut builder = GraphBuilder::new();
    let color = builder.create_image(800, 600, blue());
    let pass = builder.add_render_pass(
        PipelineDescriptor::flat(triangle()),
        flat_shaders(),
        color,
        vec![],
    );
    builder.add_present(color, vec![pass]);
    let mut device = Device::new(10_000_000);
    let mut graph = builder.build(&mut device).unwrap();
    let enc = graph.run(&mut device, 7).unwrap();
    assert_eq!(enc.len(), 4);
    assert_eq!(enc.command_at(0), Command::BindVertexBuffer { offset: 0, size: 24 });
    assert_eq!(
        enc.command_at(1),
        Command::Draw { first_vertex: 0, vertex_end: 3, first_instance: 0, instance_end: 1 }
    );
    assert_eq!(
        enc.command_at(2),
        Command::Transition {
            res: color,
            from: ResourceState {
                stage: AccessStage::ColorAttachmentWrite,
                layout: ImageLayout::ColorAttachmentOptimal,
            },
            to: ResourceState { stage: AccessStage::Present, layout: ImageLayout::PresentSrc },
        }
    );
    assert_eq!(enc.command_at(3), Command::Present { res: color });
}

#[test]
fn rerunning_before_completion_is_a_concurrent_run() {
    let mut builder = GraphBuilder::new();
    let color = builder.create_image(64, 64, blue());
    let pass = builder.add_render_pass(
        PipelineDescriptor::flat(triangle()),
        flat_shaders(),
        color,
        vec![],
    );
    builder.add_present(color, vec![pass]);
    let mut device = Device::new(1_000_000);
    let mut graph = builder.build(&mut device).unwrap();
    graph.run(&mut device, 1).unwrap();
    let r = graph.run(&mut device, 2);
    assert_eq!(r.unwrap_err(), RenderError::ConcurrentRun);
    graph.complete_frame();
    assert!(graph.run(&mut device, 2).is_ok());
}

#[test]
fn repeated_frames_replay_the_same_commands() {
    let mut builder = GraphBuilder::new();
    let color = builder.create_image(64, 64, blue());
    let pass = builder.add_render_pass(
        PipelineDescriptor::flat(triangle()),
        flat_shaders(),
        color,
        vec![],
    );
    builder.add_present(color, vec![pass]);
    let mut device = Device::new(1_000_000);
    let mut graph = builder.build(&mut device).unwrap();
    let first = graph.run(&mut device, 1).unwrap();
    graph.complete_frame();
    let used_between = device.used;
    let second = graph.run(&mut device, 1).unwrap();
    graph.complete_frame();
    assert_eq!(first.commands, second.commands);
    assert_eq!(device.used, used_between);
}

#[test]
fn graph_dispose_restores_the_device() {
    let mut builder = GraphBuilder::new();
    let color = builder.create_image(64, 64, blue());
    let pass = builder.add_render_pass(
        PipelineDescriptor::flat(triangle()),
        flat_shaders(),
        color,
        vec![],
    );
    builder.add_present(color, vec![pass]);
    let mut device = Device::new(1_000_000);
    let mut graph = builder.build(&mut device).unwrap();
    graph.run(&mut device, 1).unwrap();
    graph.complete_frame();
    graph.dispose(&mut device);
    assert_eq!(device.used, 0);
}

#[test]
fn the_driver_advances_and_wraps_its_angle() {
    let mut driver = FrameDriver::new();
    assert_eq!(driver.angle, ANGLE_MIN);
    let aux = driver.advance();
    assert_eq!(driver.angle, ANGLE_MIN + ANGLE_STEP);
    assert_eq!(aux, (ANGLE_MIN + ANGLE_STEP) as i64 as u64);
    driver.angle = ANGLE_MAX;
    driver.advance();
    assert_eq!(driver.angle, ANGLE_MIN);
    assert_eq!(driver.frame_index, 2);
}

#[test]
fn the_driver_runs_whole_frames() {
    let mut builder = GraphBuilder::new();
    let color = builder.create_image(64, 64, blue());
    let pass = builder.add_render_pass(
        PipelineDescriptor::flat(triangle()),
        flat_shaders(),
        color,
        vec![],
    );
    builder.add_present(color, vec![pass]);
    let mut device = Device::new(1_000_000);
    let mut graph = builder.build(&mut device).unwrap();
    let mut driver = FrameDriver::new();
    let enc = driver.run_frame(&mut graph, &mut device).unwrap();
    assert_eq!(enc.len(), 4);
    assert_eq!(driver.frame_index, 1);
    assert!(!graph.in_flight);
    let enc2 = driver.run_frame(&mut graph, &mut device).unwrap();
    assert_eq!(enc2.len(), 4);
    assert_eq!(driver.frame_index, 2);
}

#[test]
fn an_empty_description_compiles_and_runs_nothing() {
    let builder = GraphBuilder::new();
    let mut device = Device::new(1_000);
    let mut graph = builder.build(&mut device).unwrap();
    assert_eq!(graph.order.len(), 0);
    assert_eq!(graph.transitions.len(), 0);
    let enc = graph.run(&mut device, 0).unwrap();
    assert_eq!(enc.len(), 0);
    assert_eq!(device.used, 0);
}

#[test]
fn a_first_touch_defines_the_state_without_a_transition() {
    let mut builder = GraphBuilder::new();
    let color = builder.create_image(16, 16, blue());
    builder.add_present(color, vec![]);
    let mut device = Device::new(1_000_000);
    let graph = builder.build(&mut device).unwrap();
    assert_eq!(graph.transitions.len(), 0);
}
