use rendergraph::descriptor::DescriptorType;
use rendergraph::encoder::{Command, Encoder};
use rendergraph::error::RenderError;
use rendergraph::pipeline::{
    PipelineDescriptor, Position, PrepareResult, ShaderSet, TexCoords, TextureData,
    TextureFormat, Vertex,
};
use rendergraph::resource::Device;

fn triangle_flat() -> Vec<Vertex> {
    vec![
        Vertex { position: Position { x: -500, y: 500 }, tex_coords: None },
        Vertex { position: Position { x: 0, y: -500 }, tex_coords: None },
        Vertex { position: Position { x: 500, y: 250 }, tex_coords: None },
    ]
}

fn triangle_textured() -> Vec<Vertex> {
    vec![
        Vertex {
            position: Position { x: -500, y: 500 },
            tex_coords: Some(TexCoords { u: 0, v: 0 }),
        },
        Vertex {
            position: Position { x: 0, y: -500 },
            tex_coords: Some(TexCoords { u: 0, v: 1000 }),
        },
        Vertex {
            position: Position { x: 500, y: 250 },
            tex_coords: Some(TexCoords { u: 1000, v: 0 }),
        },
    ]
}

fn flat_shaders() -> ShaderSet {
    ShaderSet {
        vertex_binary: vec![1, 2, 3],
        fragment_binary: vec![4, 5, 6],
        attribute_sizes: vec![8],
        bindings: vec![],
    }
}

fn textured_shaders() -> ShaderSet {
    ShaderSet {
        vertex_binary: vec![1, 2, 3],
        fragment_binary: vec![4, 5, 6],
        attribute_sizes: vec![8, 8],
        bindings: vec![
            DescriptorType::UniformBuffer,
            DescriptorType::SampledImage,
            DescriptorType::Sampler,
        ],
    }
}

fn small_texture() -> TextureData {
    TextureData {
        width: 2,
        height: 2,
        format: TextureFormat::Rgba8,
        bytes: vec![7; 16],
        mip_levels: 1,
    }
}

#[test]
fn flat_descriptor_declares_its_shape() {
    let desc = PipelineDescriptor::flat(triangle_flat());
    assert!(desc.depth_stencil().is_none());
    assert_eq!(desc.vertices().attribute_sizes, vec![8]);
    assert_eq!(desc.layout().binding_count(), 0);
}

#[test]
fn textured_descriptor_declares_three_bindings() {
    let desc = PipelineDescriptor::textured(triangle_textured(), small_texture());
    assert_eq!(desc.vertices().attribute_sizes, vec![8, 8]);
    let layout = desc.layout();
    assert_eq!(layout.binding_count(), 3);
    assert_eq!(
        layout.bindings,
        vec![
            DescriptorType::UniformBuffer,
            DescriptorType::SampledImage,
            DescriptorType::Sampler,
        ]
    );
}

#[test]
fn mismatched_shader_attributes_fail_the_build() {
    let desc = PipelineDescriptor::flat(triangle_flat());
    let mut device = Device::new(1_000_000);
    let r = desc.build(&textured_shaders(), &mut device);
    assert_eq!(r.unwrap_err(), RenderError::PipelineBuild);
    assert_eq!(device.used, 0);
}

#[test]
fn unsupported_texture_format_fails_the_build() {
    let mut tex = small_texture();
    tex.format = TextureFormat::Rgb8;
    tex.bytes = vec![7; 12];
    let desc = PipelineDescriptor::textured(triangle_textured(), tex);
    let mut device = Device::new(1_000_000);
    let r = desc.build(&textured_shaders(), &mut device);
    assert_eq!(r.unwrap_err(), RenderError::TextureBuild);
    assert_eq!(device.used, 0);
}

#[test]
fn prepare_twice_with_unchanged_aux_reuses_and_skips_uploads() {
    let desc = PipelineDescriptor::flat(triangle_flat());
    let mut device = Device::new(1_000_000);
    let mut pipeline = desc.build(&flat_shaders(), &mut device).unwrap();
    let first = pipeline.prepare(&mut device, 42).unwrap();
    assert_eq!(first, PrepareResult::DrawReuse);
    let used_after_first = device.used;
    let second = pipeline.prepare(&mut device, 42).unwrap();
    assert_eq!(second, PrepareResult::DrawReuse);
    assert_eq!(device.used, used_after_first);
}

#[test]
fn textured_prepare_rewrites_the_uniform_only_on_new_aux() {
    let desc = PipelineDescriptor::textured(triangle_textured(), small_texture());
    let mut device = Device::new(1_000_000);
    let mut pipeline = desc.build(&textured_shaders(), &mut device).unwrap();
    pipeline.prepare(&mut device, 5).unwrap();
    let uniform = pipeline.uniform.as_ref().unwrap().data.clone();
    assert_eq!(&uniform[0..8], &5u64.to_le_bytes());
    pipeline.prepare(&mut device, 5).unwrap();
    assert_eq!(pipeline.uniform.as_ref().unwrap().data, uniform);
    pipeline.prepare(&mut device, 6).unwrap();
    assert_eq!(&pipeline.uniform.as_ref().unwrap().data[0..8], &6u64.to_le_bytes());
}

#[test]
fn prepared_draw_records_the_three_vertex_range() {
    let desc = PipelineDescriptor::flat(triangle_flat());
    let mut device = Device::new(1_000_000);
    let mut pipeline = desc.build(&flat_shaders(), &mut device).unwrap();
    pipeline.prepare(&mut device, 0).unwrap();
    let mut encoder = Encoder::new();
    pipeline.draw(&mut encoder);
    assert_eq!(encoder.len(), 2);
    assert_eq!(encoder.command_at(0), Command::BindVertexBuffer { offset: 0, size: 24 });
    assert_eq!(
        encoder.command_at(1),
        Command::Draw { first_vertex: 0, vertex_end: 3, first_instance: 0, instance_end: 1 }
    );
}

#[test]
fn textured_draw_binds_the_descriptor_set_first() {
    let desc = PipelineDescriptor::textured(triangle_textured(), small_texture());
    let mut device = Device::new(1_000_000);
    let mut pipeline = desc.build(&textured_shaders(), &mut device).unwrap();
    pipeline.prepare(&mut device, 1).unwrap();
    let mut encoder = Encoder::new();
    pipeline.draw(&mut encoder);
    assert_eq!(encoder.len(), 3);
    assert_eq!(encoder.command_at(0), Command::BindDescriptorSet { bindings: 3 });
    assert_eq!(encoder.command_at(1), Command::BindVertexBuffer { offset: 0, size: 48 });
    assert_eq!(
        encoder.command_at(2),
        Command::Draw { first_vertex: 0, vertex_end: 3, first_instance: 0, instance_end: 1 }
    );
}

#[test]
fn lazy_vertex_buffer_holds_little_endian_coordinates() {
    let desc = PipelineDescriptor::flat(triangle_flat());
    let mut device = Device::new(1_000_000);
    let mut pipeline = desc.build(&flat_shaders(), &mut device).unwrap();
    assert!(pipeline.vertex.is_none());
    pipeline.prepare(&mut device, 0).unwrap();
    let mut expected: Vec<u8> = Vec::new();
    for (x, y) in [(-500i32, 500i32), (0, -500), (500, 250)] {
        expected.extend_from_slice(&x.to_le_bytes());
        expected.extend_from_slice(&y.to_le_bytes());
    }
    assert_eq!(pipeline.vertex.as_ref().unwrap().data, expected);
}

#[test]
fn lazy_allocation_failure_reports_the_shortfall() {
    let desc = PipelineDescriptor::flat(triangle_flat());
    let mut device = Device::new(10);
    let mut pipeline = desc.build(&flat_shaders(), &mut device).unwrap();
    let r = pipeline.prepare(&mut device, 0);
    assert_eq!(r.unwrap_err(), RenderError::Allocation { requested: 24, available: 10 });
    assert!(pipeline.vertex.is_none());
    assert_eq!(device.used, 0);
}

#[test]
fn dispose_returns_everything_the_pipeline_owns() {
    let desc = PipelineDescriptor::textured(triangle_textured(), small_texture());
    let mut device = Device::new(1_000_000);
    let pipeline = desc.build(&textured_shaders(), &mut device).unwrap();
    assert!(device.used > 0);
    pipeline.dispose(&mut device);
    assert_eq!(device.used, 0);
}
