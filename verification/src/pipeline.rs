use vstd::prelude::*;
use vstd::pervasive::unreached;
use crate::descriptor::{DescriptorAllocator, DescriptorSet, DescriptorType, ResourceView, SetLayout};
use crate::encoder::{Command, Encoder};
use crate::error::RenderError;
use crate::resource::{
    AccessStage, Device, ImageLayout, MemoryPolicy, Resource, ResourceKind, ResourceState,
    UsageFlags,
};

verus! {

/// Bytes of one vertex position attribute (two 32-bit coordinates).
pub const POSITION_SIZE: u32 = 8;

/// Bytes of one texture-coordinate attribute (two 32-bit coordinates).
pub const TEX_COORDS_SIZE: u32 = 8;

/// Bytes of the per-frame uniform buffer.
pub const UNIFORM_SIZE: u64 = 64;

/// A vertex position in fixed-point milliunits: 1000 is one unit of clip
/// space, so a coordinate of -500 sits halfway toward the left edge.
#[derive(Clone, Copy, Debug, PartialEq, Eq, Structural)]
pub struct Position {
    pub x: i32,
    pub y: i32,
}

/// Texture coordinates in fixed-point milliunits of texture space.
#[derive(Clone, Copy, Debug, PartialEq, Eq, Structural)]
pub struct TexCoords {
    pub u: i32,
    pub v: i32,
}

/// One vertex handed to a pipeline: a position, and texture coordinates for
/// pipelines that sample a texture.
#[derive(Clone, Copy, Debug, PartialEq, Eq, Structural)]
pub struct Vertex {
    pub position: Position,
    pub tex_coords: Option<TexCoords>,
}

/// The closed set of pipeline shapes this core drives: a flat-colored pass
/// over plain vertices, and a textured pass with a uniform, a sampled image
/// and a sampler.
#[derive(Clone, Copy, Debug, PartialEq, Eq, Structural)]
pub enum PipelineKind {
    Flat,
    Textured,
}

/// Depth and stencil configuration a pipeline may declare.
#[derive(Clone, Copy, Debug, PartialEq, Eq, Structural)]
pub struct DepthStencilDesc {
    pub depth_test: bool,
    pub depth_write: bool,
}

/// The declared vertex format: the byte size of each attribute, in order.
#[derive(Debug)]
pub struct VertexFormat {
    pub attribute_sizes: Vec<u32>,
}

/// What the outside shader-compilation and reflection service hands the
/// core: compiled binaries as opaque blobs, plus the reflected vertex
/// attributes and descriptor bindings the shaders expect.
#[derive(Debug)]
pub struct ShaderSet {
    pub vertex_binary: Vec<u8>,
    pub fragment_binary: Vec<u8>,
    pub attribute_sizes: Vec<u32>,
    pub bindings: Vec<DescriptorType>,
}

/// Pixel formats the outside image decoder may deliver.
#[derive(Clone, Copy, Debug, PartialEq, Eq, Structural)]
pub enum TextureFormat {
    /// Four bytes per pixel; the one format this device accepts.
    Rgba8,
    /// Three bytes per pixel; not supported by the device.
    Rgb8,
}

/// What the outside image decoder hands the texture-creation path.
#[derive(Debug)]
pub struct TextureData {
    pub width: u32,
    pub height: u32,
    pub format: TextureFormat,
    pub bytes: Vec<u8>,
    pub mip_levels: u32,
}

impl TextureData {
    /// Whether the decoded image can become a texture on this device.
    pub open spec fn usable(self) -> bool {
        &&& self.format is Rgba8
        &&& self.bytes@.len() == self.width as int * self.height as int * 4
        &&& self.mip_levels >= 1
    }

    pub fn check_usable(&self) -> (b: bool)
        ensures
            b == self.usable(),
    {
        let kind = crate::resource::ResourceKind::Image { width: self.width, height: self.height };
        let expected: u128 = kind.byte_size();
        let format_ok: bool = self.format == TextureFormat::Rgba8;
        format_ok && self.bytes.len() as u128 == expected && self.mip_levels >= 1
    }
}

/// The result `prepare` hands back each frame: whether previously recorded
/// draw commands remain valid or must be re-issued.
#[derive(Clone, Copy, Debug, PartialEq, Eq, Structural)]
pub enum PrepareResult {
    DrawReuse,
    DrawRecord,
}

/// Whether a vertex carries exactly the attributes its pipeline kind reads.
pub open spec fn vertex_matches(kind: PipelineKind, v: Vertex) -> bool {
    match kind {
        PipelineKind::Flat => v.tex_coords is None,
        PipelineKind::Textured => v.tex_coords is Some,
    }
}

/// The attribute byte sizes a pipeline kind declares.
pub open spec fn spec_attr_sizes(kind: PipelineKind) -> Seq<u32> {
    match kind {
        PipelineKind::Flat => seq![POSITION_SIZE],
        PipelineKind::Textured => seq![POSITION_SIZE, TEX_COORDS_SIZE],
    }
}

/// Bytes of one vertex of the given kind.
pub open spec fn spec_stride(kind: PipelineKind) -> int {
    match kind {
        PipelineKind::Flat => 8,
        PipelineKind::Textured => 16,
    }
}

/// The descriptor-set layout a pipeline kind declares.
pub open spec fn spec_set_layout(kind: PipelineKind) -> Seq<DescriptorType> {
    match kind {
        PipelineKind::Flat => Seq::empty(),
        PipelineKind::Textured => seq![
            DescriptorType::UniformBuffer,
            DescriptorType::SampledImage,
            DescriptorType::Sampler,
        ],
    }
}

/// A 32-bit value as four little-endian bytes.
pub open spec fn le4(v: u32) -> Seq<u8> {
    seq![
        (v & 0xff) as u8,
        ((v >> 8) & 0xff) as u8,
        ((v >> 16) & 0xff) as u8,
        ((v >> 24) & 0xff) as u8,
    ]
}

/// A 64-bit value as eight little-endian bytes.
pub open spec fn le8(v: u64) -> Seq<u8> {
    seq![
        (v & 0xff) as u8,
        ((v >> 8) & 0xff) as u8,
        ((v >> 16) & 0xff) as u8,
        ((v >> 24) & 0xff) as u8,
        ((v >> 32) & 0xff) as u8,
        ((v >> 40) & 0xff) as u8,
        ((v >> 48) & 0xff) as u8,
        ((v >> 56) & 0xff) as u8,
    ]
}

pub open spec fn spec_encode_i32(v: i32) -> Seq<u8> {
    le4(v as u32)
}

/// One vertex laid out for the GPU: position, then texture coordinates for
/// textured pipelines.
pub open spec fn spec_encode_vertex(kind: PipelineKind, v: Vertex) -> Seq<u8> {
    match kind {
        PipelineKind::Flat => spec_encode_i32(v.position.x) + spec_encode_i32(v.position.y),
        PipelineKind::Textured => spec_encode_i32(v.position.x) + spec_encode_i32(v.position.y)
            + (match v.tex_coords {
            Some(t) => spec_encode_i32(t.u) + spec_encode_i32(t.v),
            None => spec_encode_i32(0) + spec_encode_i32(0),
        }),
    }
}

/// The vertex buffer contents from vertex `j` on.
pub open spec fn spec_encode_from(kind: PipelineKind, vs: Seq<Vertex>, j: int) -> Seq<u8>
    decreases vs.len() - j,
{
    if j < 0 || j >= vs.len() {
        Seq::empty()
    } else {
        spec_encode_vertex(kind, vs[j]) + spec_encode_from(kind, vs, j + 1)
    }
}

/// Encoding `m` vertices takes `m` strides of bytes.
pub proof fn lemma_encode_len(kind: PipelineKind, vs: Seq<Vertex>, j: int)
    requires
        0 <= j <= vs.len(),
    ensures
        spec_encode_from(kind, vs, j).len() == (vs.len() - j) * spec_stride(kind),
    decreases vs.len() - j,
{
    if j < vs.len() {
        lemma_encode_len(kind, vs, j + 1);
        assert((vs.len() - j) * spec_stride(kind) == (vs.len() - (j + 1)) * spec_stride(kind)
            + spec_stride(kind)) by (nonlinear_arith);
    } else {
        assert((vs.len() - j) * spec_stride(kind) == 0) by (nonlinear_arith)
            requires
                j == vs.len(),
        ;
    }
}

/// Appends a 32-bit coordinate in little-endian order.
fn push_i32(out: &mut Vec<u8>, v: i32)
    ensures
        final(out)@ == old(out)@ + spec_encode_i32(v),
{
    let u: u32 = v as u32;
    out.push((u & 0xff) as u8);
    out.push(((u >> 8) & 0xff) as u8);
    out.push(((u >> 16) & 0xff) as u8);
    out.push(((u >> 24) & 0xff) as u8);
    proof {
        assert(out@ =~= old(out)@ + spec_encode_i32(v));
    }
}

/// Lays a vertex list out for the GPU.
fn encode_vertices(kind: PipelineKind, vs: &Vec<Vertex>) -> (r: Vec<u8>)
    ensures
        r@ == spec_encode_from(kind, vs@, 0),
{
    let mut out: Vec<u8> = Vec::new();
    let mut j: usize = 0;
    while j < vs.len()
        invariant
            j <= vs@.len(),
            out@ + spec_encode_from(kind, vs@, j as int) == spec_encode_from(kind, vs@, 0),
        decreases vs@.len() - j,
    {
        let ghost entry = out@;
        let v: Vertex = vs[j];
        push_i32(&mut out, v.position.x);
        push_i32(&mut out, v.position.y);
        if let PipelineKind::Textured = kind {
            match v.tex_coords {
                Some(t) => {
                    push_i32(&mut out, t.u);
                    push_i32(&mut out, t.v);
                },
                None => {
                    push_i32(&mut out, 0);
                    push_i32(&mut out, 0);
                },
            }
        }
        proof {
            assert(out@ =~= entry + spec_encode_vertex(kind, vs@[j as int]));
            assert(entry + spec_encode_from(kind, vs@, j as int) == spec_encode_from(
                kind,
                vs@,
                0,
            ));
            assert(spec_encode_from(kind, vs@, j as int) == spec_encode_vertex(kind, vs@[j as int])
                + spec_encode_from(kind, vs@, j as int + 1));
            assert(out@ + spec_encode_from(kind, vs@, j as int + 1) =~= entry + spec_encode_from(
                kind,
                vs@,
                j as int,
            ));
        }
        j = j + 1;
    }
    proof {
        assert(out@ + Seq::<u8>::empty() =~= out@);
    }
    out
}

/// The per-frame uniform contents for auxiliary value `aux`: its eight
/// little-endian bytes, followed by zero padding up to the uniform size.
fn encode_aux(aux: u64) -> (r: Vec<u8>)
    ensures
        r@ == le8(aux),
{
    let mut out: Vec<u8> = Vec::new();
    out.push((aux & 0xff) as u8);
    out.push(((aux >> 8) & 0xff) as u8);
    out.push(((aux >> 16) & 0xff) as u8);
    out.push(((aux >> 24) & 0xff) as u8);
    out.push(((aux >> 32) & 0xff) as u8);
    out.push(((aux >> 40) & 0xff) as u8);
    out.push(((aux >> 48) & 0xff) as u8);
    out.push(((aux >> 56) & 0xff) as u8);
    proof {
        assert(out@ =~= le8(aux));
    }
    out
}

fn u32_vec_eq(a: &Vec<u32>, b: &Vec<u32>) -> (r: bool)
    ensures
        r == (a@ =~= b@),
{
    if a.len() != b.len() {
        return false;
    }
    let mut i: usize = 0;
    while i < a.len()
        invariant
            i <= a@.len(),
            a@.len() == b@.len(),
            forall|j: int| 0 <= j < i ==> a@[j] == b@[j],
        decreases a@.len() - i,
    {
        if a[i] != b[i] {
            return false;
        }
        i = i + 1;
    }
    true
}

fn desc_types_eq(a: &Vec<DescriptorType>, b: &Vec<DescriptorType>) -> (r: bool)
    ensures
        r == (a@ =~= b@),
{
    if a.len() != b.len() {
        return false;
    }
    let mut i: usize = 0;
    while i < a.len()
        invariant
            i <= a@.len(),
            a@.len() == b@.len(),
            forall|j: int| 0 <= j < i ==> a@[j] == b@[j],
        decreases a@.len() - i,
    {
        let x: DescriptorType = a[i];
        let y: DescriptorType = b[i];
        if !(x == y) {
            return false;
        }
        i = i + 1;
    }
    true
}

/// The static, descriptor phase of a pipeline: its kind, its fixed vertex
/// data, and, for textured pipelines, the decoded image to sample. Consumed
/// by `build` to produce the instance phase.
#[derive(Debug)]
pub struct PipelineDescriptor {
    pub kind: PipelineKind,
    pub vertex_data: Vec<Vertex>,
    pub texture: Option<TextureData>,
}

impl PipelineDescriptor {
    /// Every vertex fits the declared kind, the vertex count fits the draw
    /// command's 32-bit ranges, and only textured pipelines carry an image.
    pub open spec fn wf(self) -> bool {
        &&& (forall|i: int|
            0 <= i < self.vertex_data@.len() ==> vertex_matches(
                self.kind,
                #[trigger] self.vertex_data@[i],
            ))
        &&& self.vertex_data@.len() <= u32::MAX
        &&& self.vertex_data@.len() * spec_stride(self.kind) <= usize::MAX
        &&& (self.kind is Flat ==> self.texture is None)
        &&& (self.kind is Textured ==> self.texture is Some)
    }

    /// A flat-colored pipeline over plain positions.
    pub fn flat(vertex_data: Vec<Vertex>) -> (d: PipelineDescriptor)
        requires
            forall|i: int|
                0 <= i < vertex_data@.len() ==> (#[trigger] vertex_data@[i]).tex_coords is None,
            vertex_data@.len() <= u32::MAX,
            vertex_data@.len() * 8 <= usize::MAX,
        ensures
            d == (PipelineDescriptor {
                kind: PipelineKind::Flat,
                vertex_data,
                texture: None::<TextureData>,
            }),
            d.wf(),
    {
        PipelineDescriptor { kind: PipelineKind::Flat, vertex_data, texture: None }
    }

    /// A textured pipeline over position-and-texture-coordinate vertices.
    pub fn textured(vertex_data: Vec<Vertex>, texture: TextureData) -> (d: PipelineDescriptor)
        requires
            forall|i: int|
                0 <= i < vertex_data@.len() ==> (#[trigger] vertex_data@[i]).tex_coords is Some,
            vertex_data@.len() <= u32::MAX,
            vertex_data@.len() * 16 <= usize::MAX,
        ensures
            d.kind == PipelineKind::Textured,
            d.vertex_data == vertex_data,
            d.texture == Some(texture),
            d.wf(),
    {
        PipelineDescriptor { kind: PipelineKind::Textured, vertex_data, texture: Some(texture) }
    }

    /// Neither pipeline shape tests or writes depth.
    pub fn depth_stencil(&self) -> (d: Option<DepthStencilDesc>)
        ensures
            d is None,
    {
        None
    }

    /// The vertex format the pipeline declares, one attribute at a time.
    pub fn vertices(&self) -> (f: VertexFormat)
        ensures
            f.attribute_sizes@ == spec_attr_sizes(self.kind),
    {
        let mut attribute_sizes: Vec<u32> = Vec::new();
        attribute_sizes.push(POSITION_SIZE);
        if let PipelineKind::Textured = self.kind {
            attribute_sizes.push(TEX_COORDS_SIZE);
        }
        proof {
            assert(attribute_sizes@ =~= spec_attr_sizes(self.kind));
        }
        VertexFormat { attribute_sizes }
    }

    /// The descriptor-set layout the pipeline declares: nothing for the flat
    /// shape; a uniform buffer, a sampled image and a sampler for the
    /// textured one.
    pub fn layout(&self) -> (l: SetLayout)
        ensures
            l@ == spec_set_layout(self.kind),
    {
        let mut bindings: Vec<DescriptorType> = Vec::new();
        if let PipelineKind::Textured = self.kind {
            bindings.push(DescriptorType::UniformBuffer);
            bindings.push(DescriptorType::SampledImage);
            bindings.push(DescriptorType::Sampler);
        }
        proof {
            assert(bindings@ =~= spec_set_layout(self.kind));
        }
        SetLayout::new(bindings)
    }

    /// Whether the shader set's reflected interface fits this pipeline's
    /// declared vertex format and descriptor-set layout.
    pub fn interface_matches(&self, shaders: &ShaderSet) -> (b: bool)
        ensures
            b == (shaders.attribute_sizes@ =~= spec_attr_sizes(self.kind)
                && shaders.bindings@ =~= spec_set_layout(self.kind)),
    {
        let fmt: VertexFormat = self.vertices();
        let lay: SetLayout = self.layout();
        u32_vec_eq(&shaders.attribute_sizes, &fmt.attribute_sizes) && desc_types_eq(
            &shaders.bindings,
            &lay.bindings,
        )
    }

    /// Device bytes `build` itself allocates: the flat shape allocates
    /// nothing up front (its vertex buffer is populated lazily on first
    /// `prepare`); the textured shape allocates its texture, its uniform
    /// buffer and its vertex buffer.
    pub open spec fn spec_build_bytes(self) -> int {
        match self.kind {
            PipelineKind::Flat => 0,
            PipelineKind::Textured => (match self.texture {
                Some(t) => t.width as int * t.height as int * 4,
                None => 0,
            }) + UNIFORM_SIZE + self.vertex_data@.len() * spec_stride(PipelineKind::Textured),
        }
    }
}

/// The instance phase of a pipeline: the concrete resources `build`
/// produced, replayed every frame through `prepare` and `draw` until
/// `dispose` releases them.
#[derive(Debug)]
pub struct PipelineInstance {
    pub kind: PipelineKind,
    pub vertex_data: Vec<Vertex>,
    /// The vertex buffer; the flat shape populates it lazily on first
    /// `prepare`.
    pub vertex: Option<Resource>,
    pub uniform: Option<Resource>,
    pub texture: Option<Resource>,
    pub descriptor_set: Option<DescriptorSet>,
    /// The auxiliary value the last `prepare` uploaded, if any.
    pub last_aux: Option<u64>,
}

impl PipelineInstance {
    /// Bytes of the instance's vertex buffer.
    pub open spec fn spec_vb_size(self) -> int {
        self.vertex_data@.len() * spec_stride(self.kind)
    }

    /// A populated vertex buffer holds exactly the encoded vertex data.
    pub open spec fn vbuf_wf(self, b: Resource) -> bool {
        &&& b.kind == (ResourceKind::Buffer { size: self.spec_vb_size() as u64 })
        &&& b.policy is Dynamic
        &&& b.usage.vertex
        &&& b.wf()
        &&& b.data@ == spec_encode_from(self.kind, self.vertex_data@, 0)
    }

    pub open spec fn wf(self) -> bool {
        &&& (forall|i: int|
            0 <= i < self.vertex_data@.len() ==> vertex_matches(
                self.kind,
                #[trigger] self.vertex_data@[i],
            ))
        &&& self.vertex_data@.len() <= u32::MAX
        &&& self.spec_vb_size() <= usize::MAX
        &&& (match self.vertex {
            Some(b) => self.vbuf_wf(b),
            None => true,
        })
        &&& match self.kind {
            PipelineKind::Flat => {
                &&& self.uniform is None
                &&& self.texture is None
                &&& self.descriptor_set is None
            },
            PipelineKind::Textured => {
                &&& self.vertex is Some
                &&& (self.uniform matches Some(u) && u.kind == (ResourceKind::Buffer {
                    size: UNIFORM_SIZE,
                }) && u.policy is Dynamic && u.usage.uniform && u.wf())
                &&& (self.texture matches Some(t) && t.kind is Image && t.wf())
                &&& (self.descriptor_set matches Some(s) && s.wf() && s.complete()
                    && s.types_match() && s.layout@ == spec_set_layout(PipelineKind::Textured))
            },
        }
    }

    /// Whether `prepare` has run for `aux` and every lazily created resource
    /// is resident.
    pub open spec fn prepared_for(self, aux: u64) -> bool {
        self.vertex is Some && self.last_aux == Some(aux)
    }

    /// Device bytes the next `prepare` still has to allocate.
    pub open spec fn spec_lazy_bytes(self) -> int {
        if self.vertex is None {
            self.spec_vb_size()
        } else {
            0
        }
    }

    /// Executable form of the lazy-allocation accounting.
    pub fn lazy_bytes(&self) -> (n: u64)
        requires
            self.wf(),
        ensures
            n == self.spec_lazy_bytes(),
    {
        if self.vertex.is_none() {
            let stride: u64 = match self.kind {
                PipelineKind::Flat => 8,
                PipelineKind::Textured => 16,
            };
            self.vertex_data.len() as u64 * stride
        } else {
            0
        }
    }

    /// Bytes of device memory the instance owns.
    pub open spec fn spec_owned_bytes(self) -> int {
        (match self.vertex {
            Some(b) => b.kind.spec_byte_size(),
            None => 0,
        }) + (match self.uniform {
            Some(b) => b.kind.spec_byte_size(),
            None => 0,
        }) + (match self.texture {
            Some(b) => b.kind.spec_byte_size(),
            None => 0,
        })
    }

    /// The commands one `draw` records.
    pub open spec fn draw_commands(self) -> Seq<Command> {
        let bind_vb = Command::BindVertexBuffer { offset: 0, size: self.spec_vb_size() as u64 };
        let draw = Command::Draw {
            first_vertex: 0,
            vertex_end: self.vertex_data@.len() as u32,
            first_instance: 0,
            instance_end: 1,
        };
        match self.kind {
            PipelineKind::Flat => seq![bind_vb, draw],
            PipelineKind::Textured => seq![
                Command::BindDescriptorSet { bindings: 3 },
                bind_vb,
                draw,
            ],
        }
    }

    /// How `prepare` rewrites the uniform buffer: the auxiliary value's
    /// little-endian bytes land at the front; everything else stays.
    pub open spec fn uniform_updated(
        old_u: Option<Resource>,
        new_u: Option<Resource>,
        aux: u64,
    ) -> bool {
        match old_u {
            None => new_u is None,
            Some(a) => match new_u {
                Some(b) => {
                    &&& b.data@.len() == a.data@.len()
                    &&& (forall|i: int|
                        0 <= i < 8 && i < b.data@.len() ==> b.data@[i] == le8(aux)[i])
                    &&& (forall|i: int| 8 <= i < b.data@.len() ==> b.data@[i] == a.data@[i])
                    &&& b == (Resource { data: b.data, ..a })
                },
                None => false,
            },
        }
    }

    /// Runs before each frame's recording: populates the lazily created
    /// vertex buffer on first call, uploads the per-frame uniform data when
    /// the auxiliary value changed, and reports that previously recorded
    /// draw commands remain valid.
    ///
    /// Idempotent per frame: a second call with an unchanged auxiliary value
    /// changes nothing — no upload, no allocation — and still reports
    /// `DrawReuse`. Fails only when the lazy vertex buffer cannot be
    /// allocated, leaving pipeline and device untouched.
    pub fn prepare(&mut self, device: &mut Device, aux: u64) -> (r: Result<
        PrepareResult,
        RenderError,
    >)
        requires
            old(self).wf(),
            old(device).wf(),
        ensures
            final(self).wf(),
            final(device).wf(),
            final(device).capacity == old(device).capacity,
            final(self).kind == old(self).kind,
            final(self).vertex_data == old(self).vertex_data,
            final(self).texture == old(self).texture,
            final(self).descriptor_set == old(self).descriptor_set,
            if old(self).prepared_for(aux) {
                &&& *final(self) == *old(self)
                &&& *final(device) == *old(device)
                &&& r == Result::<PrepareResult, RenderError>::Ok(PrepareResult::DrawReuse)
            } else if old(self).spec_lazy_bytes() <= old(device).spec_available() {
                &&& r == Result::<PrepareResult, RenderError>::Ok(PrepareResult::DrawReuse)
                &&& final(self).prepared_for(aux)
                &&& final(device).used == old(device).used + old(self).spec_lazy_bytes()
                &&& (old(self).vertex is Some ==> final(self).vertex == old(self).vertex)
                &&& (old(self).kind is Textured ==> PipelineInstance::uniform_updated(
                    old(self).uniform,
                    final(self).uniform,
                    aux,
                ))
                &&& (old(self).kind is Flat ==> final(self).uniform is None)
            } else {
                &&& r == Result::<PrepareResult, RenderError>::Err(RenderError::Allocation {
                    requested: old(self).spec_lazy_bytes() as u64,
                    available: old(device).spec_available() as u64,
                })
                &&& *final(self) == *old(self)
                &&& *final(device) == *old(device)
            },
    {
        let same_aux: bool = match self.last_aux {
            Some(a) => a == aux,
            None => false,
        };
        if self.vertex.is_some() && same_aux {
            return Ok(PrepareResult::DrawReuse);
        }
        match self.kind {
            PipelineKind::Flat => {
                if self.vertex.is_none() {
                    let vb_size: u64 = self.vertex_data.len() as u64 * 8;
                    let avail: u64 = device.available();
                    if vb_size > avail {
                        return Err(RenderError::Allocation {
                            requested: vb_size,
                            available: avail,
                        });
                    }
                    let usage = UsageFlags {
                        vertex: true,
                        uniform: false,
                        sampled: false,
                        color_attachment: false,
                    };
                    let created = Resource::create(
                        ResourceKind::Buffer { size: vb_size },
                        usage,
                        MemoryPolicy::Dynamic,
                        None,
                        device,
                    );
                    let mut vbuf: Resource = match created {
                        Ok(b) => b,
                        Err(_) => return unreached(),
                    };
                    let encoded: Vec<u8> = encode_vertices(PipelineKind::Flat, &self.vertex_data);
                    proof {
                        lemma_encode_len(PipelineKind::Flat, self.vertex_data@, 0);
                    }
                    match vbuf.upload(0, &encoded) {
                        Ok(()) => (),
                        Err(_) => return unreached(),
                    }
                    proof {
                        assert(vbuf.data@ =~= spec_encode_from(
                            PipelineKind::Flat,
                            self.vertex_data@,
                            0,
                        ));
                    }
                    self.vertex = Some(vbuf);
                }
                self.last_aux = Some(aux);
                Ok(PrepareResult::DrawReuse)
            },
            PipelineKind::Textured => {
                let bytes: Vec<u8> = encode_aux(aux);
                let taken: Option<Resource> = self.uniform.take();
                let mut ub: Resource = match taken {
                    Some(u) => u,
                    None => return unreached(),
                };
                match ub.upload(0, &bytes) {
                    Ok(()) => (),
                    Err(_) => return unreached(),
                }
                self.uniform = Some(ub);
                self.last_aux = Some(aux);
                Ok(PrepareResult::DrawReuse)
            },
        }
    }

    /// Records bind and draw commands against the supplied recording
    /// context. Never allocates or uploads: everything it reads must already
    /// be resident from `prepare`.
    pub fn draw(&self, encoder: &mut Encoder)
        requires
            self.wf(),
            self.vertex is Some,
        ensures
            final(encoder).commands@ == old(encoder).commands@ + self.draw_commands(),
    {
        if let Some(set) = &self.descriptor_set {
            match set.bind_check() {
                Ok(()) => {
                    let bindings: usize = set.layout.binding_count();
                    encoder.record(Command::BindDescriptorSet { bindings });
                },
                Err(_) => {
                    return unreached();
                },
            }
        }
        let stride: u64 = match self.kind {
            PipelineKind::Flat => 8,
            PipelineKind::Textured => 16,
        };
        let size: u64 = self.vertex_data.len() as u64 * stride;
        encoder.record(Command::BindVertexBuffer { offset: 0, size });
        encoder.record(Command::Draw {
            first_vertex: 0,
            vertex_end: self.vertex_data.len() as u32,
            first_instance: 0,
            instance_end: 1,
        });
        proof {
            assert(encoder.commands@ =~= old(encoder).commands@ + self.draw_commands());
        }
    }

    /// Releases every owned resource back to the device. Terminal: the
    /// instance is consumed.
    pub fn dispose(self, device: &mut Device)
        requires
            self.wf(),
            old(device).wf(),
            old(device).used >= self.spec_owned_bytes(),
        ensures
            final(device).wf(),
            final(device).capacity == old(device).capacity,
            final(device).used == old(device).used - self.spec_owned_bytes(),
    {
        proof {
            lemma_byte_size_nonneg(self.vertex);
            lemma_byte_size_nonneg(self.uniform);
            lemma_byte_size_nonneg(self.texture);
        }
        let PipelineInstance { vertex, uniform, texture, .. } = self;
        if let Some(b) = vertex {
            b.dispose(device);
        }
        if let Some(b) = uniform {
            b.dispose(device);
        }
        if let Some(b) = texture {
            b.dispose(device);
        }
    }
}

/// An allocation never has a negative byte size.
proof fn lemma_byte_size_nonneg(r: Option<Resource>)
    ensures
        (match r {
            Some(b) => b.kind.spec_byte_size(),
            None => 0,
        }) >= 0,
{
    match r {
        Some(b) => match b.kind {
            ResourceKind::Buffer { size } => {},
            ResourceKind::Image { width, height } => {
                assert(width as int * height as int * 4 >= 0) by (nonlinear_arith);
            },
        },
        None => {},
    }
}

/// Writes a view whose binding index and descriptor type are known to fit
/// the layout.
fn write_must(set: &mut DescriptorSet, binding: usize, view: ResourceView)
    requires
        old(set).wf(),
        binding < old(set).layout@.len(),
        view.spec_descriptor_type() == old(set).layout@[binding as int],
    ensures
        final(set).wf(),
        final(set).layout@ == old(set).layout@,
        final(set).written@ == old(set).written@.update(binding as int, Some(view)),
{
    match set.write(binding, view) {
        Ok(()) => (),
        Err(_) => unreached(),
    }
}

impl PipelineDescriptor {
    /// Consumes the descriptor phase to produce the instance phase.
    ///
    /// Fails with the pipeline-build error when the shader set's reflected
    /// attributes or bindings differ from the declared vertex format or
    /// descriptor-set layout; with the texture-build error when a textured
    /// pipeline's decoded image is unusable; and with the allocation error
    /// when the device's remaining budget cannot hold the texture, the
    /// uniform buffer and the vertex buffer together. On any failure the
    /// device is left untouched.
    pub fn build(self, shaders: &ShaderSet, device: &mut Device) -> (r: Result<
        PipelineInstance,
        RenderError,
    >)
        requires
            self.wf(),
            old(device).wf(),
        ensures
            final(device).wf(),
            final(device).capacity == old(device).capacity,
            ({
                let iface_ok = shaders.attribute_sizes@ =~= spec_attr_sizes(self.kind)
                    && shaders.bindings@ =~= spec_set_layout(self.kind);
                let tex_ok = match self.texture {
                    Some(t) => t.usable(),
                    None => true,
                };
                if !iface_ok {
                    &&& r == Result::<PipelineInstance, RenderError>::Err(
                        RenderError::PipelineBuild,
                    )
                    &&& *final(device) == *old(device)
                } else if !tex_ok {
                    &&& r == Result::<PipelineInstance, RenderError>::Err(
                        RenderError::TextureBuild,
                    )
                    &&& *final(device) == *old(device)
                } else if self.spec_build_bytes() > old(device).spec_available() {
                    &&& r == Result::<PipelineInstance, RenderError>::Err(
                        RenderError::Allocation {
                            requested: self.spec_build_bytes() as u64,
                            available: old(device).spec_available() as u64,
                        },
                    )
                    &&& *final(device) == *old(device)
                } else {
                    &&& r matches Ok(p)
                    &&& p.wf()
                    &&& p.kind == self.kind
                    &&& p.vertex_data == self.vertex_data
                    &&& p.last_aux is None
                    &&& (self.kind is Flat ==> p.vertex is None)
                    &&& (self.kind is Textured ==> p.vertex is Some)
                    &&& p.spec_owned_bytes() == self.spec_build_bytes()
                    &&& final(device).used == old(device).used + self.spec_build_bytes()
                }
            }),
    {
        if !self.interface_matches(shaders) {
            return Err(RenderError::PipelineBuild);
        }
        let lay: SetLayout = self.layout();
        let PipelineDescriptor { kind, vertex_data, texture } = self;
        match kind {
            PipelineKind::Flat => Ok(PipelineInstance {
                kind: PipelineKind::Flat,
                vertex_data,
                vertex: None,
                uniform: None,
                texture: None,
                descriptor_set: None,
                last_aux: None,
            }),
            PipelineKind::Textured => {
                let t: TextureData = match texture {
                    Some(t) => t,
                    None => return unreached(),
                };
                let tex_kind = ResourceKind::Image { width: t.width, height: t.height };
                let tex_bytes: u128 = tex_kind.byte_size();
                let len_ok: bool = t.bytes.len() as u128 == tex_bytes;
                let format_ok: bool = t.format == TextureFormat::Rgba8;
                if !format_ok || !len_ok || t.mip_levels < 1 {
                    return Err(RenderError::TextureBuild);
                }
                let vb_size: u64 = vertex_data.len() as u64 * 16;
                let total: u128 = tex_bytes + UNIFORM_SIZE as u128 + vb_size as u128;
                let avail: u64 = device.available();
                if total > avail as u128 {
                    return Err(RenderError::Allocation {
                        requested: total as u64,
                        available: avail,
                    });
                }
                let created_tex = Resource::create(
                    tex_kind,
                    UsageFlags {
                        vertex: false,
                        uniform: false,
                        sampled: true,
                        color_attachment: false,
                    },
                    MemoryPolicy::DeviceLocal,
                    None,
                    device,
                );
                let mut tex_res: Resource = match created_tex {
                    Ok(b) => b,
                    Err(_) => return unreached(),
                };
                tex_res.set_state(Some(ResourceState {
                    stage: AccessStage::ShaderRead,
                    layout: ImageLayout::ShaderReadOnlyOptimal,
                }));
                let created_uniform = Resource::create(
                    ResourceKind::Buffer { size: UNIFORM_SIZE },
                    UsageFlags {
                        vertex: false,
                        uniform: true,
                        sampled: false,
                        color_attachment: false,
                    },
                    MemoryPolicy::Dynamic,
                    None,
                    device,
                );
                let ubuf: Resource = match created_uniform {
                    Ok(b) => b,
                    Err(_) => return unreached(),
                };
                let created_vb = Resource::create(
                    ResourceKind::Buffer { size: vb_size },
                    UsageFlags {
                        vertex: true,
                        uniform: false,
                        sampled: false,
                        color_attachment: false,
                    },
                    MemoryPolicy::Dynamic,
                    None,
                    device,
                );
                let mut vbuf: Resource = match created_vb {
                    Ok(b) => b,
                    Err(_) => return unreached(),
                };
                let encoded: Vec<u8> = encode_vertices(PipelineKind::Textured, &vertex_data);
                proof {
                    lemma_encode_len(PipelineKind::Textured, vertex_data@, 0);
                }
                match vbuf.upload(0, &encoded) {
                    Ok(()) => (),
                    Err(_) => return unreached(),
                }
                proof {
                    assert(vbuf.data@ =~= spec_encode_from(
                        PipelineKind::Textured,
                        vertex_data@,
                        0,
                    ));
                }
                let allocator = DescriptorAllocator::new(lay.duplicate());
                let allocated = allocator.allocate(&lay);
                let mut set: DescriptorSet = match allocated {
                    Ok(s) => s,
                    Err(_) => return unreached(),
                };
                write_must(&mut set, 0, ResourceView::Buffer { offset: 0, len: UNIFORM_SIZE });
                write_must(&mut set, 1, ResourceView::Image { width: t.width, height: t.height });
                write_must(&mut set, 2, ResourceView::Sampler);
                Ok(PipelineInstance {
                    kind: PipelineKind::Textured,
                    vertex_data,
                    vertex: Some(vbuf),
                    uniform: Some(ubuf),
                    texture: Some(tex_res),
                    descriptor_set: Some(set),
                    last_aux: None,
                })
            },
        }
    }
}

} // verus!
