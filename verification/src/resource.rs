use vstd::prelude::*;
use vstd::pervasive::VecAdditionalExecFns;
use crate::error::RenderError;

verus! {

/// The pipeline stage in which a node accesses a resource.
#[derive(Clone, Copy, Debug, PartialEq, Eq, Structural)]
pub enum AccessStage {
    /// Read as a vertex buffer during vertex input.
    VertexInput,
    /// Read as a uniform buffer by a shader stage.
    UniformRead,
    /// Sampled by a fragment shader.
    ShaderRead,
    /// Written as a color attachment by a render pass.
    ColorAttachmentWrite,
    /// Read by the presentation engine.
    Present,
}

/// The memory layout an image must be in for a given access.
#[derive(Clone, Copy, Debug, PartialEq, Eq, Structural)]
pub enum ImageLayout {
    /// Usable for any access; the layout buffers are treated as having.
    General,
    /// Optimal for color-attachment writes.
    ColorAttachmentOptimal,
    /// Optimal for shader sampling.
    ShaderReadOnlyOptimal,
    /// Required by the presentation engine.
    PresentSrc,
}

/// The access stage and layout a resource is currently in.
#[derive(Clone, Copy, Debug, PartialEq, Eq, Structural)]
pub struct ResourceState {
    pub stage: AccessStage,
    pub layout: ImageLayout,
}

/// What a single GPU allocation is: a buffer of so many bytes, or a
/// two-dimensional image (4 bytes per pixel).
#[derive(Clone, Copy, Debug, PartialEq, Eq, Structural)]
pub enum ResourceKind {
    Buffer { size: u64 },
    Image { width: u32, height: u32 },
}

/// The access patterns an allocation may legally serve.
#[derive(Clone, Copy, Debug, PartialEq, Eq, Structural)]
pub struct UsageFlags {
    pub vertex: bool,
    pub uniform: bool,
    pub sampled: bool,
    pub color_attachment: bool,
}

/// Whether the allocation is host-visible scratch memory, rewritten each
/// frame, or device-local memory filled once.
#[derive(Clone, Copy, Debug, PartialEq, Eq, Structural)]
pub enum MemoryPolicy {
    /// Host-visible; `upload` may rewrite it between frames.
    Dynamic,
    /// Device-local; never written through `upload` after creation.
    DeviceLocal,
}

/// The value an attachment is cleared to at the start of each frame.
#[derive(Clone, Copy, Debug, PartialEq, Eq, Structural)]
pub struct ClearColor {
    pub r: u8,
    pub g: u8,
    pub b: u8,
    pub a: u8,
}

impl ResourceKind {
    /// How many bytes of device memory the allocation occupies.
    pub open spec fn spec_byte_size(self) -> int {
        match self {
            ResourceKind::Buffer { size } => size as int,
            ResourceKind::Image { width, height } => width as int * height as int * 4,
        }
    }

    /// Whether the allocation's size can be represented in the device's
    /// 64-bit accounting.
    pub open spec fn size_representable(self) -> bool {
        self.spec_byte_size() <= u64::MAX as int
    }

    /// Executable byte-size computation; images may exceed `u64`, so the
    /// result is computed in 128 bits.
    pub fn byte_size(&self) -> (n: u128)
        ensures
            n == self.spec_byte_size(),
    {
        match self {
            ResourceKind::Buffer { size } => *size as u128,
            ResourceKind::Image { width, height } => {
                let w: u128 = *width as u128;
                let h: u128 = *height as u128;
                proof {
                    assert(w * h <= 0xffff_fffe_0000_0001u128) by (nonlinear_arith)
                        requires
                            w <= 0xffff_ffffu128,
                            h <= 0xffff_ffffu128,
                    ;
                }
                w * h * 4
            },
        }
    }
}

impl UsageFlags {
    /// Whether an access in the given stage is covered by these flags.
    pub open spec fn spec_allows(self, stage: AccessStage) -> bool {
        match stage {
            AccessStage::VertexInput => self.vertex,
            AccessStage::UniformRead => self.uniform,
            AccessStage::ShaderRead => self.sampled,
            AccessStage::ColorAttachmentWrite => self.color_attachment,
            AccessStage::Present => self.color_attachment,
        }
    }

    pub fn allows(&self, stage: AccessStage) -> (b: bool)
        ensures
            b == self.spec_allows(stage),
    {
        match stage {
            AccessStage::VertexInput => self.vertex,
            AccessStage::UniformRead => self.uniform,
            AccessStage::ShaderRead => self.sampled,
            AccessStage::ColorAttachmentWrite => self.color_attachment,
            AccessStage::Present => self.color_attachment,
        }
    }
}

/// The device's memory accounting: every live allocation draws from one
/// budget, and disposing an allocation returns its bytes.
#[derive(Clone, Copy, Debug, PartialEq, Eq, Structural)]
pub struct Device {
    pub capacity: u64,
    pub used: u64,
}

impl Device {
    pub open spec fn wf(self) -> bool {
        self.used <= self.capacity
    }

    pub open spec fn spec_available(self) -> int {
        self.capacity - self.used
    }

    pub fn new(capacity: u64) -> (d: Device)
        ensures
            d == (Device { capacity, used: 0 }),
            d.wf(),
    {
        Device { capacity, used: 0 }
    }

    pub fn available(&self) -> (a: u64)
        requires
            self.wf(),
        ensures
            a == self.spec_available(),
    {
        self.capacity - self.used
    }
}

/// One GPU-visible allocation together with its current access state and,
/// for host-visible buffers, its byte contents.
#[derive(Debug)]
pub struct Resource {
    pub kind: ResourceKind,
    pub usage: UsageFlags,
    pub policy: MemoryPolicy,
    /// `None` until the first node (or upload) touches the resource; only the
    /// graph's transition step moves it afterwards.
    pub state: Option<ResourceState>,
    /// Byte contents, tracked for host-visible buffers only.
    pub data: Vec<u8>,
    /// Clear value for attachments recreated fresh each frame.
    pub clear: Option<ClearColor>,
}

impl Resource {
    /// Host-visible buffers carry their full contents; everything else
    /// carries none.
    pub open spec fn wf(self) -> bool {
        &&& self.kind.size_representable()
        &&& match self.kind {
            ResourceKind::Buffer { size } => {
                if self.policy is Dynamic {
                    self.data@.len() == size
                } else {
                    self.data@.len() == 0
                }
            },
            ResourceKind::Image { .. } => self.data@.len() == 0,
        }
    }

    /// Whether `upload` may be used on this resource at all.
    pub open spec fn host_visible(self) -> bool {
        self.policy is Dynamic && self.kind is Buffer
    }

    /// Creates one allocation on `device`.
    ///
    /// Succeeds exactly when the device's remaining budget covers the
    /// allocation's byte size; on failure the device is untouched. A fresh
    /// host-visible buffer reads as all zeroes.
    pub fn create(
        kind: ResourceKind,
        usage: UsageFlags,
        policy: MemoryPolicy,
        clear: Option<ClearColor>,
        device: &mut Device,
    ) -> (r: Result<Resource, RenderError>)
        requires
            old(device).wf(),
            kind.size_representable(),
            kind matches ResourceKind::Buffer { size } ==> (policy is Dynamic
                ==> size <= usize::MAX),
        ensures
            final(device).wf(),
            final(device).capacity == old(device).capacity,
            if kind.spec_byte_size() <= old(device).spec_available() {
                &&& r matches Ok(res)
                &&& res.kind == kind
                &&& res.usage == usage
                &&& res.policy == policy
                &&& res.clear == clear
                &&& res.state is None
                &&& res.wf()
                &&& (forall|i: int| 0 <= i < res.data@.len() ==> res.data@[i] == 0u8)
                &&& final(device).used == old(device).used + kind.spec_byte_size()
            } else {
                &&& r == Result::<Resource, RenderError>::Err(RenderError::Allocation {
                    requested: kind.spec_byte_size() as u64,
                    available: old(device).spec_available() as u64,
                })
                &&& *final(device) == *old(device)
            },
    {
        let bytes: u128 = kind.byte_size();
        let avail: u64 = device.capacity - device.used;
        if bytes > avail as u128 {
            Err(RenderError::Allocation { requested: bytes as u64, available: avail })
        } else {
            device.used = device.used + bytes as u64;
            let data: Vec<u8> = match kind {
                ResourceKind::Buffer { size } => {
                    if let MemoryPolicy::Dynamic = policy {
                        zero_bytes(size as usize)
                    } else {
                        Vec::new()
                    }
                },
                ResourceKind::Image { .. } => Vec::new(),
            };
            Ok(Resource { kind, usage, policy, state: None, data, clear })
        }
    }

    pub fn current_state(&self) -> (s: Option<ResourceState>)
        ensures
            s == self.state,
    {
        self.state
    }

    /// Moves the resource into a new access state; reserved for the graph's
    /// transition step and for texture creation.
    pub(crate) fn set_state(&mut self, s: Option<ResourceState>)
        ensures
            *final(self) == (Resource { state: s, ..*old(self) }),
    {
        self.state = s;
    }

    /// Writes `bytes` at `offset` into a host-visible buffer.
    ///
    /// Succeeds exactly when the write stays inside the allocation; on
    /// failure nothing changes.
    pub fn upload(&mut self, offset: u64, bytes: &Vec<u8>) -> (r: Result<(), RenderError>)
        requires
            old(self).wf(),
            old(self).host_visible(),
        ensures
            final(self).wf(),
            if offset + bytes@.len() <= old(self).data@.len() {
                &&& r is Ok
                &&& final(self).data@.len() == old(self).data@.len()
                &&& (forall|i: int|
                    offset <= i < offset + bytes@.len()
                        ==> final(self).data@[i] == bytes@[i - offset])
                &&& (forall|i: int|
                    0 <= i < final(self).data@.len() && !(offset <= i < offset + bytes@.len())
                        ==> final(self).data@[i] == old(self).data@[i])
                &&& *final(self) == (Resource { data: final(self).data, ..*old(self) })
            } else {
                &&& r == Result::<(), RenderError>::Err(RenderError::Upload {
                    offset,
                    len: bytes@.len() as u64,
                    size: old(self).data@.len() as u64,
                })
                &&& *final(self) == *old(self)
            },
    {
        let size: usize = self.data.len();
        if offset > size as u64 || bytes.len() as u64 > size as u64 - offset {
            return Err(RenderError::Upload {
                offset,
                len: bytes.len() as u64,
                size: size as u64,
            });
        }
        let start: usize = offset as usize;
        let mut i: usize = 0;
        while i < bytes.len()
            invariant
                start + bytes@.len() <= self.data@.len(),
                start + bytes@.len() <= usize::MAX,
                i <= bytes@.len(),
                start == offset,
                offset + bytes@.len() <= old(self).data@.len(),
                self.data@.len() == old(self).data@.len(),
                forall|j: int| start <= j < start + i ==> self.data@[j] == bytes@[j - start],
                forall|j: int|
                    0 <= j < self.data@.len() && !(start <= j < start + i)
                        ==> self.data@[j] == old(self).data@[j],
                *self == (Resource { data: self.data, ..*old(self) }),
            decreases bytes@.len() - i,
        {
            let b: u8 = bytes[i];
            self.data.set(start + i, b);
            i = i + 1;
        }
        Ok(())
    }

    /// Releases the allocation, returning its bytes to the device's budget.
    pub fn dispose(self, device: &mut Device)
        requires
            old(device).wf(),
            self.kind.size_representable(),
            old(device).used >= self.kind.spec_byte_size(),
        ensures
            final(device).wf(),
            final(device).capacity == old(device).capacity,
            final(device).used == old(device).used - self.kind.spec_byte_size(),
    {
        let bytes: u128 = self.kind.byte_size();
        device.used = device.used - bytes as u64;
    }
}

/// A zero-filled byte vector of the given length.
fn zero_bytes(n: usize) -> (v: Vec<u8>)
    ensures
        v@.len() == n,
        forall|i: int| 0 <= i < n ==> v@[i] == 0u8,
{
    let mut v: Vec<u8> = Vec::new();
    let mut i: usize = 0;
    while i < n
        invariant
            i <= n,
            v@.len() == i,
            forall|j: int| 0 <= j < i ==> v@[j] == 0u8,
        decreases n - i,
    {
        v.push(0u8);
        i = i + 1;
    }
    v
}

} // verus!
