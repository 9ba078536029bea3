use vstd::prelude::*;
use crate::error::RenderError;

verus! {

/// The kind of resource view a binding expects.
#[derive(Clone, Copy, Debug, PartialEq, Eq, Structural)]
pub enum DescriptorType {
    UniformBuffer,
    SampledImage,
    Sampler,
}

/// The declared shape of a descriptor set: the descriptor type expected at
/// each binding index.
#[derive(Debug)]
pub struct SetLayout {
    pub bindings: Vec<DescriptorType>,
}

impl View for SetLayout {
    type V = Seq<DescriptorType>;

    open spec fn view(&self) -> Seq<DescriptorType> {
        self.bindings@
    }
}

impl SetLayout {
    pub fn new(bindings: Vec<DescriptorType>) -> (l: SetLayout)
        ensures
            l@ == bindings@,
    {
        SetLayout { bindings }
    }

    pub fn binding_count(&self) -> (n: usize)
        ensures
            n == self@.len(),
    {
        self.bindings.len()
    }

    /// A fresh layout declaring the same bindings.
    pub fn duplicate(&self) -> (l: SetLayout)
        ensures
            l@ == self@,
    {
        let mut bindings: Vec<DescriptorType> = Vec::new();
        let mut i: usize = 0;
        while i < self.bindings.len()
            invariant
                i <= self@.len(),
                bindings@ == self@.subrange(0, i as int),
            decreases self@.len() - i,
        {
            bindings.push(self.bindings[i]);
            proof {
                assert(bindings@ =~= self@.subrange(0, i + 1));
            }
            i = i + 1;
        }
        proof {
            assert(bindings@ =~= self@);
        }
        SetLayout { bindings }
    }

    /// Whether two layouts declare the same binding count and types.
    pub fn same_as(&self, other: &SetLayout) -> (b: bool)
        ensures
            b == (self@ =~= other@),
    {
        if self.bindings.len() != other.bindings.len() {
            return false;
        }
        let mut i: usize = 0;
        while i < self.bindings.len()
            invariant
                i <= self@.len(),
                self@.len() == other@.len(),
                forall|j: int| 0 <= j < i ==> self@[j] == other@[j],
            decreases self@.len() - i,
        {
            let a: DescriptorType = self.bindings[i];
            let b: DescriptorType = other.bindings[i];
            if !(a == b) {
                return false;
            }
            i = i + 1;
        }
        true
    }
}

/// A concrete view wired into one binding: a buffer range, an image view, or
/// a sampler.
#[derive(Clone, Copy, Debug, PartialEq, Eq, Structural)]
pub enum ResourceView {
    Buffer { offset: u64, len: u64 },
    Image { width: u32, height: u32 },
    Sampler,
}

impl ResourceView {
    /// The descriptor type this view satisfies.
    pub open spec fn spec_descriptor_type(self) -> DescriptorType {
        match self {
            ResourceView::Buffer { .. } => DescriptorType::UniformBuffer,
            ResourceView::Image { .. } => DescriptorType::SampledImage,
            ResourceView::Sampler => DescriptorType::Sampler,
        }
    }

    pub fn descriptor_type(&self) -> (t: DescriptorType)
        ensures
            t == self.spec_descriptor_type(),
    {
        match self {
            ResourceView::Buffer { .. } => DescriptorType::UniformBuffer,
            ResourceView::Image { .. } => DescriptorType::SampledImage,
            ResourceView::Sampler => DescriptorType::Sampler,
        }
    }
}

/// A descriptor set: its layout and, per binding, the view written into it,
/// if any yet.
#[derive(Debug)]
pub struct DescriptorSet {
    pub layout: SetLayout,
    pub written: Vec<Option<ResourceView>>,
}

impl DescriptorSet {
    /// One slot per declared binding.
    pub open spec fn wf(self) -> bool {
        self.written@.len() == self.layout@.len()
    }

    /// Every declared binding has been written.
    pub open spec fn complete(self) -> bool {
        forall|j: int| 0 <= j < self.written@.len() ==> (#[trigger] self.written@[j]) is Some
    }

    /// Every written view matches its binding's declared type.
    pub open spec fn types_match(self) -> bool {
        forall|j: int|
            0 <= j < self.written@.len() ==> ((#[trigger] self.written@[j]) matches Some(v)
                ==> v.spec_descriptor_type() == self.layout@[j])
    }

    /// Writes `view` into `binding`. Every write for a set must be issued
    /// before the set is first bound; re-writing a binding while a frame
    /// referencing the old value is still executing is the caller's to
    /// prevent.
    ///
    /// Fails with the binding-range error when `binding` is not below the
    /// declared binding count, and with the type-mismatch error when the
    /// view's kind differs from the binding's declared descriptor type; on
    /// failure the set is untouched.
    pub fn write(&mut self, binding: usize, view: ResourceView) -> (r: Result<(), RenderError>)
        requires
            old(self).wf(),
        ensures
            final(self).wf(),
            final(self).layout@ == old(self).layout@,
            if binding >= old(self).layout@.len() {
                &&& r == Result::<(), RenderError>::Err(RenderError::BindingOutOfRange {
                    binding,
                    count: old(self).layout@.len() as usize,
                })
                &&& *final(self) == *old(self)
            } else if view.spec_descriptor_type() != old(self).layout@[binding as int] {
                &&& r == Result::<(), RenderError>::Err(RenderError::TypeMismatch { binding })
                &&& *final(self) == *old(self)
            } else {
                &&& r is Ok
                &&& final(self).written@ == old(self).written@.update(
                    binding as int,
                    Some(view),
                )
            },
    {
        let count: usize = self.layout.binding_count();
        if binding >= count {
            return Err(RenderError::BindingOutOfRange { binding, count });
        }
        let expected: DescriptorType = self.layout.bindings[binding];
        let got: DescriptorType = view.descriptor_type();
        if !(got == expected) {
            return Err(RenderError::TypeMismatch { binding });
        }
        self.written.set(binding, Some(view));
        Ok(())
    }

    /// Checks that the set may be bound to a command stream: every declared
    /// binding must have been written. Fails with the binding-incomplete
    /// error naming the lowest unwritten binding.
    pub fn bind_check(&self) -> (r: Result<(), RenderError>)
        requires
            self.wf(),
        ensures
            match r {
                Ok(()) => self.complete(),
                Err(e) => {
                    &&& !self.complete()
                    &&& e matches RenderError::BindingIncomplete { binding }
                    &&& 0 <= binding < self.written@.len()
                    &&& self.written@[binding as int] is None
                    &&& (forall|j: int| 0 <= j < binding ==> (#[trigger] self.written@[j]) is Some)
                },
            },
    {
        let mut j: usize = 0;
        while j < self.written.len()
            invariant
                j <= self.written@.len(),
                forall|i: int| 0 <= i < j ==> (#[trigger] self.written@[i]) is Some,
            decreases self.written@.len() - j,
        {
            if self.written[j].is_none() {
                return Err(RenderError::BindingIncomplete { binding: j });
            }
            j = j + 1;
        }
        Ok(())
    }
}

/// Allocates descriptor sets for one fixed layout, the way a descriptor pool
/// is carved for the layout a pipeline was built with.
#[derive(Debug)]
pub struct DescriptorAllocator {
    pub layout: SetLayout,
}

impl DescriptorAllocator {
    pub fn new(layout: SetLayout) -> (a: DescriptorAllocator)
        ensures
            a.layout@ == layout@,
    {
        DescriptorAllocator { layout }
    }

    /// Hands out a fresh, fully unwritten set for `requested`.
    ///
    /// Fails with the layout-mismatch error exactly when the requested
    /// layout's binding count or types differ from the configured one.
    pub fn allocate(&self, requested: &SetLayout) -> (r: Result<DescriptorSet, RenderError>)
        ensures
            match r {
                Ok(set) => {
                    &&& requested@ =~= self.layout@
                    &&& set.wf()
                    &&& set.layout@ == requested@
                    &&& (forall|j: int| 0 <= j < set.written@.len()
                        ==> (#[trigger] set.written@[j]) is None)
                },
                Err(e) => {
                    &&& !(requested@ =~= self.layout@)
                    &&& e == RenderError::LayoutMismatch
                },
            },
    {
        if !self.layout.same_as(requested) {
            return Err(RenderError::LayoutMismatch);
        }
        let count: usize = requested.binding_count();
        let mut written: Vec<Option<ResourceView>> = Vec::new();
        let mut j: usize = 0;
        while j < count
            invariant
                j <= count,
                written@.len() == j,
                forall|i: int| 0 <= i < j ==> (#[trigger] written@[i]) is None,
            decreases count - j,
        {
            written.push(None);
            j = j + 1;
        }
        Ok(DescriptorSet { layout: requested.duplicate(), written })
    }
}

} // verus!
