use vstd::prelude::*;
use crate::resource::ResourceState;

verus! {

/// One recorded command. Recording appends commands; nothing here submits
/// them — the caller hands the finished stream to the device.
#[derive(Clone, Copy, Debug, PartialEq, Eq, Structural)]
pub enum Command {
    /// Move a graph resource from one access state to another between nodes.
    Transition { res: usize, from: ResourceState, to: ResourceState },
    /// Bind a descriptor set with the given number of bindings.
    BindDescriptorSet { bindings: usize },
    /// Bind a vertex buffer of `size` bytes at `offset`.
    BindVertexBuffer { offset: u64, size: u64 },
    /// Draw the vertex range `[first_vertex, vertex_end)` over the instance
    /// range `[first_instance, instance_end)`.
    Draw { first_vertex: u32, vertex_end: u32, first_instance: u32, instance_end: u32 },
    /// Hand the finished color resource to the presentation surface.
    Present { res: usize },
}

/// A per-frame command recording context.
#[derive(Debug)]
pub struct Encoder {
    pub commands: Vec<Command>,
}

impl Encoder {
    pub fn new() -> (e: Encoder)
        ensures
            e.commands@.len() == 0,
    {
        Encoder { commands: Vec::new() }
    }

    /// Appends one command to the stream.
    pub fn record(&mut self, cmd: Command)
        ensures
            final(self).commands@ == old(self).commands@.push(cmd),
    {
        self.commands.push(cmd);
    }

    pub fn len(&self) -> (n: usize)
        ensures
            n == self.commands@.len(),
    {
        self.commands.len()
    }

    pub fn command_at(&self, i: usize) -> (c: Command)
        requires
            i < self.commands@.len(),
        ensures
            c == self.commands@[i as int],
    {
        self.commands[i]
    }
}

} // verus!
