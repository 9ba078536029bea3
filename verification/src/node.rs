use vstd::prelude::*;
use crate::resource::{AccessStage, ImageLayout, ResourceState};

verus! {

/// One declared access of a node: which resource it touches, whether it
/// writes it, and the stage and layout the access requires.
#[derive(Clone, Copy, Debug, PartialEq, Eq, Structural)]
pub struct Access {
    pub res: usize,
    pub write: bool,
    pub stage: AccessStage,
    pub layout: ImageLayout,
}

impl Access {
    /// The state the resource must be in for this access.
    pub open spec fn declared_state(self) -> ResourceState {
        ResourceState { stage: self.stage, layout: self.layout }
    }

    /// The color-attachment write a render pass declares.
    pub fn color_write(res: usize) -> (a: Access)
        ensures
            a == (Access {
                res,
                write: true,
                stage: AccessStage::ColorAttachmentWrite,
                layout: ImageLayout::ColorAttachmentOptimal,
            }),
    {
        Access {
            res,
            write: true,
            stage: AccessStage::ColorAttachmentWrite,
            layout: ImageLayout::ColorAttachmentOptimal,
        }
    }

    /// The read the presentation engine declares on the frame's final color
    /// resource.
    pub fn present_read(res: usize) -> (a: Access)
        ensures
            a == (Access {
                res,
                write: false,
                stage: AccessStage::Present,
                layout: ImageLayout::PresentSrc,
            }),
    {
        Access { res, write: false, stage: AccessStage::Present, layout: ImageLayout::PresentSrc }
    }
}

/// A node's access list stays inside the resource arena and touches each
/// resource at most once.
pub open spec fn accesses_wf(accs: Seq<Access>, n_res: nat) -> bool {
    &&& (forall|i: int| 0 <= i < accs.len() ==> (#[trigger] accs[i]).res < n_res)
    &&& (forall|i: int, j: int|
        0 <= i < j < accs.len() ==> (#[trigger] accs[i]).res != (#[trigger] accs[j]).res)
}

} // verus!
