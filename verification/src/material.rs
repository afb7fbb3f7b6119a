//! The material extension that draws a mesh in front of everything else.
use vstd::prelude::*;

verus! {

/// How a depth test compares a fragment's depth with the stored depth.
#[derive(Debug, Clone, Copy, PartialEq, Eq, Structural)]
pub enum CompareFunction {
    Never,
    Less,
    Equal,
    LessEqual,
    Greater,
    NotEqual,
    GreaterEqual,
    Always,
}

/// The depth test settings of a render pipeline.
#[derive(Debug, Clone, Copy, PartialEq, Eq, Structural)]
pub struct DepthSettings {
    pub depth_compare: CompareFunction,
    pub depth_write_enabled: bool,
}

/// A material extension under which a mesh is always drawn on top.
#[derive(Debug, Clone, Copy)]
pub struct AlwaysOnTopExt {
    _name: (),
}

impl AlwaysOnTopExt {
    /// Sets the depth test of a pipeline that has one so that every fragment
    /// passes it and nothing is written to the depth buffer.
    pub fn specialize(depth_stencil: &mut Option<DepthSettings>)
        ensures
            match *old(depth_stencil) {
                Some(_) => *final(depth_stencil) == Some(
                    DepthSettings { depth_compare: CompareFunction::Always, depth_write_enabled: false },
                ),
                None => *final(depth_stencil) is None,
            },
    {
        if let Some(ds) = depth_stencil {
            ds.depth_compare = CompareFunction::Always;
            ds.depth_write_enabled = false;
        }
    }
}

} // verus!
