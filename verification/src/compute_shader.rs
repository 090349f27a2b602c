//! The launch of a compute kernel.

use vstd::prelude::*;
use crate::dispatch::{div_ceil_u32, groups_needed};

verus! {

/// A compute kernel, as far as its launch goes: the size of its workgroups.
pub struct ComputeShader {
    workgroup_size: (u32, u32, u32),
}

impl ComputeShader {
    /// Threads of one workgroup along each axis.
    pub closed spec fn size(&self) -> (u32, u32, u32) {
        self.workgroup_size
    }

    /// A workgroup has a thread along each axis.
    pub open spec fn well_formed(&self) -> bool {
        self.size().0 > 0 && self.size().1 > 0 && self.size().2 > 0
    }

    /// A kernel with workgroups of `workgroup_size` threads.
    pub fn new(workgroup_size: (u32, u32, u32)) -> (shader: Self)
        requires
            workgroup_size.0 > 0,
            workgroup_size.1 > 0,
            workgroup_size.2 > 0,
        ensures
            shader.well_formed(),
            shader.size() == workgroup_size,
    {
        ComputeShader { workgroup_size }
    }

    /// The workgroups of a launch that has a thread for each of
    /// `item_count` items: along each axis the least number of workgroups
    /// that covers the items.
    pub fn dispatch_by_items(&self, item_count: (u32, u32, u32)) -> (dispatch_size: (u32, u32, u32))
        requires
            self.well_formed(),
        ensures
            dispatch_size.0 == groups_needed(item_count.0 as int, self.size().0 as int),
            dispatch_size.1 == groups_needed(item_count.1 as int, self.size().1 as int),
            dispatch_size.2 == groups_needed(item_count.2 as int, self.size().2 as int),
    {
        let dispatch_x: u32 = div_ceil_u32(item_count.0, self.workgroup_size.0);
        let dispatch_y: u32 = div_ceil_u32(item_count.1, self.workgroup_size.1);
        let dispatch_z: u32 = div_ceil_u32(item_count.2, self.workgroup_size.2);
        (dispatch_x, dispatch_y, dispatch_z)
    }

    /// Threads of one workgroup along each axis.
    pub fn workgroup_size(&self) -> (size: (u32, u32, u32))
        ensures
            size == self.size(),
    {
        self.workgroup_size
    }
}

} // verus!
