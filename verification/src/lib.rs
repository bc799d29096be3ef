//! A deferred, dependency-aware compilation cache for GPU pipeline objects
//! and their shader modules.
//!
//! Callers enqueue declarative pipeline descriptors; each queue-drain pass
//! compiles the pending ones against a device capability, memoizes compiled
//! shader modules and pipeline layouts by content-derived keys, and requeues
//! exactly the pipelines affected when a shader source changes.

pub mod device;
pub mod diagnostics;
pub mod error;
pub mod idset;
pub mod keymap;
pub mod laws;
pub mod layout_cache;
pub mod pipeline;
pub mod pipeline_cache;
pub mod shader;
pub mod shader_cache;

use vstd::prelude::*;

verus! {

/// Identifier of a cached pipeline record; assigned densely from zero.
pub type CachedPipelineId = usize;

/// Sentinel id held by consumers whose pipeline has not been queued yet.
pub const INVALID_PIPELINE_ID: usize = usize::MAX;

/// Identifier of a queued render pipeline.
#[derive(Copy, Clone, Debug, Hash, PartialEq, Eq, Structural)]
pub struct CachedRenderPipelineId(pub CachedPipelineId);

impl CachedRenderPipelineId {
    /// The reserved "invalid/unset" id; never returned by a queue operation.
    pub fn invalid() -> (r: Self)
        ensures
            r.0 == INVALID_PIPELINE_ID,
    {
        CachedRenderPipelineId(INVALID_PIPELINE_ID)
    }
}

/// Identifier of a queued compute pipeline.
#[derive(Copy, Clone, Debug, Hash, PartialEq, Eq, Structural)]
pub struct CachedComputePipelineId(pub CachedPipelineId);

impl CachedComputePipelineId {
    /// The reserved "invalid/unset" id; never returned by a queue operation.
    pub fn invalid() -> (r: Self)
        ensures
            r.0 == INVALID_PIPELINE_ID,
    {
        CachedComputePipelineId(INVALID_PIPELINE_ID)
    }
}

} // verus!
