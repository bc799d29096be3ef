//! Pipeline descriptors and compiled pipeline objects, as plain records.
//!
//! A descriptor declares which shader a stage uses (by handle), under which
//! preprocessor definitions, and which bind-group layouts the pipeline
//! expects. Compiled GPU objects are carried as opaque tokens minted by the
//! device capability.

use vstd::prelude::*;
use crate::error::PipelineCacheError;
use crate::shader::ShaderHandle;

verus! {

/// Identity of a bind-group layout, as assigned by the device abstraction.
pub type BindGroupLayoutId = u64;

/// A compiled render pipeline object, held as a device token.
#[derive(Copy, Clone, PartialEq, Eq, Structural, Debug)]
pub struct RenderPipeline {
    pub id: u64,
}

/// A compiled compute pipeline object, held as a device token.
#[derive(Copy, Clone, PartialEq, Eq, Structural, Debug)]
pub struct ComputePipeline {
    pub id: u64,
}

/// A compiled pipeline object of either kind.
#[derive(Copy, Clone, PartialEq, Eq, Structural, Debug)]
pub enum Pipeline {
    RenderPipeline(RenderPipeline),
    ComputePipeline(ComputePipeline),
}

/// The programmable vertex stage of a render pipeline descriptor.
pub struct VertexState {
    pub shader: ShaderHandle,
    pub shader_defs: Vec<String>,
    pub entry_point: String,
}

/// The programmable fragment stage of a render pipeline descriptor.
pub struct FragmentState {
    pub shader: ShaderHandle,
    pub shader_defs: Vec<String>,
    pub entry_point: String,
}

/// What a queued render pipeline should be compiled from.
pub struct RenderPipelineDescriptor {
    pub label: Option<String>,
    pub layout: Option<Vec<BindGroupLayoutId>>,
    pub vertex: VertexState,
    pub fragment: Option<FragmentState>,
}

/// What a queued compute pipeline should be compiled from.
pub struct ComputePipelineDescriptor {
    pub label: Option<String>,
    pub layout: Option<Vec<BindGroupLayoutId>>,
    pub shader: ShaderHandle,
    pub shader_defs: Vec<String>,
    pub entry_point: String,
}

/// The immutable descriptor a pipeline record was enqueued with.
pub enum PipelineDescriptor {
    RenderPipelineDescriptor(RenderPipelineDescriptor),
    ComputePipelineDescriptor(ComputePipelineDescriptor),
}

/// The compilation state of one cached pipeline.
pub enum CachedPipelineState {
    /// Waiting for a queue-drain pass to attempt compilation.
    Queued,
    /// Compiled; the pipeline object is ready for use.
    Ready(Pipeline),
    /// The last attempt failed; retryable failures requeue themselves.
    Failed(PipelineCacheError),
}

impl CachedPipelineState {
    /// The compiled object of a pipeline known to be ready. Asking for it in
    /// any other state is a caller error, which this contract rules out.
    pub fn unwrap(&self) -> (r: &Pipeline)
        requires
            self is Ready,
        ensures
            *self == CachedPipelineState::Ready(*r),
    {
        match self {
            CachedPipelineState::Ready(pipeline) => pipeline,
            _ => vstd::pervasive::unreached(),
        }
    }
}

/// One cached pipeline: its descriptor, fixed at enqueue time, and its
/// mutable compilation state.
pub struct CachedPipeline {
    pub descriptor: PipelineDescriptor,
    pub state: CachedPipelineState,
}

} // verus!
