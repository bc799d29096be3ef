//! The capability the cache compiles against: the GPU device together with
//! the shader preprocessor/reflector.
//!
//! Both are external collaborators. The cache promises nothing about what
//! they return — every contract in this crate holds for any implementation —
//! so the methods carry no contracts. Compiled objects are identified by
//! tokens of the implementation's choosing.

use vstd::prelude::*;
use crate::error::ModuleCompileError;
use crate::keymap::KeyMap;
use crate::pipeline::{ComputePipelineDescriptor, RenderPipelineDescriptor};
use crate::shader::{Shader, ShaderHandle, ShaderImport};

verus! {

/// The GPU device abstraction plus the shader preprocessor, as one opaque
/// capability driven by the cache.
pub trait RenderDevice {
    /// Whether the device supports at least `count` read-only
    /// storage-buffer bindings; when it does not, the cache compiles with a
    /// capability-gated marker definition appended.
    fn supports_read_only_storage_buffers(&self, count: u32) -> bool;

    /// Preprocesses `shader` under `shader_defs` against the registered
    /// sources and import table, converts it to a module descriptor, and
    /// submits it to the device; returns the new module's token, or how the
    /// attempt failed.
    fn compile_shader_module(
        &mut self,
        shader: &Shader,
        shader_defs: &Vec<String>,
        shaders: &KeyMap<ShaderHandle, Shader>,
        import_path_shaders: &KeyMap<ShaderImport, ShaderHandle>,
    ) -> Result<u64, ModuleCompileError>;

    /// Materializes a pipeline-layout object for this exact sequence of
    /// bind-group layouts; assumed infallible.
    fn create_pipeline_layout(&mut self, bind_group_layout_ids: &Vec<u64>) -> u64;

    /// Builds the concrete render pipeline object; assumed infallible given
    /// valid modules and layout.
    fn create_render_pipeline(
        &mut self,
        descriptor: &RenderPipelineDescriptor,
        vertex_module: u64,
        fragment_module: Option<u64>,
        layout: Option<u64>,
    ) -> u64;

    /// Builds the concrete compute pipeline object; assumed infallible given
    /// a valid module and layout.
    fn create_compute_pipeline(
        &mut self,
        descriptor: &ComputePipelineDescriptor,
        module: u64,
        layout: Option<u64>,
    ) -> u64;
}

} // verus!
