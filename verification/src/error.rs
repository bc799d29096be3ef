//! The failure taxonomy of the cache: transient conditions that are retried
//! every pass, and terminal failures that are reported with diagnostics.

use vstd::prelude::*;
use crate::shader::ShaderHandle;

verus! {

/// The preprocessed source a failed module conversion was derived from; kept
/// for span-aware diagnostics.
pub enum ProcessedShader {
    Wgsl(String),
    Glsl(String),
    SpirV(Vec<u8>),
}

/// A highlighted byte range of the offending source, with a note.
pub struct SpanLabel {
    pub start: usize,
    pub end: usize,
    pub message: String,
}

/// One parse error of a GLSL front end, with an optional source span.
pub struct GlslParseError {
    pub message: String,
    pub span: Option<(usize, usize)>,
}

/// A reflection validation failure: a message, the source spans it points
/// at, and the chain of underlying cause messages.
pub struct ValidationError {
    pub message: String,
    pub labels: Vec<SpanLabel>,
    pub causes: Vec<String>,
}

/// Why the external reflector rejected a processed shader.
pub enum ShaderReflectError {
    WgslParse(String),
    GlslParse(Vec<GlslParseError>),
    SpirVParse(String),
    Validation(ValidationError),
}

/// Why a processed shader could not be turned into a device-ready module
/// descriptor.
pub enum AsModuleDescriptorError {
    ShaderReflectError(ShaderReflectError),
    WgslConversion(String),
    SpirVConversion(String),
}

/// How the device capability failed to build a shader module on a cache
/// miss.
pub enum ModuleCompileError {
    /// The preprocessor rejected the source graph.
    Process(String),
    /// The processed source could not become a module descriptor.
    AsModuleDescriptor(AsModuleDescriptorError, ProcessedShader),
    /// The device reported a validation error while creating the module.
    CreateShaderModule(String),
}

/// Everything that can go wrong while compiling a pipeline.
pub enum PipelineCacheError {
    /// The shader's source has not been registered yet; retried every pass.
    ShaderNotLoaded(ShaderHandle),
    /// The preprocessor rejected the source graph; terminal.
    ProcessShaderError(String),
    /// The processed source could not become a module descriptor; terminal.
    AsModuleDescriptorError(AsModuleDescriptorError, ProcessedShader),
    /// At least one declared import is still unresolved; retried every pass.
    ShaderImportNotYetAvailable,
    /// The device rejected the module; terminal.
    CreateShaderModule(String),
}

impl PipelineCacheError {
    /// Retryable conditions heal on their own once the missing source or
    /// import arrives; the rest are terminal until a source update.
    pub open spec fn spec_is_retryable(&self) -> bool {
        self is ShaderNotLoaded || self is ShaderImportNotYetAvailable
    }

    /// Whether a later pass should attempt this pipeline again without an
    /// external invalidation.
    pub fn is_retryable(&self) -> (r: bool)
        ensures
            r == self.spec_is_retryable(),
    {
        match self {
            PipelineCacheError::ShaderNotLoaded(_) => true,
            PipelineCacheError::ShaderImportNotYetAvailable => true,
            _ => false,
        }
    }
}

/// Lifts a device-reported module failure into the cache's error type.
pub fn module_error_to_cache_error(e: ModuleCompileError) -> (r: PipelineCacheError)
    ensures
        !r.spec_is_retryable(),
        match e {
            ModuleCompileError::Process(m) => r == PipelineCacheError::ProcessShaderError(m),
            ModuleCompileError::AsModuleDescriptor(err, src) => r
                == PipelineCacheError::AsModuleDescriptorError(err, src),
            ModuleCompileError::CreateShaderModule(m) => r == PipelineCacheError::CreateShaderModule(
                m,
            ),
        },
{
    match e {
        ModuleCompileError::Process(m) => PipelineCacheError::ProcessShaderError(m),
        ModuleCompileError::AsModuleDescriptor(err, src) => PipelineCacheError::AsModuleDescriptorError(
            err,
            src,
        ),
        ModuleCompileError::CreateShaderModule(m) => PipelineCacheError::CreateShaderModule(m),
    }
}

} // verus!
