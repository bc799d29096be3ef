use pipeline_cache::device::RenderDevice;
use pipeline_cache::diagnostics::error_report;
use pipeline_cache::error::{
    AsModuleDescriptorError, ModuleCompileError, PipelineCacheError, ProcessedShader,
    ShaderReflectError, SpanLabel, ValidationError,
};
use pipeline_cache::keymap::KeyMap;
use pipeline_cache::pipeline::{
    CachedPipelineState, ComputePipelineDescriptor, FragmentState, Pipeline,
    RenderPipelineDescriptor, VertexState,
};
use pipeline_cache::pipeline_cache::PipelineCache;
use pipeline_cache::shader::{Shader, ShaderHandle, ShaderImport};
use pipeline_cache::CachedRenderPipelineId;
use pipeline_cache::INVALID_PIPELINE_ID;

/// An in-process device capability: mints fresh tokens, counts every call,
/// and fails compilation for sources carrying failure markers.
struct FakeDevice {
    compile_calls: usize,
    layout_calls: usize,
    render_calls: usize,
    compute_calls: usize,
    next_token: u64,
    supports_storage: bool,
    last_defs: Vec<String>,
}

impl FakeDevice {
    fn new() -> Self {
        FakeDevice {
            compile_calls: 0,
            layout_calls: 0,
            render_calls: 0,
            compute_calls: 0,
            next_token: 0,
            supports_storage: true,
            last_defs: Vec::new(),
        }
    }

    fn mint(&mut self) -> u64 {
        self.next_token += 1;
        self.next_token
    }
}

impl RenderDevice for FakeDevice {
    fn supports_read_only_storage_buffers(&self, _count: u32) -> bool {
        self.supports_storage
    }

    fn compile_shader_module(
        &mut self,
        shader: &Shader,
        shader_defs: &Vec<String>,
        _shaders: &KeyMap<ShaderHandle, Shader>,
        _import_path_shaders: &KeyMap<ShaderImport, ShaderHandle>,
    ) -> Result<u64, ModuleCompileError> {
        self.compile_calls += 1;
        self.last_defs = shader_defs.clone();
        if shader.source.contains("PROCESS_FAILURE") {
            return Err(ModuleCompileError::Process(String::from("unknown directive")));
        }
        if shader.source.contains("VALIDATION_FAILURE") {
            return Err(ModuleCompileError::CreateShaderModule(String::from(
                "binding mismatch",
            )));
        }
        Ok(self.mint())
    }

    fn create_pipeline_layout(&mut self, _bind_group_layout_ids: &Vec<u64>) -> u64 {
        self.layout_calls += 1;
        self.mint()
    }

    fn create_render_pipeline(
        &mut self,
        _descriptor: &RenderPipelineDescriptor,
        _vertex_module: u64,
        _fragment_module: Option<u64>,
        _layout: Option<u64>,
    ) -> u64 {
        self.render_calls += 1;
        self.mint()
    }

    fn create_compute_pipeline(
        &mut self,
        _descriptor: &ComputePipelineDescriptor,
        _module: u64,
        _layout: Option<u64>,
    ) -> u64 {
        self.compute_calls += 1;
        self.mint()
    }
}

fn shader(source: &str, path: Option<&str>, imports: &[&str]) -> Shader {
    Shader::new(
        String::from(source),
        path.map(|p| ShaderImport::AssetPath(String::from(p))),
        imports
            .iter()
            .map(|p| ShaderImport::AssetPath(String::from(*p)))
            .collect(),
    )
}

fn render_desc(handle: ShaderHandle, defs: &[&str], layout: Option<Vec<u64>>) -> RenderPipelineDescriptor {
    RenderPipelineDescriptor {
        label: None,
        layout,
        vertex: VertexState {
            shader: handle,
            shader_defs: defs.iter().map(|d| String::from(*d)).collect(),
            entry_point: String::from("vertex"),
        },
        fragment: None,
    }
}

fn render_token(cache: &PipelineCache<FakeDevice>, id: CachedRenderPipelineId) -> Option<u64> {
    cache.get_render_pipeline(id).map(|p| p.id)
}

#[test]
fn queue_assigns_dense_ids_and_starts_queued() {
    let mut cache = PipelineCache::new(FakeDevice::new());
    let a = cache.queue_render_pipeline(render_desc(1, &[], None));
    let b = cache.queue_render_pipeline(render_desc(1, &[], None));
    assert_eq!(a.0, 0);
    assert_eq!(b.0, 1);
    assert!(matches!(
        cache.get_render_pipeline_state(a),
        CachedPipelineState::Queued
    ));
    assert!(cache.get_render_pipeline(a).is_none());
    assert_ne!(a.0, INVALID_PIPELINE_ID);
    assert_eq!(CachedRenderPipelineId::invalid().0, INVALID_PIPELINE_ID);
}

#[test]
fn process_queue_is_idempotent_for_compiled_pipelines() {
    let mut cache = PipelineCache::new(FakeDevice::new());
    cache.set_shader(7, shader("fn vertex() {}", None, &[]));
    let id = cache.queue_render_pipeline(render_desc(7, &[], None));
    cache.process_queue();
    let first = render_token(&cache, id).expect("pipeline should be ready");
    assert_eq!(cache.device.compile_calls, 1);
    assert_eq!(cache.device.render_calls, 1);
    cache.process_queue();
    cache.process_queue();
    assert_eq!(render_token(&cache, id), Some(first));
    assert_eq!(cache.device.compile_calls, 1);
    assert_eq!(cache.device.render_calls, 1);
}

#[test]
fn invalidation_is_transitive_through_the_import_graph() {
    let mut cache = PipelineCache::new(FakeDevice::new());
    cache.set_shader(1, shader("fn base() {}", Some("a"), &[]));
    cache.set_shader(2, shader("fn mid() {}", Some("b"), &["a"]));
    cache.set_shader(3, shader("fn top() {}", Some("c"), &["b"]));
    let p1 = cache.queue_render_pipeline(render_desc(1, &[], None));
    let p2 = cache.queue_render_pipeline(render_desc(2, &[], None));
    let p3 = cache.queue_render_pipeline(render_desc(3, &[], None));
    cache.process_queue();
    assert!(render_token(&cache, p1).is_some());
    assert!(render_token(&cache, p2).is_some());
    assert!(render_token(&cache, p3).is_some());

    cache.set_shader(1, shader("fn base_changed() {}", Some("a"), &[]));
    assert!(matches!(
        cache.get_render_pipeline_state(p1),
        CachedPipelineState::Queued
    ));
    assert!(matches!(
        cache.get_render_pipeline_state(p2),
        CachedPipelineState::Queued
    ));
    assert!(matches!(
        cache.get_render_pipeline_state(p3),
        CachedPipelineState::Queued
    ));
    cache.process_queue();
    assert!(render_token(&cache, p1).is_some());
    assert!(render_token(&cache, p2).is_some());
    assert!(render_token(&cache, p3).is_some());
}

#[test]
fn import_resolution_is_order_independent() {
    let mut cache = PipelineCache::new(FakeDevice::new());
    cache.set_shader(3, shader("fn top() {}", Some("c"), &["b"]));
    let p = cache.queue_render_pipeline(render_desc(3, &[], None));
    cache.process_queue();
    assert!(matches!(
        cache.get_render_pipeline_state(p),
        CachedPipelineState::Failed(PipelineCacheError::ShaderImportNotYetAvailable)
    ));
    assert_eq!(cache.device.compile_calls, 0);

    cache.set_shader(2, shader("fn mid() {}", Some("b"), &[]));
    cache.process_queue();
    assert!(render_token(&cache, p).is_some());
}

#[test]
fn identical_requests_share_one_module_and_one_layout() {
    let mut cache = PipelineCache::new(FakeDevice::new());
    cache.set_shader(5, shader("fn vertex() {}", None, &[]));
    let a = cache.queue_render_pipeline(render_desc(5, &["FOO"], Some(vec![10, 11])));
    let b = cache.queue_render_pipeline(render_desc(5, &["FOO"], Some(vec![10, 11])));
    cache.process_queue();
    assert!(render_token(&cache, a).is_some());
    assert!(render_token(&cache, b).is_some());
    assert_eq!(cache.device.compile_calls, 1);
    assert_eq!(cache.device.layout_calls, 1);
    assert_eq!(cache.device.render_calls, 2);
}

#[test]
fn different_definition_sets_compile_distinct_modules() {
    let mut cache = PipelineCache::new(FakeDevice::new());
    cache.set_shader(5, shader("fn vertex() {}", None, &[]));
    let a = cache.queue_render_pipeline(render_desc(5, &["FOO"], None));
    let b = cache.queue_render_pipeline(render_desc(5, &["BAR"], None));
    let c = cache.queue_render_pipeline(render_desc(5, &["FOO"], None));
    cache.process_queue();
    assert!(render_token(&cache, a).is_some());
    assert!(render_token(&cache, b).is_some());
    assert!(render_token(&cache, c).is_some());
    assert_eq!(cache.device.compile_calls, 2);
}

#[test]
fn removal_invalidates_dependents_and_later_lookups_fail() {
    let mut cache = PipelineCache::new(FakeDevice::new());
    cache.set_shader(1, shader("fn base() {}", Some("a"), &[]));
    cache.set_shader(2, shader("fn mid() {}", Some("b"), &["a"]));
    cache.set_shader(3, shader("fn top() {}", None, &["b"]));
    let p1 = cache.queue_render_pipeline(render_desc(1, &[], None));
    let p2 = cache.queue_render_pipeline(render_desc(2, &[], None));
    let p3 = cache.queue_render_pipeline(render_desc(3, &[], None));
    cache.process_queue();
    assert!(render_token(&cache, p1).is_some());
    assert!(render_token(&cache, p2).is_some());
    assert!(render_token(&cache, p3).is_some());

    cache.remove_shader(1);
    assert!(matches!(
        cache.get_render_pipeline_state(p1),
        CachedPipelineState::Queued
    ));
    assert!(matches!(
        cache.get_render_pipeline_state(p2),
        CachedPipelineState::Queued
    ));
    assert!(matches!(
        cache.get_render_pipeline_state(p3),
        CachedPipelineState::Queued
    ));
    cache.process_queue();
    assert!(matches!(
        cache.get_render_pipeline_state(p1),
        CachedPipelineState::Failed(PipelineCacheError::ShaderNotLoaded(1))
    ));
}

#[test]
fn end_to_end_load_compile_and_hot_reload() {
    let mut cache = PipelineCache::new(FakeDevice::new());
    let id = cache.queue_render_pipeline(render_desc(9, &[], None));
    cache.process_queue();
    assert!(matches!(
        cache.get_render_pipeline_state(id),
        CachedPipelineState::Failed(PipelineCacheError::ShaderNotLoaded(9))
    ));

    cache.set_shader(9, shader("fn vertex() {}", None, &[]));
    cache.process_queue();
    let first = render_token(&cache, id).expect("pipeline should be ready");

    cache.set_shader(9, shader("fn vertex_reloaded() {}", None, &[]));
    assert!(matches!(
        cache.get_render_pipeline_state(id),
        CachedPipelineState::Queued
    ));
    cache.process_queue();
    let second = render_token(&cache, id).expect("pipeline should be ready again");
    assert_ne!(first, second);
    assert_eq!(cache.device.compile_calls, 2);
}

#[test]
fn terminal_failures_stay_failed_and_leave_the_queue() {
    let mut cache = PipelineCache::new(FakeDevice::new());
    cache.set_shader(4, shader("PROCESS_FAILURE", None, &[]));
    let id = cache.queue_render_pipeline(render_desc(4, &[], None));
    cache.process_queue();
    assert!(matches!(
        cache.get_render_pipeline_state(id),
        CachedPipelineState::Failed(PipelineCacheError::ProcessShaderError(_))
    ));
    assert_eq!(cache.device.compile_calls, 1);
    cache.process_queue();
    cache.process_queue();
    assert_eq!(cache.device.compile_calls, 1);

    cache.set_shader(4, shader("fn vertex() {}", None, &[]));
    cache.process_queue();
    assert!(render_token(&cache, id).is_some());
}

#[test]
fn device_validation_failure_is_terminal() {
    let mut cache = PipelineCache::new(FakeDevice::new());
    cache.set_shader(4, shader("VALIDATION_FAILURE", None, &[]));
    let id = cache.queue_render_pipeline(render_desc(4, &[], None));
    cache.process_queue();
    match cache.get_render_pipeline_state(id) {
        CachedPipelineState::Failed(PipelineCacheError::CreateShaderModule(msg)) => {
            assert_eq!(msg, "binding mismatch");
        }
        other => panic!("unexpected state: {:?}", matches!(other, CachedPipelineState::Queued)),
    }
}

#[test]
fn compute_pipelines_compile_through_the_same_caches() {
    let mut cache = PipelineCache::new(FakeDevice::new());
    cache.set_shader(6, shader("fn main_cs() {}", None, &[]));
    let id = cache.queue_compute_pipeline(ComputePipelineDescriptor {
        label: Some(String::from("compute")),
        layout: Some(vec![3]),
        shader: 6,
        shader_defs: vec![],
        entry_point: String::from("main_cs"),
    });
    cache.process_queue();
    assert!(cache.get_compute_pipeline(id).is_some());
    assert_eq!(cache.device.compute_calls, 1);
    assert_eq!(cache.device.layout_calls, 1);
    let descriptor = cache.get_compute_pipeline_descriptor(id);
    assert_eq!(descriptor.entry_point, "main_cs");
}

#[test]
fn fragment_stage_shares_the_vertex_module_cache() {
    let mut cache = PipelineCache::new(FakeDevice::new());
    cache.set_shader(8, shader("fn both() {}", None, &[]));
    let mut descriptor = render_desc(8, &[], None);
    descriptor.fragment = Some(FragmentState {
        shader: 8,
        shader_defs: vec![],
        entry_point: String::from("fragment"),
    });
    let id = cache.queue_render_pipeline(descriptor);
    cache.process_queue();
    assert!(render_token(&cache, id).is_some());
    assert_eq!(cache.device.compile_calls, 1);
}

#[test]
fn retryable_errors_are_classified() {
    assert!(PipelineCacheError::ShaderNotLoaded(1).is_retryable());
    assert!(PipelineCacheError::ShaderImportNotYetAvailable.is_retryable());
    assert!(!PipelineCacheError::ProcessShaderError(String::from("x")).is_retryable());
    assert!(!PipelineCacheError::CreateShaderModule(String::from("x")).is_retryable());
}

#[test]
fn state_unwrap_returns_the_compiled_pipeline() {
    let mut cache = PipelineCache::new(FakeDevice::new());
    cache.set_shader(2, shader("fn vertex() {}", None, &[]));
    let id = cache.queue_render_pipeline(render_desc(2, &[], None));
    cache.process_queue();
    let state = cache.get_render_pipeline_state(id);
    match state.unwrap() {
        Pipeline::RenderPipeline(p) => assert_eq!(Some(p.id), render_token(&cache, id)),
        Pipeline::ComputePipeline(_) => panic!("queued a render pipeline"),
    }
}

#[test]
fn retryable_errors_produce_no_report() {
    assert!(error_report(&PipelineCacheError::ShaderNotLoaded(3)).is_none());
    assert!(error_report(&PipelineCacheError::ShaderImportNotYetAvailable).is_none());
}

#[test]
fn flat_reports_carry_the_failure_message() {
    let report = error_report(&PipelineCacheError::ProcessShaderError(String::from(
        "unknown import",
    )))
    .expect("terminal failures are reported");
    assert_eq!(report, "failed to process shader: unknown import");

    let report = error_report(&PipelineCacheError::CreateShaderModule(String::from(
        "bad binding",
    )))
    .expect("terminal failures are reported");
    assert_eq!(report, "failed to create shader module: bad binding");

    let report = error_report(&PipelineCacheError::AsModuleDescriptorError(
        AsModuleDescriptorError::WgslConversion(String::from("no entry point")),
        ProcessedShader::Wgsl(String::from("fn f() {}")),
    ))
    .expect("terminal failures are reported");
    assert_eq!(report, "failed to convert shader to wgsl: \nno entry point");
}

#[test]
fn validation_reports_render_source_spans() {
    let source = String::from("fn broken() { let x: f32 = 1; }");
    let error = PipelineCacheError::AsModuleDescriptorError(
        AsModuleDescriptorError::ShaderReflectError(ShaderReflectError::Validation(
            ValidationError {
                message: String::from("type mismatch"),
                labels: vec![SpanLabel {
                    start: 14,
                    end: 28,
                    message: String::from("expected f32"),
                }],
                causes: vec![String::from("initializer has type i32")],
            },
        )),
        ProcessedShader::Wgsl(source.clone()),
    );
    let report = error_report(&error).expect("terminal failures are reported");
    assert!(report.starts_with("failed to process shader: \n"));
    assert!(report.contains("type mismatch"));
    assert!(report.contains("expected f32"));
    assert!(report.contains("initializer has type i32"));
    assert!(report.contains("wgsl"));
    assert!(report.contains(&source));
}

#[test]
fn glsl_parse_reports_render_each_error() {
    let source = String::from("void main() { int x = ; }");
    let error = PipelineCacheError::AsModuleDescriptorError(
        AsModuleDescriptorError::ShaderReflectError(ShaderReflectError::GlslParse(vec![
            pipeline_cache::error::GlslParseError {
                message: String::from("unexpected token"),
                span: Some((22, 23)),
            },
            pipeline_cache::error::GlslParseError {
                message: String::from("missing expression"),
                span: None,
            },
        ])),
        ProcessedShader::Glsl(source.clone()),
    );
    let report = error_report(&error).expect("terminal failures are reported");
    assert!(report.starts_with("failed to process shader: \n"));
    assert!(report.contains("unexpected token"));
    assert!(report.contains("missing expression"));
    assert!(report.contains(&source));
}

#[test]
fn missing_storage_buffer_support_augments_the_compile_definitions() {
    let mut device = FakeDevice::new();
    device.supports_storage = false;
    let mut cache = PipelineCache::new(device);
    cache.set_shader(5, shader("fn vertex() {}", None, &[]));
    let a = cache.queue_render_pipeline(render_desc(5, &["FOO"], None));
    cache.process_queue();
    assert!(render_token(&cache, a).is_some());
    assert_eq!(
        cache.device.last_defs,
        vec![String::from("FOO"), String::from("NO_STORAGE_BUFFERS_SUPPORT")]
    );
    // The cache key stays the definition list as given: an identical request
    // hits the cached module.
    let b = cache.queue_render_pipeline(render_desc(5, &["FOO"], None));
    cache.process_queue();
    assert!(render_token(&cache, b).is_some());
    assert_eq!(cache.device.compile_calls, 1);
}

#[test]
fn custom_imports_do_not_block_compilation() {
    let mut cache = PipelineCache::new(FakeDevice::new());
    cache.set_shader(
        5,
        Shader::new(
            String::from("fn vertex() {}"),
            None,
            vec![ShaderImport::Custom(String::from("helpers"))],
        ),
    );
    let id = cache.queue_render_pipeline(render_desc(5, &[], None));
    cache.process_queue();
    assert!(render_token(&cache, id).is_some());
}

#[test]
fn unresolved_asset_imports_block_until_registered() {
    let mut cache = PipelineCache::new(FakeDevice::new());
    cache.set_shader(5, shader("fn vertex() {}", None, &["util", "util"]));
    let id = cache.queue_render_pipeline(render_desc(5, &[], None));
    cache.process_queue();
    assert!(matches!(
        cache.get_render_pipeline_state(id),
        CachedPipelineState::Failed(PipelineCacheError::ShaderImportNotYetAvailable)
    ));
}
