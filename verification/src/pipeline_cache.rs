//! The pipeline cache: owns the pipeline records and the work-queue, and
//! drives compilation by combining the shader cache, the layout cache and
//! the device capability.

use vstd::prelude::*;
use crate::device::RenderDevice;
use crate::error::PipelineCacheError;
use crate::idset::IdSet;
use crate::layout_cache::LayoutCache;
use crate::pipeline::{
    CachedPipeline, CachedPipelineState, ComputePipeline, ComputePipelineDescriptor, Pipeline,
    PipelineDescriptor, RenderPipeline, RenderPipelineDescriptor,
};
use crate::shader::{Shader, ShaderHandle};
use crate::shader_cache::{
    fully_resolved, is_invalidation_set, pipelines_of, prior_pipelines, prior_processed,
    prior_resolved, ShaderCache,
};
use crate::{CachedComputePipelineId, CachedRenderPipelineId};

verus! {

/// Whether a queue-drain pass should attempt to (re)compile a pipeline in
/// this state: queued ones always, failed ones only when the failure is
/// retryable. Ready pipelines and terminal failures are left alone.
pub open spec fn should_attempt(st: CachedPipelineState) -> bool {
    ||| st is Queued
    ||| (st matches CachedPipelineState::Failed(e) && e.spec_is_retryable())
}

/// A stage of a descriptor is ready to resolve without the device: its
/// shader is loaded and fully resolved, and the module for this exact
/// definition list is already cached.
pub open spec fn stage_ready(sc: ShaderCache, h: ShaderHandle, defs: Seq<Seq<char>>) -> bool {
    &&& sc.shaders@.dom().contains(h)
    &&& fully_resolved(sc.shaders@[h], prior_resolved(sc.data@, h))
    &&& prior_processed(sc.data@, h).dom().contains(defs)
}

/// Every module a descriptor needs is already cached, with its shaders
/// loaded and resolved: a queue pass owes such a pipeline a ready outcome.
pub open spec fn modules_ready(sc: ShaderCache, d: PipelineDescriptor) -> bool {
    match d {
        PipelineDescriptor::RenderPipelineDescriptor(rd) => {
            &&& stage_ready(sc, rd.vertex.shader, rd.vertex.shader_defs.deep_view())
            &&& match rd.fragment {
                Some(f) => stage_ready(sc, f.shader, f.shader_defs.deep_view()),
                None => true,
            }
        },
        PipelineDescriptor::ComputePipelineDescriptor(cd) => stage_ready(
            sc,
            cd.shader,
            cd.shader_defs.deep_view(),
        ),
    }
}

/// The shader a compile attempt resolves first: the vertex stage's for a
/// render pipeline, the single stage's for a compute pipeline.
pub open spec fn lead_shader(d: PipelineDescriptor) -> ShaderHandle {
    match d {
        PipelineDescriptor::RenderPipelineDescriptor(rd) => rd.vertex.shader,
        PipelineDescriptor::ComputePipelineDescriptor(cd) => cd.shader,
    }
}

/// The state holds a compiled pipeline of the descriptor's kind.
pub open spec fn ready_state_matches(d: PipelineDescriptor, st: CachedPipelineState) -> bool {
    match d {
        PipelineDescriptor::RenderPipelineDescriptor(_) => st matches CachedPipelineState::Ready(
            Pipeline::RenderPipeline(_),
        ),
        PipelineDescriptor::ComputePipelineDescriptor(_) => st matches CachedPipelineState::Ready(
            Pipeline::ComputePipeline(_),
        ),
    }
}

/// The deferred compilation cache for render and compute pipelines.
pub struct PipelineCache<D> {
    pub device: D,
    pub layout_cache: LayoutCache,
    pub shader_cache: ShaderCache,
    pub pipelines: Vec<CachedPipeline>,
    pub waiting_pipelines: IdSet<usize>,
}

impl<D: RenderDevice> PipelineCache<D> {
    pub open spec fn wf(&self) -> bool {
        &&& self.shader_cache.wf()
        &&& self.layout_cache.wf()
        &&& self.waiting_pipelines.wf()
        &&& forall|id: usize|
            #[trigger] self.waiting_pipelines@.contains(id) ==> id < self.pipelines@.len()
        &&& forall|h: ShaderHandle, id: usize|
            self.shader_cache.data@.dom().contains(h) && #[trigger] self.shader_cache.data@[
                h
            ].pipelines@.contains(id) ==> id < self.pipelines@.len()
    }

    /// A cache with no pipelines and no shaders, owning the device.
    pub fn new(device: D) -> (r: Self)
        ensures
            r.wf(),
            r.device == device,
            r.pipelines@.len() == 0,
            r.waiting_pipelines@ == Set::<usize>::empty(),
            r.shader_cache.shaders@ == Map::<ShaderHandle, Shader>::empty(),
            r.shader_cache.data@ == Map::<ShaderHandle, crate::shader_cache::ShaderData>::empty(),
            r.shader_cache.import_path_shaders@ == Map::<(bool, Seq<char>), ShaderHandle>::empty(),
            r.shader_cache.waiting_on_import@ == Map::<(bool, Seq<char>), Vec<ShaderHandle>>::empty(),
            r.layout_cache.layouts@ == Map::<Seq<u64>, u64>::empty(),
    {
        PipelineCache {
            device,
            layout_cache: LayoutCache::new(),
            shader_cache: ShaderCache::new(),
            pipelines: Vec::new(),
            waiting_pipelines: IdSet::new(),
        }
    }

    /// The compilation state of a render pipeline id this cache produced.
    pub fn get_render_pipeline_state(&self, id: CachedRenderPipelineId) -> (r:
        &CachedPipelineState)
        requires
            id.0 < self.pipelines@.len(),
        ensures
            *r == self.pipelines@[id.0 as int].state,
    {
        &self.pipelines[id.0].state
    }

    /// The compilation state of a compute pipeline id this cache produced.
    pub fn get_compute_pipeline_state(&self, id: CachedComputePipelineId) -> (r:
        &CachedPipelineState)
        requires
            id.0 < self.pipelines@.len(),
        ensures
            *r == self.pipelines@[id.0 as int].state,
    {
        &self.pipelines[id.0].state
    }

    /// The descriptor a render pipeline was enqueued with.
    pub fn get_render_pipeline_descriptor(&self, id: CachedRenderPipelineId) -> (r:
        &RenderPipelineDescriptor)
        requires
            id.0 < self.pipelines@.len(),
            self.pipelines@[id.0 as int].descriptor is RenderPipelineDescriptor,
        ensures
            self.pipelines@[id.0 as int].descriptor
                == PipelineDescriptor::RenderPipelineDescriptor(*r),
    {
        match &self.pipelines[id.0].descriptor {
            PipelineDescriptor::RenderPipelineDescriptor(descriptor) => descriptor,
            _ => vstd::pervasive::unreached(),
        }
    }

    /// The descriptor a compute pipeline was enqueued with.
    pub fn get_compute_pipeline_descriptor(&self, id: CachedComputePipelineId) -> (r:
        &ComputePipelineDescriptor)
        requires
            id.0 < self.pipelines@.len(),
            self.pipelines@[id.0 as int].descriptor is ComputePipelineDescriptor,
        ensures
            self.pipelines@[id.0 as int].descriptor
                == PipelineDescriptor::ComputePipelineDescriptor(*r),
    {
        match &self.pipelines[id.0].descriptor {
            PipelineDescriptor::ComputePipelineDescriptor(descriptor) => descriptor,
            _ => vstd::pervasive::unreached(),
        }
    }

    /// The compiled render pipeline, present exactly when the state is
    /// ready.
    pub fn get_render_pipeline(&self, id: CachedRenderPipelineId) -> (r: Option<&RenderPipeline>)
        requires
            id.0 < self.pipelines@.len(),
        ensures
            match r {
                Some(p) => self.pipelines@[id.0 as int].state == CachedPipelineState::Ready(
                    Pipeline::RenderPipeline(*p),
                ),
                None => !(self.pipelines@[id.0 as int].state matches CachedPipelineState::Ready(
                    Pipeline::RenderPipeline(_),
                )),
            },
    {
        if let CachedPipelineState::Ready(Pipeline::RenderPipeline(pipeline)) =
            &self.pipelines[id.0].state {
            Some(pipeline)
        } else {
            None
        }
    }

    /// The compiled compute pipeline, present exactly when the state is
    /// ready.
    pub fn get_compute_pipeline(&self, id: CachedComputePipelineId) -> (r: Option<&ComputePipeline>)
        requires
            id.0 < self.pipelines@.len(),
        ensures
            match r {
                Some(p) => self.pipelines@[id.0 as int].state == CachedPipelineState::Ready(
                    Pipeline::ComputePipeline(*p),
                ),
                None => !(self.pipelines@[id.0 as int].state matches CachedPipelineState::Ready(
                    Pipeline::ComputePipeline(_),
                )),
            },
    {
        if let CachedPipelineState::Ready(Pipeline::ComputePipeline(pipeline)) =
            &self.pipelines[id.0].state {
            Some(pipeline)
        } else {
            None
        }
    }

    /// Enqueues a render pipeline: appends a queued record and returns its
    /// freshly minted id.
    pub fn queue_render_pipeline(&mut self, descriptor: RenderPipelineDescriptor) -> (id:
        CachedRenderPipelineId)
        requires
            old(self).wf(),
            old(self).pipelines@.len() < usize::MAX,
        ensures
            final(self).wf(),
            id.0 == old(self).pipelines@.len(),
            final(self).pipelines@ == old(self).pipelines@.push(
                CachedPipeline {
                    descriptor: PipelineDescriptor::RenderPipelineDescriptor(descriptor),
                    state: CachedPipelineState::Queued,
                },
            ),
            final(self).waiting_pipelines@ == old(self).waiting_pipelines@.insert(id.0),
            final(self).shader_cache == old(self).shader_cache,
            final(self).layout_cache == old(self).layout_cache,
            final(self).device == old(self).device,
    {
        let id = CachedRenderPipelineId(self.pipelines.len());
        self.pipelines.push(
            CachedPipeline {
                descriptor: PipelineDescriptor::RenderPipelineDescriptor(descriptor),
                state: CachedPipelineState::Queued,
            },
        );
        self.waiting_pipelines.insert(id.0);
        id
    }

    /// Enqueues a compute pipeline: appends a queued record and returns its
    /// freshly minted id.
    pub fn queue_compute_pipeline(&mut self, descriptor: ComputePipelineDescriptor) -> (id:
        CachedComputePipelineId)
        requires
            old(self).wf(),
            old(self).pipelines@.len() < usize::MAX,
        ensures
            final(self).wf(),
            id.0 == old(self).pipelines@.len(),
            final(self).pipelines@ == old(self).pipelines@.push(
                CachedPipeline {
                    descriptor: PipelineDescriptor::ComputePipelineDescriptor(descriptor),
                    state: CachedPipelineState::Queued,
                },
            ),
            final(self).waiting_pipelines@ == old(self).waiting_pipelines@.insert(id.0),
            final(self).shader_cache == old(self).shader_cache,
            final(self).layout_cache == old(self).layout_cache,
            final(self).device == old(self).device,
    {
        let id = CachedComputePipelineId(self.pipelines.len());
        self.pipelines.push(
            CachedPipeline {
                descriptor: PipelineDescriptor::ComputePipelineDescriptor(descriptor),
                state: CachedPipelineState::Queued,
            },
        );
        self.waiting_pipelines.insert(id.0);
        id
    }

    /// Requeues every pipeline id in `ids`: state back to queued, id back on
    /// the work-queue.
    fn requeue(&mut self, ids: &Vec<usize>)
        requires
            old(self).wf(),
            forall|i: int| 0 <= i < ids@.len() ==> #[trigger] ids@[i] < old(self).pipelines@.len(),
        ensures
            final(self).wf(),
            final(self).device == old(self).device,
            final(self).shader_cache == old(self).shader_cache,
            final(self).layout_cache == old(self).layout_cache,
            final(self).pipelines@.len() == old(self).pipelines@.len(),
            forall|i: int|
                0 <= i < final(self).pipelines@.len() ==> (#[trigger] final(self).pipelines@[
                    i
                ]).descriptor == old(self).pipelines@[i].descriptor,
            forall|id: usize|
                ids@.contains(id) && id < final(self).pipelines@.len() ==> final(self).pipelines@[
                    id as int
                ].state is Queued,
            forall|id: usize|
                !ids@.contains(id) && id < final(self).pipelines@.len() ==> final(self).pipelines@[
                    id as int
                ] == old(self).pipelines@[id as int],
            final(self).waiting_pipelines@ == old(self).waiting_pipelines@.union(ids@.to_set()),
    {
        let n = ids.len();
        for i in 0..n
            invariant
                self.wf(),
                n == ids@.len(),
                self.device == old(self).device,
                self.shader_cache == old(self).shader_cache,
                self.layout_cache == old(self).layout_cache,
                self.pipelines@.len() == old(self).pipelines@.len(),
                forall|j: int| 0 <= j < n ==> #[trigger] ids@[j] < self.pipelines@.len(),
                forall|j: int|
                    0 <= j < self.pipelines@.len() ==> (#[trigger] self.pipelines@[j]).descriptor
                        == old(self).pipelines@[j].descriptor,
                forall|j: int|
                    0 <= j < i ==> self.pipelines@[#[trigger] ids@[j] as int].state is Queued,
                forall|id: usize|
                    !ids@.take(i as int).contains(id) && id < self.pipelines@.len()
                        ==> self.pipelines@[id as int] == old(self).pipelines@[id as int],
                self.waiting_pipelines@ == old(self).waiting_pipelines@.union(
                    ids@.take(i as int).to_set(),
                ),
        {
            let id = ids[i];
            let ghost pre = self.pipelines@;
            let mut record = self.pipelines.remove(id);
            record.state = CachedPipelineState::Queued;
            self.pipelines.insert(id, record);
            self.waiting_pipelines.insert(id);
            proof {
                assert(self.pipelines@ =~= pre.update(
                    id as int,
                    CachedPipeline {
                        descriptor: pre[id as int].descriptor,
                        state: CachedPipelineState::Queued,
                    },
                ));
                assert(ids@.take(i + 1).drop_last() =~= ids@.take(i as int));
                assert(ids@.take(i + 1).last() == id);
                assert(ids@.take(i + 1).to_set() =~= ids@.take(i as int).to_set().insert(id)) by {
                    assert forall|x: usize| #[trigger]
                        ids@.take(i + 1).to_set().contains(x) implies ids@.take(
                        i as int,
                    ).to_set().contains(x) || x == id by {
                        let j = choose|j: int| 0 <= j < i + 1 && #[trigger] ids@.take(i + 1)[j] == x;
                        if j < i {
                            assert(ids@.take(i as int)[j] == x);
                        }
                    }
                    assert forall|x: usize|
                        ids@.take(i as int).to_set().contains(x) implies ids@.take(
                        i + 1,
                    ).to_set().contains(x) by {
                        let j = choose|j: int| 0 <= j < i && #[trigger] ids@.take(i as int)[j] == x;
                        assert(ids@.take(i + 1)[j] == x);
                    }
                    assert(ids@.take(i + 1)[i as int] == id);
                }
                assert(self.waiting_pipelines@ =~= old(self).waiting_pipelines@.union(
                    ids@.take(i + 1).to_set(),
                ));
            }
        }
        proof {
            assert(ids@.take(n as int) =~= ids@);
            assert forall|id: usize|
                ids@.contains(id) && id < self.pipelines@.len() implies self.pipelines@[
                id as int
            ].state is Queued by {
                let j = choose|j: int| 0 <= j < ids@.len() && #[trigger] ids@[j] == id;
            }
        }
    }

    /// Applies a new or changed shader source: stores it in the shader
    /// cache and requeues every pipeline the change invalidates.
    pub fn set_shader(&mut self, handle: ShaderHandle, shader: Shader)
        requires
            old(self).wf(),
        ensures
            final(self).wf(),
            final(self).shader_cache.shaders@ == old(self).shader_cache.shaders@.insert(
                handle,
                shader,
            ),
            final(self).pipelines@.len() == old(self).pipelines@.len(),
            forall|i: int|
                0 <= i < final(self).pipelines@.len() ==> (#[trigger] final(self).pipelines@[
                    i
                ]).descriptor == old(self).pipelines@[i].descriptor,
            exists|s: Set<ShaderHandle>|
                {
                    &&& #[trigger] is_invalidation_set(old(self).shader_cache.data@, handle, s)
                    &&& forall|id: usize|
                        pipelines_of(old(self).shader_cache.data@, s).contains(id) && id < final(self).pipelines@.len() ==> (#[trigger] final(self).pipelines@[id as int]).state
                            is Queued && final(self).waiting_pipelines@.contains(id)
                    &&& forall|id: usize|
                        !pipelines_of(old(self).shader_cache.data@, s).contains(id) && id < final(self).pipelines@.len() ==> #[trigger] final(self).pipelines@[id as int] == old(self).pipelines@[id as int]
                    &&& final(self).waiting_pipelines@ == old(self).waiting_pipelines@.union(
                        pipelines_of(old(self).shader_cache.data@, s),
                    )
                },
    {
        let pipelines_to_queue = self.shader_cache.set_shader(handle, shader);
        proof {
            let s = choose|s: Set<ShaderHandle>|
                {
                    &&& #[trigger] is_invalidation_set(old(self).shader_cache.data@, handle, s)
                    &&& pipelines_to_queue@.to_set() == pipelines_of(
                        old(self).shader_cache.data@,
                        s,
                    )
                    &&& forall|h: ShaderHandle|
                        self.shader_cache.data@.dom().contains(h) && s.contains(h) ==> (
                        #[trigger] self.shader_cache.data@[h]).processed_shaders@ == Map::<
                            Seq<Seq<char>>,
                            u64,
                        >::empty()
                    &&& forall|h: ShaderHandle|
                        self.shader_cache.data@.dom().contains(h) && !s.contains(h) ==> (
                        #[trigger] self.shader_cache.data@[h]).processed_shaders@
                            == prior_processed(old(self).shader_cache.data@, h)
                };
            assert forall|i: int|
                0 <= i < pipelines_to_queue@.len() implies #[trigger] pipelines_to_queue@[i] < self.pipelines@.len() by {
                assert(pipelines_to_queue@.to_set().contains(pipelines_to_queue@[i]));
            }
        }
        self.requeue(&pipelines_to_queue);
    }

    /// Applies a shader removal: drops the source from the shader cache and
    /// requeues every pipeline the removal invalidates.
    pub fn remove_shader(&mut self, handle: ShaderHandle)
        requires
            old(self).wf(),
        ensures
            final(self).wf(),
            final(self).shader_cache.shaders@ == old(self).shader_cache.shaders@.remove(handle),
            final(self).pipelines@.len() == old(self).pipelines@.len(),
            forall|i: int|
                0 <= i < final(self).pipelines@.len() ==> (#[trigger] final(self).pipelines@[
                    i
                ]).descriptor == old(self).pipelines@[i].descriptor,
            exists|s: Set<ShaderHandle>|
                {
                    &&& #[trigger] is_invalidation_set(old(self).shader_cache.data@, handle, s)
                    &&& forall|id: usize|
                        pipelines_of(old(self).shader_cache.data@, s).contains(id) && id < final(self).pipelines@.len() ==> (#[trigger] final(self).pipelines@[id as int]).state
                            is Queued && final(self).waiting_pipelines@.contains(id)
                    &&& forall|id: usize|
                        !pipelines_of(old(self).shader_cache.data@, s).contains(id) && id < final(self).pipelines@.len() ==> #[trigger] final(self).pipelines@[id as int] == old(self).pipelines@[id as int]
                    &&& final(self).waiting_pipelines@ == old(self).waiting_pipelines@.union(
                        pipelines_of(old(self).shader_cache.data@, s),
                    )
                },
    {
        let pipelines_to_queue = self.shader_cache.remove(handle);
        proof {
            let s = choose|s: Set<ShaderHandle>|
                {
                    &&& #[trigger] is_invalidation_set(old(self).shader_cache.data@, handle, s)
                    &&& pipelines_to_queue@.to_set() == pipelines_of(
                        old(self).shader_cache.data@,
                        s,
                    )
                };
            assert forall|i: int|
                0 <= i < pipelines_to_queue@.len() implies #[trigger] pipelines_to_queue@[i] < self.pipelines@.len() by {
                assert(pipelines_to_queue@.to_set().contains(pipelines_to_queue@[i]));
            }
        }
        self.requeue(&pipelines_to_queue);
    }
}


/// After one shader-cache lookup on behalf of pipeline `id`, every
/// registered pipeline id was either registered before or is `id` itself.
proof fn lemma_pipelines_bound(
    d0: Map<ShaderHandle, crate::shader_cache::ShaderData>,
    d1: Map<ShaderHandle, crate::shader_cache::ShaderData>,
    handle: ShaderHandle,
    id: usize,
)
    requires
        d1.remove(handle) == d0.remove(handle),
        d1.dom().contains(handle) ==> (d1[handle].pipelines@ == prior_pipelines(d0, handle) || d1[
            handle
        ].pipelines@ == prior_pipelines(d0, handle).insert(id)),
    ensures
        forall|h: ShaderHandle, p: usize|
            d1.dom().contains(h) && #[trigger] d1[h].pipelines@.contains(p) ==> prior_pipelines(
                d0,
                h,
            ).contains(p) || p == id,
{
    assert forall|h: ShaderHandle, p: usize|
        d1.dom().contains(h) && #[trigger] d1[h].pipelines@.contains(p) implies prior_pipelines(
        d0,
        h,
    ).contains(p) || p == id by {
        if h != handle {
            assert(d1.remove(handle).dom().contains(h));
            assert(d1.remove(handle)[h] == d1[h]);
            assert(d0.remove(handle)[h] == d0[h]);
        }
    }
}

/// One shader-cache lookup keeps every shader's resolved imports as they
/// were and only ever adds module-cache entries; it never removes or
/// replaces one.
proof fn lemma_data_preserved(
    d0: Map<ShaderHandle, crate::shader_cache::ShaderData>,
    d1: Map<ShaderHandle, crate::shader_cache::ShaderData>,
    handle: ShaderHandle,
)
    requires
        d1.remove(handle) == d0.remove(handle),
        d0.dom().contains(handle) ==> d1.dom().contains(handle),
        d1.dom().contains(handle) ==> prior_resolved(d1, handle) == prior_resolved(d0, handle),
        d1.dom().contains(handle) ==> (forall|k: Seq<Seq<char>>|
            #[trigger] prior_processed(d0, handle).dom().contains(k) ==> prior_processed(
                d1,
                handle,
            ).dom().contains(k) && prior_processed(d1, handle)[k] == prior_processed(d0, handle)[k]),
    ensures
        forall|h: ShaderHandle| #![trigger prior_resolved(d1, h)]
            prior_resolved(d1, h) == prior_resolved(d0, h),
        forall|h: ShaderHandle, k: Seq<Seq<char>>|
            #[trigger] prior_processed(d0, h).dom().contains(k) ==> prior_processed(
                d1,
                h,
            ).dom().contains(k) && prior_processed(d1, h)[k] == prior_processed(d0, h)[k],
{
    assert forall|h: ShaderHandle| #![trigger prior_resolved(d1, h)]
        prior_resolved(d1, h) == prior_resolved(d0, h) by {
        if h != handle {
            if d0.dom().contains(h) {
                assert(d0.remove(handle)[h] == d0[h]);
                assert(d1.remove(handle)[h] == d1[h]);
                assert(d1.remove(handle).dom().contains(h));
            }
            if d1.dom().contains(h) {
                assert(d1.remove(handle)[h] == d1[h]);
                assert(d0.remove(handle)[h] == d0[h]);
                assert(d0.remove(handle).dom().contains(h));
            }
        }
    }
    assert forall|h: ShaderHandle, k: Seq<Seq<char>>|
        #[trigger] prior_processed(d0, h).dom().contains(k) implies prior_processed(
        d1,
        h,
    ).dom().contains(k) && prior_processed(d1, h)[k] == prior_processed(d0, h)[k] by {
        if h != handle {
            assert(d0.dom().contains(h));
            assert(d0.remove(handle)[h] == d0[h]);
            assert(d1.remove(handle).dom().contains(h));
            assert(d1.remove(handle)[h] == d1[h]);
            assert(d1[h] == d0[h]);
        } else {
            assert(d0.dom().contains(handle));
            assert(d1.dom().contains(handle));
        }
    }
}

impl<D: RenderDevice> PipelineCache<D> {
    /// One compile attempt for a render pipeline: resolve the vertex (and
    /// optional fragment) module through the shader cache, resolve the
    /// optional layout, and ask the device for the pipeline object. Any
    /// shader resolution failure becomes the new state. When every required
    /// module is already cached and the shaders are loaded and resolved, the
    /// attempt is guaranteed to come out ready.
    fn process_render_pipeline(
        device: &mut D,
        shader_cache: &mut ShaderCache,
        layout_cache: &mut LayoutCache,
        id: usize,
        descriptor: &RenderPipelineDescriptor,
    ) -> (r: CachedPipelineState)
        requires
            old(shader_cache).wf(),
            old(layout_cache).wf(),
        ensures
            final(shader_cache).wf(),
            final(layout_cache).wf(),
            !(r is Queued),
            r is Failed ==> *final(layout_cache) == *old(layout_cache),
            r matches CachedPipelineState::Ready(p) ==> p is RenderPipeline,
            final(shader_cache).shaders@ == old(shader_cache).shaders@,
            final(shader_cache).import_path_shaders@ == old(shader_cache).import_path_shaders@,
            final(shader_cache).waiting_on_import@ == old(shader_cache).waiting_on_import@,
            forall|h: ShaderHandle, p: usize|
                final(shader_cache).data@.dom().contains(h) && #[trigger] final(shader_cache).data@[
                    h
                ].pipelines@.contains(p) ==> prior_pipelines(old(shader_cache).data@, h).contains(p)
                    || p == id,
            !old(shader_cache).shaders@.dom().contains(descriptor.vertex.shader) ==> r
                == CachedPipelineState::Failed(
                PipelineCacheError::ShaderNotLoaded(descriptor.vertex.shader),
            ),
            forall|k: Seq<u64>|
                #[trigger] old(layout_cache).layouts@.dom().contains(k) ==> final(layout_cache).layouts@.dom().contains(k) && final(layout_cache).layouts@[k] == old(layout_cache).layouts@[k],
            ({
                let vs = descriptor.vertex.shader;
                let sh = old(shader_cache).shaders@;
                let d = old(shader_cache).data@;
                sh.dom().contains(vs) && fully_resolved(sh[vs], prior_resolved(d, vs))
                    && prior_processed(d, vs).dom().contains(descriptor.vertex.shader_defs.deep_view())
                    && (match descriptor.fragment {
                    Some(f) => sh.dom().contains(f.shader) && fully_resolved(
                        sh[f.shader],
                        prior_resolved(d, f.shader),
                    ) && prior_processed(d, f.shader).dom().contains(f.shader_defs.deep_view()),
                    None => true,
                })
            }) ==> r matches CachedPipelineState::Ready(Pipeline::RenderPipeline(_)),
            (old(shader_cache).shaders@.dom().contains(descriptor.vertex.shader)
                && !fully_resolved(
                old(shader_cache).shaders@[descriptor.vertex.shader],
                prior_resolved(old(shader_cache).data@, descriptor.vertex.shader),
            )) ==> r == CachedPipelineState::Failed(
                PipelineCacheError::ShaderImportNotYetAvailable,
            ),
            ({
                let vs = descriptor.vertex.shader;
                let sh = old(shader_cache).shaders@;
                let d = old(shader_cache).data@;
                sh.dom().contains(vs) && fully_resolved(sh[vs], prior_resolved(d, vs))
                    && prior_processed(d, vs).dom().contains(descriptor.vertex.shader_defs.deep_view())
                    && (match descriptor.fragment {
                    Some(f) => sh.dom().contains(f.shader) && !fully_resolved(
                        sh[f.shader],
                        prior_resolved(d, f.shader),
                    ),
                    None => false,
                })
            }) ==> r == CachedPipelineState::Failed(PipelineCacheError::ShaderImportNotYetAvailable),
            forall|h: ShaderHandle| #![trigger prior_resolved(final(shader_cache).data@, h)]
                prior_resolved(final(shader_cache).data@, h) == prior_resolved(
                    old(shader_cache).data@,
                    h,
                ),
            forall|h: ShaderHandle, k: Seq<Seq<char>>|
                #[trigger] prior_processed(old(shader_cache).data@, h).dom().contains(k)
                    ==> prior_processed(final(shader_cache).data@, h).dom().contains(k)
                    && prior_processed(final(shader_cache).data@, h)[k] == prior_processed(
                    old(shader_cache).data@,
                    h,
                )[k],
    {
        let ghost d0 = shader_cache.data@;
        let ghost vs = descriptor.vertex.shader;
        let vertex_module = match shader_cache.get(
            device,
            id,
            descriptor.vertex.shader,
            &descriptor.vertex.shader_defs,
        ) {
            Ok(module) => module,
            Err(err) => {
                proof {
                    lemma_pipelines_bound(d0, shader_cache.data@, vs, id);
                    lemma_data_preserved(d0, shader_cache.data@, vs);
                }
                return CachedPipelineState::Failed(err);
            },
        };
        let ghost d1 = shader_cache.data@;
        proof {
            lemma_pipelines_bound(d0, d1, vs, id);
            lemma_data_preserved(d0, d1, vs);
        }
        let fragment_module = match &descriptor.fragment {
            Some(fragment) => {
                match shader_cache.get(device, id, fragment.shader, &fragment.shader_defs) {
                    Ok(module) => {
                        proof {
                            lemma_pipelines_bound(d1, shader_cache.data@, fragment.shader, id);
                            lemma_data_preserved(d1, shader_cache.data@, fragment.shader);
                            assert forall|h: ShaderHandle| #![trigger prior_resolved(shader_cache.data@, h)]
                                prior_resolved(shader_cache.data@, h) == prior_resolved(
                                    d0,
                                    h,
                                ) by {
                                assert(prior_resolved(shader_cache.data@, h) == prior_resolved(
                                    d1,
                                    h,
                                ));
                            }
                            assert forall|h: ShaderHandle, k: Seq<Seq<char>>|
                                #[trigger] prior_processed(d0, h).dom().contains(
                                    k,
                                ) implies prior_processed(shader_cache.data@, h).dom().contains(k)
                                && prior_processed(shader_cache.data@, h)[k] == prior_processed(
                                d0,
                                h,
                            )[k] by {
                                assert(prior_processed(d1, h).dom().contains(k));
                            }
                        }
                        Some(module)
                    },
                    Err(err) => {
                        proof {
                            let fs = fragment.shader;
                            lemma_pipelines_bound(d1, shader_cache.data@, fs, id);
                            lemma_data_preserved(d1, shader_cache.data@, fs);
                            assert forall|h: ShaderHandle| #![trigger prior_resolved(shader_cache.data@, h)]
                                prior_resolved(shader_cache.data@, h) == prior_resolved(
                                    d0,
                                    h,
                                ) by {
                                assert(prior_resolved(shader_cache.data@, h) == prior_resolved(
                                    d1,
                                    h,
                                ));
                            }
                            assert forall|h: ShaderHandle, k: Seq<Seq<char>>|
                                #[trigger] prior_processed(d0, h).dom().contains(
                                    k,
                                ) implies prior_processed(shader_cache.data@, h).dom().contains(k)
                                && prior_processed(shader_cache.data@, h)[k] == prior_processed(
                                d0,
                                h,
                            )[k] by {
                                assert(prior_processed(d1, h).dom().contains(k));
                            }
                            assert(prior_resolved(d1, fs) == prior_resolved(d0, fs));
                            assert forall|h: ShaderHandle, p: usize|
                                shader_cache.data@.dom().contains(h)
                                    && #[trigger] shader_cache.data@[h].pipelines@.contains(
                                    p,
                                ) implies prior_pipelines(d0, h).contains(p) || p == id by {
                                if prior_pipelines(d1, h).contains(p) {
                                    assert(d1.dom().contains(h));
                                    assert(d1[h].pipelines@.contains(p));
                                }
                            }
                            if fs != vs {
                                if d0.dom().contains(fs) {
                                    assert(d1.remove(vs)[fs] == d1[fs]);
                                    assert(d0.remove(vs)[fs] == d0[fs]);
                                    assert(d0.remove(vs).dom().contains(fs));
                                }
                                if d1.dom().contains(fs) {
                                    assert(d1.remove(vs).dom().contains(fs));
                                    assert(d1.remove(vs)[fs] == d1[fs]);
                                    assert(d0.remove(vs)[fs] == d0[fs]);
                                }
                                assert(prior_resolved(d1, fs) == prior_resolved(d0, fs));
                                assert(prior_processed(d1, fs) == prior_processed(d0, fs));
                            }
                        }
                        return CachedPipelineState::Failed(err);
                    },
                }
            },
            None => None,
        };
        proof {
            assert forall|h: ShaderHandle, p: usize|
                shader_cache.data@.dom().contains(h) && #[trigger] shader_cache.data@[
                    h
                ].pipelines@.contains(p) implies prior_pipelines(d0, h).contains(p) || p == id by {
                if prior_pipelines(d1, h).contains(p) {
                    assert(d1.dom().contains(h));
                    assert(d1[h].pipelines@.contains(p));
                }
            }
        }
        let layout = match &descriptor.layout {
            Some(layout_ids) => Some(layout_cache.get(device, layout_ids)),
            None => None,
        };
        let pipeline = device.create_render_pipeline(descriptor, vertex_module, fragment_module, layout);
        CachedPipelineState::Ready(Pipeline::RenderPipeline(RenderPipeline { id: pipeline }))
    }

    /// One compile attempt for a compute pipeline: resolve the module and
    /// the optional layout, then ask the device for the pipeline object.
    fn process_compute_pipeline(
        device: &mut D,
        shader_cache: &mut ShaderCache,
        layout_cache: &mut LayoutCache,
        id: usize,
        descriptor: &ComputePipelineDescriptor,
    ) -> (r: CachedPipelineState)
        requires
            old(shader_cache).wf(),
            old(layout_cache).wf(),
        ensures
            final(shader_cache).wf(),
            final(layout_cache).wf(),
            !(r is Queued),
            r is Failed ==> *final(layout_cache) == *old(layout_cache),
            r matches CachedPipelineState::Ready(p) ==> p is ComputePipeline,
            final(shader_cache).shaders@ == old(shader_cache).shaders@,
            final(shader_cache).import_path_shaders@ == old(shader_cache).import_path_shaders@,
            final(shader_cache).waiting_on_import@ == old(shader_cache).waiting_on_import@,
            forall|h: ShaderHandle, p: usize|
                final(shader_cache).data@.dom().contains(h) && #[trigger] final(shader_cache).data@[
                    h
                ].pipelines@.contains(p) ==> prior_pipelines(old(shader_cache).data@, h).contains(p)
                    || p == id,
            !old(shader_cache).shaders@.dom().contains(descriptor.shader) ==> r
                == CachedPipelineState::Failed(
                PipelineCacheError::ShaderNotLoaded(descriptor.shader),
            ),
            forall|k: Seq<u64>|
                #[trigger] old(layout_cache).layouts@.dom().contains(k) ==> final(layout_cache).layouts@.dom().contains(k) && final(layout_cache).layouts@[k] == old(layout_cache).layouts@[k],
            ({
                let sh = old(shader_cache).shaders@;
                let d = old(shader_cache).data@;
                sh.dom().contains(descriptor.shader) && fully_resolved(
                    sh[descriptor.shader],
                    prior_resolved(d, descriptor.shader),
                ) && prior_processed(d, descriptor.shader).dom().contains(
                    descriptor.shader_defs.deep_view(),
                )
            }) ==> r matches CachedPipelineState::Ready(Pipeline::ComputePipeline(_)),
            (old(shader_cache).shaders@.dom().contains(descriptor.shader) && !fully_resolved(
                old(shader_cache).shaders@[descriptor.shader],
                prior_resolved(old(shader_cache).data@, descriptor.shader),
            )) ==> r == CachedPipelineState::Failed(
                PipelineCacheError::ShaderImportNotYetAvailable,
            ),
            forall|h: ShaderHandle| #![trigger prior_resolved(final(shader_cache).data@, h)]
                prior_resolved(final(shader_cache).data@, h) == prior_resolved(
                    old(shader_cache).data@,
                    h,
                ),
            forall|h: ShaderHandle, k: Seq<Seq<char>>|
                #[trigger] prior_processed(old(shader_cache).data@, h).dom().contains(k)
                    ==> prior_processed(final(shader_cache).data@, h).dom().contains(k)
                    && prior_processed(final(shader_cache).data@, h)[k] == prior_processed(
                    old(shader_cache).data@,
                    h,
                )[k],
    {
        let ghost d0 = shader_cache.data@;
        let compute_module = match shader_cache.get(
            device,
            id,
            descriptor.shader,
            &descriptor.shader_defs,
        ) {
            Ok(module) => module,
            Err(err) => {
                proof {
                    lemma_pipelines_bound(d0, shader_cache.data@, descriptor.shader, id);
                    lemma_data_preserved(d0, shader_cache.data@, descriptor.shader);
                }
                return CachedPipelineState::Failed(err);
            },
        };
        proof {
            lemma_pipelines_bound(d0, shader_cache.data@, descriptor.shader, id);
            lemma_data_preserved(d0, shader_cache.data@, descriptor.shader);
        }
        let layout = match &descriptor.layout {
            Some(layout_ids) => Some(layout_cache.get(device, layout_ids)),
            None => None,
        };
        let pipeline = device.create_compute_pipeline(descriptor, compute_module, layout);
        CachedPipelineState::Ready(Pipeline::ComputePipeline(ComputePipeline { id: pipeline }))
    }

    /// One queue-drain pass, intended to run once per scheduling tick.
    ///
    /// Every pipeline on the work-queue is classified: ready ones and
    /// terminally failed ones are left as they are and leave the queue;
    /// queued ones and retryably failed ones get a compile attempt. A failed
    /// attempt puts the id back on the queue for the next pass, so transient
    /// failures heal on their own; descriptors and ready pipelines are never
    /// changed.
    pub fn process_queue(&mut self)
        requires
            old(self).wf(),
        ensures
            final(self).wf(),
            final(self).pipelines@.len() == old(self).pipelines@.len(),
            forall|i: int|
                0 <= i < final(self).pipelines@.len() ==> (#[trigger] final(self).pipelines@[
                    i
                ]).descriptor == old(self).pipelines@[i].descriptor,
            forall|id: usize|
                !old(self).waiting_pipelines@.contains(id) && id < final(self).pipelines@.len()
                    ==> #[trigger] final(self).pipelines@[id as int] == old(self).pipelines@[
                    id as int
                ],
            forall|id: usize|
                #[trigger] old(self).waiting_pipelines@.contains(id) ==> {
                    let before = old(self).pipelines@[id as int].state;
                    let after = final(self).pipelines@[id as int].state;
                    &&& (!should_attempt(before) ==> after == before)
                    &&& (should_attempt(before) ==> !(after is Queued))
                },
            forall|id: usize|
                #[trigger] final(self).waiting_pipelines@.contains(id) <==> (old(self).waiting_pipelines@.contains(id) && should_attempt(
                    old(self).pipelines@[id as int].state,
                ) && final(self).pipelines@[id as int].state is Failed),
            (forall|id: usize|
                #[trigger] old(self).waiting_pipelines@.contains(id) ==> !should_attempt(
                    old(self).pipelines@[id as int].state,
                )) ==> final(self).shader_cache == old(self).shader_cache && final(self).layout_cache == old(self).layout_cache && final(self).device == old(self).device,
            forall|id: usize|
                #[trigger] old(self).waiting_pipelines@.contains(id) && should_attempt(
                    old(self).pipelines@[id as int].state,
                ) ==> {
                    let d = old(self).pipelines@[id as int].descriptor;
                    &&& (modules_ready(old(self).shader_cache, d) ==> ready_state_matches(
                        d,
                        final(self).pipelines@[id as int].state,
                    ) && !final(self).waiting_pipelines@.contains(id))
                    &&& (!old(self).shader_cache.shaders@.dom().contains(lead_shader(d))
                        ==> final(self).pipelines@[id as int].state
                        == CachedPipelineState::Failed(
                        PipelineCacheError::ShaderNotLoaded(lead_shader(d)),
                    ) && final(self).waiting_pipelines@.contains(id))
                },
    {
        let mut waiting: IdSet<usize> = IdSet::new();
        core::mem::swap(&mut waiting, &mut self.waiting_pipelines);
        let n = waiting.len();
        for idx in 0..n
            invariant
                self.wf(),
                n == waiting.elems().len(),
                waiting.wf(),
                waiting@ == old(self).waiting_pipelines@,
                forall|id: usize| #[trigger] waiting@.contains(id) ==> id < self.pipelines@.len(),
                self.pipelines@.len() == old(self).pipelines@.len(),
                forall|i: int|
                    0 <= i < self.pipelines@.len() ==> (#[trigger] self.pipelines@[i]).descriptor
                        == old(self).pipelines@[i].descriptor,
                forall|id: usize|
                    !waiting@.contains(id) && id < self.pipelines@.len()
                        ==> #[trigger] self.pipelines@[id as int] == old(self).pipelines@[
                        id as int
                    ],
                forall|j: int|
                    idx <= j < n ==> self.pipelines@[#[trigger] waiting.elems()[j] as int] == old(self).pipelines@[waiting.elems()[j] as int],
                self.shader_cache.shaders@ == old(self).shader_cache.shaders@,
                forall|h: ShaderHandle| #![trigger prior_resolved(self.shader_cache.data@, h)]
                    prior_resolved(self.shader_cache.data@, h) == prior_resolved(
                        old(self).shader_cache.data@,
                        h,
                    ),
                forall|h: ShaderHandle, k: Seq<Seq<char>>|
                    #[trigger] prior_processed(old(self).shader_cache.data@, h).dom().contains(k)
                        ==> prior_processed(self.shader_cache.data@, h).dom().contains(k)
                        && prior_processed(self.shader_cache.data@, h)[k] == prior_processed(
                        old(self).shader_cache.data@,
                        h,
                    )[k],
                forall|j: int|
                    0 <= j < idx ==> {
                        let id = #[trigger] waiting.elems()[j];
                        let before = old(self).pipelines@[id as int].state;
                        let after = self.pipelines@[id as int].state;
                        let d = old(self).pipelines@[id as int].descriptor;
                        &&& (!should_attempt(before) ==> after == before)
                        &&& (should_attempt(before) ==> !(after is Queued))
                        &&& (should_attempt(before) && modules_ready(old(self).shader_cache, d)
                            ==> ready_state_matches(d, after))
                        &&& (should_attempt(before)
                            && !old(self).shader_cache.shaders@.dom().contains(lead_shader(d))
                            ==> after == CachedPipelineState::Failed(
                            PipelineCacheError::ShaderNotLoaded(lead_shader(d)),
                        ))
                    },
                forall|id: usize|
                    #[trigger] self.waiting_pipelines@.contains(id) <==> exists|j: int|
                        0 <= j < idx && #[trigger] waiting.elems()[j] == id && should_attempt(
                            old(self).pipelines@[id as int].state,
                        ) && self.pipelines@[id as int].state is Failed,
                (forall|j: int|
                    0 <= j < idx ==> !should_attempt(
                        old(self).pipelines@[#[trigger] waiting.elems()[j] as int].state,
                    )) ==> self.shader_cache == old(self).shader_cache && self.layout_cache == old(self).layout_cache && self.device == old(self).device,
        {
            let id = waiting.index(idx);
            proof {
                waiting.lemma_view_elems();
            }
            let ghost wp_pre = self.waiting_pipelines@;
            let ghost pipes_pre = self.pipelines@;
            let attempt = match &self.pipelines[id].state {
                CachedPipelineState::Ready(_) => false,
                CachedPipelineState::Queued => true,
                CachedPipelineState::Failed(err) => err.is_retryable(),
            };
            proof {
                assert(self.pipelines@[id as int] == old(self).pipelines@[id as int]);
                assert(attempt == should_attempt(old(self).pipelines@[id as int].state));
                waiting.lemma_elems_distinct();
                assert forall|j: int| 0 <= j < waiting.elems().len() && j != idx implies waiting.elems()[j]
                    != id by {
                    assert(waiting.elems()[j].deep_view() != waiting.elems()[idx as int].deep_view());
                }
            }
            let mut failed = false;
            if attempt {
                let ghost sc_pre = self.shader_cache;
                let ghost old_desc = old(self).pipelines@[id as int].descriptor;
                let new_state = match &self.pipelines[id].descriptor {
                    PipelineDescriptor::RenderPipelineDescriptor(descriptor) => {
                        proof {
                            assert(old_desc == PipelineDescriptor::RenderPipelineDescriptor(
                                *descriptor,
                            ));
                        }
                        let st = Self::process_render_pipeline(
                            &mut self.device,
                            &mut self.shader_cache,
                            &mut self.layout_cache,
                            id,
                            descriptor,
                        );
                        proof {
                            if modules_ready(old(self).shader_cache, old_desc) {
                                assert(stage_ready(
                                    old(self).shader_cache,
                                    descriptor.vertex.shader,
                                    descriptor.vertex.shader_defs.deep_view(),
                                ));
                                assert(prior_resolved(sc_pre.data@, descriptor.vertex.shader)
                                    == prior_resolved(
                                    old(self).shader_cache.data@,
                                    descriptor.vertex.shader,
                                ));
                                assert(stage_ready(
                                    sc_pre,
                                    descriptor.vertex.shader,
                                    descriptor.vertex.shader_defs.deep_view(),
                                ));
                                match &descriptor.fragment {
                                    Some(f) => {
                                        assert(prior_resolved(sc_pre.data@, f.shader)
                                            == prior_resolved(
                                            old(self).shader_cache.data@,
                                            f.shader,
                                        ));
                                        assert(stage_ready(
                                            sc_pre,
                                            f.shader,
                                            f.shader_defs.deep_view(),
                                        ));
                                    },
                                    None => {},
                                }
                                assert(ready_state_matches(old_desc, st));
                            }
                            if !old(self).shader_cache.shaders@.dom().contains(
                                lead_shader(old_desc),
                            ) {
                                assert(st == CachedPipelineState::Failed(
                                    PipelineCacheError::ShaderNotLoaded(lead_shader(old_desc)),
                                ));
                            }
                            assert forall|h: ShaderHandle| #![trigger prior_resolved(self.shader_cache.data@, h)]
                                prior_resolved(self.shader_cache.data@, h) == prior_resolved(
                                    old(self).shader_cache.data@,
                                    h,
                                ) by {
                                assert(prior_resolved(self.shader_cache.data@, h)
                                    == prior_resolved(sc_pre.data@, h));
                            }
                            assert forall|h: ShaderHandle, k: Seq<Seq<char>>|
                                #[trigger] prior_processed(
                                    old(self).shader_cache.data@,
                                    h,
                                ).dom().contains(k) implies prior_processed(
                                self.shader_cache.data@,
                                h,
                            ).dom().contains(k) && prior_processed(self.shader_cache.data@, h)[k]
                                == prior_processed(old(self).shader_cache.data@, h)[k] by {
                                assert(prior_processed(sc_pre.data@, h).dom().contains(k));
                            }
                        }
                        st
                    },
                    PipelineDescriptor::ComputePipelineDescriptor(descriptor) => {
                        proof {
                            assert(old_desc == PipelineDescriptor::ComputePipelineDescriptor(
                                *descriptor,
                            ));
                        }
                        let st = Self::process_compute_pipeline(
                            &mut self.device,
                            &mut self.shader_cache,
                            &mut self.layout_cache,
                            id,
                            descriptor,
                        );
                        proof {
                            if modules_ready(old(self).shader_cache, old_desc) {
                                assert(prior_resolved(sc_pre.data@, descriptor.shader)
                                    == prior_resolved(
                                    old(self).shader_cache.data@,
                                    descriptor.shader,
                                ));
                                assert(stage_ready(
                                    sc_pre,
                                    descriptor.shader,
                                    descriptor.shader_defs.deep_view(),
                                ));
                                assert(ready_state_matches(old_desc, st));
                            }
                            if !old(self).shader_cache.shaders@.dom().contains(
                                lead_shader(old_desc),
                            ) {
                                assert(st == CachedPipelineState::Failed(
                                    PipelineCacheError::ShaderNotLoaded(lead_shader(old_desc)),
                                ));
                            }
                            assert forall|h: ShaderHandle| #![trigger prior_resolved(self.shader_cache.data@, h)]
                                prior_resolved(self.shader_cache.data@, h) == prior_resolved(
                                    old(self).shader_cache.data@,
                                    h,
                                ) by {
                                assert(prior_resolved(self.shader_cache.data@, h)
                                    == prior_resolved(sc_pre.data@, h));
                            }
                            assert forall|h: ShaderHandle, k: Seq<Seq<char>>|
                                #[trigger] prior_processed(
                                    old(self).shader_cache.data@,
                                    h,
                                ).dom().contains(k) implies prior_processed(
                                self.shader_cache.data@,
                                h,
                            ).dom().contains(k) && prior_processed(self.shader_cache.data@, h)[k]
                                == prior_processed(old(self).shader_cache.data@, h)[k] by {
                                assert(prior_processed(sc_pre.data@, h).dom().contains(k));
                            }
                        }
                        st
                    },
                };
                failed = match &new_state {
                    CachedPipelineState::Failed(_) => true,
                    _ => false,
                };
                let ghost pre = self.pipelines@;
                let mut record = self.pipelines.remove(id);
                record.state = new_state;
                self.pipelines.insert(id, record);
                proof {
                    assert(self.pipelines@ =~= pre.update(
                        id as int,
                        CachedPipeline {
                            descriptor: pre[id as int].descriptor,
                            state: self.pipelines@[id as int].state,
                        },
                    ));
                }
                if failed {
                    self.waiting_pipelines.insert(id);
                }
            }
            proof {
                assert forall|id2: usize| #[trigger]
                    self.waiting_pipelines@.contains(id2) implies exists|j: int|
                    0 <= j < idx + 1 && #[trigger] waiting.elems()[j] == id2 && should_attempt(
                        old(self).pipelines@[id2 as int].state,
                    ) && self.pipelines@[id2 as int].state is Failed by {
                    if id2 == id {
                        if attempt && failed {
                            assert(waiting.elems()[idx as int] == id2);
                        } else {
                            assert(wp_pre.contains(id2));
                            let j = choose|j: int|
                                0 <= j < idx && #[trigger] waiting.elems()[j] == id2
                                    && should_attempt(old(self).pipelines@[id2 as int].state)
                                    && pipes_pre[id2 as int].state is Failed;
                            assert(waiting.elems()[j] == waiting.elems()[idx as int]);
                            assert(false);
                        }
                    } else {
                        assert(wp_pre.contains(id2));
                        let j = choose|j: int|
                            0 <= j < idx && #[trigger] waiting.elems()[j] == id2 && should_attempt(
                                old(self).pipelines@[id2 as int].state,
                            ) && pipes_pre[id2 as int].state is Failed;
                        assert(waiting.elems()[j] == id2);
                        assert(self.pipelines@[id2 as int] == pipes_pre[id2 as int]);
                        assert(self.pipelines@[id2 as int].state is Failed);
                    }
                }
                assert forall|id2: usize|
                    (exists|j: int|
                        0 <= j < idx + 1 && #[trigger] waiting.elems()[j] == id2 && should_attempt(
                            old(self).pipelines@[id2 as int].state,
                        ) && self.pipelines@[id2 as int].state is Failed) implies #[trigger] self.waiting_pipelines@.contains(
                    id2,
                ) by {
                    let j = choose|j: int|
                        0 <= j < idx + 1 && #[trigger] waiting.elems()[j] == id2 && should_attempt(
                            old(self).pipelines@[id2 as int].state,
                        ) && self.pipelines@[id2 as int].state is Failed;
                    if j == idx {
                        assert(id2 == id);
                        assert(attempt);
                        assert(failed);
                    } else {
                        assert(waiting.elems()[j] == id2);
                        assert(id2 != id);
                        assert(self.pipelines@[id2 as int] == pipes_pre[id2 as int]);
                        assert(pipes_pre[id2 as int].state is Failed);
                        assert(wp_pre.contains(id2));
                    }
                }
            }
        }
        proof {
            waiting.lemma_view_elems();
            if forall|id: usize|
                #[trigger] old(self).waiting_pipelines@.contains(id) ==> !should_attempt(
                    old(self).pipelines@[id as int].state,
                ) {
                assert forall|j: int| 0 <= j < waiting.elems().len() implies !should_attempt(
                    old(self).pipelines@[#[trigger] waiting.elems()[j] as int].state,
                ) by {
                    assert(waiting@.contains(waiting.elems()[j].deep_view()));
                }
            }
            assert forall|id: usize| #[trigger]
                old(self).waiting_pipelines@.contains(id) implies {
                let before = old(self).pipelines@[id as int].state;
                let after = self.pipelines@[id as int].state;
                &&& (!should_attempt(before) ==> after == before)
                &&& (should_attempt(before) ==> !(after is Queued))
            } by {
                let j = choose|j: int|
                    0 <= j < waiting.elems().len() && waiting.elems()[j].deep_view() == id;
                assert(waiting.elems()[j] == id);
            }
            assert forall|id: usize| #[trigger]
                final(self).waiting_pipelines@.contains(id) <==> (old(self).waiting_pipelines@.contains(id) && should_attempt(
                old(self).pipelines@[id as int].state,
            ) && final(self).pipelines@[id as int].state is Failed) by {
                if final(self).waiting_pipelines@.contains(id) {
                    let j = choose|j: int|
                        0 <= j < n && #[trigger] waiting.elems()[j] == id && should_attempt(
                            old(self).pipelines@[id as int].state,
                        ) && self.pipelines@[id as int].state is Failed;
                    assert(waiting@.contains(waiting.elems()[j].deep_view()));
                }
                if old(self).waiting_pipelines@.contains(id) && should_attempt(
                    old(self).pipelines@[id as int].state,
                ) && final(self).pipelines@[id as int].state is Failed {
                    let j = choose|j: int|
                        0 <= j < waiting.elems().len() && waiting.elems()[j].deep_view() == id;
                    assert(waiting.elems()[j] == id);
                }
            }
            assert forall|id: usize|
                #[trigger] old(self).waiting_pipelines@.contains(id) && should_attempt(
                    old(self).pipelines@[id as int].state,
                ) implies {
                let d = old(self).pipelines@[id as int].descriptor;
                &&& (modules_ready(old(self).shader_cache, d) ==> ready_state_matches(
                    d,
                    final(self).pipelines@[id as int].state,
                ) && !final(self).waiting_pipelines@.contains(id))
                &&& (!old(self).shader_cache.shaders@.dom().contains(lead_shader(d)) ==> final(self).pipelines@[id as int].state == CachedPipelineState::Failed(
                    PipelineCacheError::ShaderNotLoaded(lead_shader(d)),
                ) && final(self).waiting_pipelines@.contains(id))
            } by {
                let j = choose|j: int|
                    0 <= j < waiting.elems().len() && waiting.elems()[j].deep_view() == id;
                assert(waiting.elems()[j] == id);
                let d = old(self).pipelines@[id as int].descriptor;
                if modules_ready(old(self).shader_cache, d) {
                    assert(ready_state_matches(d, final(self).pipelines@[id as int].state));
                    assert(!(final(self).pipelines@[id as int].state is Failed));
                }
                if !old(self).shader_cache.shaders@.dom().contains(lead_shader(d)) {
                    assert(final(self).pipelines@[id as int].state is Failed);
                }
            }
        }
    }
}

} // verus!
