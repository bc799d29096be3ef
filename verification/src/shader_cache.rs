//! The shader side of the cache: sources by handle, the import dependency
//! graph, and compiled-module memoization per definition set.

use vstd::prelude::*;
use crate::device::RenderDevice;
use crate::error::{module_error_to_cache_error, PipelineCacheError};
use crate::idset::IdSet;
use crate::keymap::{clone_strings, KeyMap, MapKey};
use crate::shader::{count_assets, count_asset_imports, Shader, ShaderHandle, ShaderImport};

verus! {

/// Per-shader dependency bookkeeping and compiled-module cache.
pub struct ShaderData {
    /// Pipelines that referenced this shader in a compile attempt; the
    /// fan-out of an invalidation.
    pub pipelines: IdSet<usize>,
    /// Compiled modules, keyed by the exact definition list used.
    pub processed_shaders: KeyMap<Vec<String>, u64>,
    /// Which handle satisfies each already-resolved import path.
    pub resolved_imports: KeyMap<ShaderImport, ShaderHandle>,
    /// Shaders that import this one.
    pub dependents: IdSet<ShaderHandle>,
}

impl ShaderData {
    pub open spec fn wf(&self) -> bool {
        &&& self.pipelines.wf()
        &&& self.processed_shaders.wf()
        &&& self.resolved_imports.wf()
        &&& self.dependents.wf()
    }

    /// Fresh, empty bookkeeping for a first-seen shader handle.
    pub fn new() -> (r: Self)
        ensures
            r.wf(),
            r.pipelines@ == Set::<usize>::empty(),
            r.processed_shaders@ == Map::<Seq<Seq<char>>, u64>::empty(),
            r.resolved_imports@ == Map::<(bool, Seq<char>), ShaderHandle>::empty(),
            r.dependents@ == Set::<ShaderHandle>::empty(),
    {
        ShaderData {
            pipelines: IdSet::new(),
            processed_shaders: KeyMap::new(),
            resolved_imports: KeyMap::new(),
            dependents: IdSet::new(),
        }
    }
}

/// The pipelines registered against `h`, empty when `h` has no bookkeeping.
pub open spec fn prior_pipelines(data: Map<ShaderHandle, ShaderData>, h: ShaderHandle) -> Set<
    usize,
> {
    if data.dom().contains(h) {
        data[h].pipelines@
    } else {
        Set::empty()
    }
}

/// The compiled-module cache of `h`, empty when `h` has no bookkeeping.
pub open spec fn prior_processed(data: Map<ShaderHandle, ShaderData>, h: ShaderHandle) -> Map<
    Seq<Seq<char>>,
    u64,
> {
    if data.dom().contains(h) {
        data[h].processed_shaders@
    } else {
        Map::empty()
    }
}

/// The resolved imports of `h`, empty when `h` has no bookkeeping.
pub open spec fn prior_resolved(data: Map<ShaderHandle, ShaderData>, h: ShaderHandle) -> Map<
    (bool, Seq<char>),
    ShaderHandle,
> {
    if data.dom().contains(h) {
        data[h].resolved_imports@
    } else {
        Map::empty()
    }
}

/// The dependents of `h`, empty when `h` has no bookkeeping.
pub open spec fn prior_dependents(data: Map<ShaderHandle, ShaderData>, h: ShaderHandle) -> Set<
    ShaderHandle,
> {
    if data.dom().contains(h) {
        data[h].dependents@
    } else {
        Set::empty()
    }
}

/// How many distinct asset-path imports have been resolved.
pub open spec fn resolved_asset_count(resolved: Map<(bool, Seq<char>), ShaderHandle>) -> int {
    resolved.dom().filter(|k: (bool, Seq<char>)| k.0).len() as int
}

/// A shader may be compiled only once its declared asset-path import count
/// equals its resolved asset-path import count.
pub open spec fn fully_resolved(shader: Shader, resolved: Map<(bool, Seq<char>), ShaderHandle>) -> bool {
    count_assets(shader.imports.deep_view()) == resolved_asset_count(resolved)
}

proof fn lemma_count_distinct_seq_set(s: Seq<(bool, Seq<char>)>)
    requires
        forall|i: int, j: int| 0 <= i < j < s.len() ==> s[i] != s[j],
    ensures
        s.to_set().finite(),
        count_assets(s) == s.to_set().filter(|k: (bool, Seq<char>)| k.0).len(),
    decreases s.len(),
{
    let pred = |k: (bool, Seq<char>)| k.0;
    if s.len() == 0 {
        assert(s.to_set() =~= Set::<(bool, Seq<char>)>::empty());
        assert(s.to_set().filter(pred) =~= Set::<(bool, Seq<char>)>::empty());
    } else {
        let d = s.drop_last();
        lemma_count_distinct_seq_set(d);
        assert(!d.contains(s.last())) by {
            if d.contains(s.last()) {
                let i = choose|i: int| 0 <= i < d.len() && d[i] == s.last();
                assert(s[i] == s[s.len() - 1]);
            }
        }
        assert(s.to_set() =~= d.to_set().insert(s.last())) by {
            assert forall|k: (bool, Seq<char>)| #[trigger]
                s.to_set().contains(k) implies d.to_set().insert(s.last()).contains(k) by {
                let i = choose|i: int| 0 <= i < s.len() && s[i] == k;
                if i < s.len() - 1 {
                    assert(d[i] == k);
                }
            }
            assert forall|k: (bool, Seq<char>)| #[trigger]
                d.to_set().insert(s.last()).contains(k) implies s.to_set().contains(k) by {
                if d.to_set().contains(k) {
                    let i = choose|i: int| 0 <= i < d.len() && d[i] == k;
                    assert(s[i] == k);
                } else {
                    assert(s[s.len() - 1] == k);
                }
            }
        }
        if s.last().0 {
            assert(s.to_set().filter(pred) =~= d.to_set().filter(pred).insert(s.last()));
            assert(!d.to_set().filter(pred).contains(s.last()));
        } else {
            assert(s.to_set().filter(pred) =~= d.to_set().filter(pred));
        }
    }
}

/// Counts the asset-path imports already resolved for a shader.
fn count_resolved_assets(m: &KeyMap<ShaderImport, ShaderHandle>) -> (r: usize)
    requires
        m.wf(),
    ensures
        r == resolved_asset_count(m@),
{
    proof {
        m.lemma_key_seq();
        lemma_count_distinct_seq_set(m.key_seq());
        assert(m.key_seq().to_set() =~= m@.dom());
        assert(m.key_seq().take(0) =~= Seq::<(bool, Seq<char>)>::empty());
    }
    let n = m.len();
    let mut r: usize = 0;
    for i in 0..n
        invariant
            n == m.key_seq().len(),
            r == count_assets(m.key_seq().take(i as int)),
            r <= i,
    {
        proof {
            crate::shader::lemma_count_assets_step(m.key_seq(), i as int);
        }
        if m.key_at(i).is_asset_path() {
            r = r + 1;
        }
    }
    proof {
        assert(m.key_seq().take(n as int) =~= m.key_seq());
    }
    r
}

/// Sources, dependency records, the import-path table, and the lists of
/// shaders blocked on a not-yet-registered import path.
pub struct ShaderCache {
    pub data: KeyMap<ShaderHandle, ShaderData>,
    pub shaders: KeyMap<ShaderHandle, Shader>,
    pub import_path_shaders: KeyMap<ShaderImport, ShaderHandle>,
    pub waiting_on_import: KeyMap<ShaderImport, Vec<ShaderHandle>>,
}

impl ShaderCache {
    pub open spec fn wf(&self) -> bool {
        &&& self.data.wf()
        &&& self.shaders.wf()
        &&& self.import_path_shaders.wf()
        &&& self.waiting_on_import.wf()
        &&& forall|h: ShaderHandle|
            self.data@.dom().contains(h) ==> (#[trigger] self.data@[h]).wf()
    }

    /// An empty cache.
    pub fn new() -> (r: Self)
        ensures
            r.wf(),
            r.data@ == Map::<ShaderHandle, ShaderData>::empty(),
            r.shaders@ == Map::<ShaderHandle, Shader>::empty(),
            r.import_path_shaders@ == Map::<(bool, Seq<char>), ShaderHandle>::empty(),
            r.waiting_on_import@ == Map::<(bool, Seq<char>), Vec<ShaderHandle>>::empty(),
    {
        ShaderCache {
            data: KeyMap::new(),
            shaders: KeyMap::new(),
            import_path_shaders: KeyMap::new(),
            waiting_on_import: KeyMap::new(),
        }
    }

    /// Resolves the compiled module for `(handle, shader_defs)` on behalf of
    /// pipeline `pipeline`, compiling through the device on a miss.
    ///
    /// The pipeline is registered as a dependent of the shader whenever the
    /// shader is loaded and fully resolved, so that a later source change
    /// requeues it. The module cache is keyed by the definition list exactly
    /// as given; two different definition lists never share an entry.
    pub fn get<D: RenderDevice>(
        &mut self,
        device: &mut D,
        pipeline: usize,
        handle: ShaderHandle,
        shader_defs: &Vec<String>,
    ) -> (r: Result<u64, PipelineCacheError>)
        requires
            old(self).wf(),
        ensures
            final(self).wf(),
            final(self).shaders@ == old(self).shaders@,
            final(self).import_path_shaders@ == old(self).import_path_shaders@,
            final(self).waiting_on_import@ == old(self).waiting_on_import@,
            final(self).data@.remove(handle) == old(self).data@.remove(handle),
            !(old(self).shaders@.dom().contains(handle) && fully_resolved(
                old(self).shaders@[handle],
                prior_resolved(old(self).data@, handle),
            ) && !prior_processed(old(self).data@, handle).dom().contains(
                shader_defs.deep_view(),
            )) ==> *final(device) == *old(device),
            !old(self).shaders@.dom().contains(handle) ==> r == Err::<u64, PipelineCacheError>(
                PipelineCacheError::ShaderNotLoaded(handle),
            ) && final(self).data@ == old(self).data@,
            old(self).shaders@.dom().contains(handle) ==> {
                let shader = old(self).shaders@[handle];
                let nsd = final(self).data@[handle];
                let defs = shader_defs.deep_view();
                let was_processed = prior_processed(old(self).data@, handle);
                &&& final(self).data@.dom().contains(handle)
                &&& nsd.resolved_imports@ == prior_resolved(old(self).data@, handle)
                &&& nsd.dependents@ == prior_dependents(old(self).data@, handle)
                &&& !(r matches Err(PipelineCacheError::ShaderNotLoaded(_)))
                &&& ((r matches Err(PipelineCacheError::ShaderImportNotYetAvailable))
                    <==> !fully_resolved(shader, nsd.resolved_imports@))
                &&& (!fully_resolved(shader, nsd.resolved_imports@) ==> nsd.pipelines@
                    == prior_pipelines(old(self).data@, handle) && nsd.processed_shaders@
                    == was_processed)
                &&& (fully_resolved(shader, nsd.resolved_imports@) ==> {
                    &&& nsd.pipelines@ == prior_pipelines(old(self).data@, handle).insert(
                        pipeline,
                    )
                    &&& (was_processed.dom().contains(defs) ==> r == Ok::<
                        u64,
                        PipelineCacheError,
                    >(was_processed[defs]) && nsd.processed_shaders@ == was_processed)
                    &&& (!was_processed.dom().contains(defs) ==> match r {
                        Ok(m) => nsd.processed_shaders@ == was_processed.insert(defs, m),
                        Err(e) => !e.spec_is_retryable() && nsd.processed_shaders@
                            == was_processed,
                    })
                })
            },
    {
        let shader = match self.shaders.get(&handle) {
            Some(s) => s,
            None => {
                return Err(PipelineCacheError::ShaderNotLoaded(handle));
            },
        };
        let mut data = match self.data.remove_key(&handle) {
            Some(d) => d,
            None => ShaderData::new(),
        };
        let declared = count_asset_imports(&shader.imports);
        let resolved = count_resolved_assets(&data.resolved_imports);
        if declared != resolved {
            self.data.insert(handle, data);
            proof {
                assert(final(self).data@.remove(handle) =~= old(self).data@.remove(handle));
            }
            return Err(PipelineCacheError::ShaderImportNotYetAvailable);
        }
        data.pipelines.insert(pipeline);
        let cached = match data.processed_shaders.get(shader_defs) {
            Some(m) => Some(*m),
            None => None,
        };
        let result = match cached {
            Some(m) => Ok(m),
            None => {
                let mut augmented = clone_strings(shader_defs);
                if !device.supports_read_only_storage_buffers(3) {
                    augmented.push("NO_STORAGE_BUFFERS_SUPPORT".to_owned());
                }
                match device.compile_shader_module(
                    shader,
                    &augmented,
                    &self.shaders,
                    &self.import_path_shaders,
                ) {
                    Ok(module) => {
                        data.processed_shaders.insert(shader_defs.key_clone(), module);
                        Ok(module)
                    },
                    Err(e) => Err(module_error_to_cache_error(e)),
                }
            },
        };
        self.data.insert(handle, data);
        proof {
            assert(final(self).data@.remove(handle) =~= old(self).data@.remove(handle));
        }
        result
    }
}


/// A set of shaders closed under the dependents relation: anything that
/// imports a member, directly or transitively, is a member.
pub open spec fn closed_under_dependents(
    data: Map<ShaderHandle, ShaderData>,
    s: Set<ShaderHandle>,
) -> bool {
    forall|h: ShaderHandle, d: ShaderHandle|
        #[trigger] s.contains(h) && data.dom().contains(h) && #[trigger] data[
            h
        ].dependents@.contains(d) && data.dom().contains(d) ==> s.contains(d)
}

/// The set of shaders a change to `start` invalidates: the least
/// dependents-closed set containing `start`.
pub open spec fn is_invalidation_set(
    data: Map<ShaderHandle, ShaderData>,
    start: ShaderHandle,
    s: Set<ShaderHandle>,
) -> bool {
    &&& s.contains(start)
    &&& closed_under_dependents(data, s)
    &&& forall|s2: Set<ShaderHandle>|
        s2.contains(start) && #[trigger] closed_under_dependents(data, s2) ==> s.subset_of(s2)
}

/// Every pipeline id registered against any shader of `s`.
pub open spec fn pipelines_of(data: Map<ShaderHandle, ShaderData>, s: Set<ShaderHandle>) -> Set<
    usize,
> {
    Set::new(
        |p: usize|
            exists|h: ShaderHandle|
                #[trigger] s.contains(h) && data.dom().contains(h) && data[h].pipelines@.contains(
                    p,
                ),
    )
}

impl ShaderCache {
    /// Walks the dependents graph from `handle`, wiping the compiled-module
    /// cache of every reached shader, and collects the pipeline ids
    /// registered against them, without duplicates.
    fn clear(&mut self, handle: ShaderHandle) -> (r: (Vec<usize>, Ghost<Set<ShaderHandle>>))
        requires
            old(self).wf(),
        ensures
            final(self).wf(),
            final(self).shaders@ == old(self).shaders@,
            final(self).import_path_shaders@ == old(self).import_path_shaders@,
            final(self).waiting_on_import@ == old(self).waiting_on_import@,
            is_invalidation_set(old(self).data@, handle, r.1@),
            r.0@.to_set() == pipelines_of(old(self).data@, r.1@),
            forall|i: int, j: int| 0 <= i < j < r.0@.len() ==> r.0@[i] != r.0@[j],
            final(self).data@.dom() == old(self).data@.dom(),
            forall|h: ShaderHandle|
                #[trigger] final(self).data@.dom().contains(h) ==> {
                    &&& final(self).data@[h].pipelines == old(self).data@[h].pipelines
                    &&& final(self).data@[h].resolved_imports == old(self).data@[h].resolved_imports
                    &&& final(self).data@[h].dependents == old(self).data@[h].dependents
                    &&& (r.1@.contains(h) ==> final(self).data@[h].processed_shaders@ == Map::<
                        Seq<Seq<char>>,
                        u64,
                    >::empty())
                    &&& (!r.1@.contains(h) ==> final(self).data@[h] == old(self).data@[h])
                },
    {
        let ghost d0 = old(self).data@;
        let ghost u = d0.dom().insert(handle);
        proof {
            self.data.lemma_dom_finite();
        }
        let mut stack: Vec<ShaderHandle> = Vec::new();
        stack.push(handle);
        proof {
            assert(stack@[0] == handle);
        }
        let mut visited: IdSet<ShaderHandle> = IdSet::new();
        let mut out: IdSet<usize> = IdSet::new();
        while stack.len() != 0
            invariant
                self.wf(),
                self.shaders@ == old(self).shaders@,
                self.import_path_shaders@ == old(self).import_path_shaders@,
                self.waiting_on_import@ == old(self).waiting_on_import@,
                self.data@.dom() == d0.dom(),
                u == d0.dom().insert(handle),
                u.finite(),
                visited.wf(),
                out.wf(),
                visited@.subset_of(u),
                forall|i: int| 0 <= i < stack@.len() ==> u.contains(#[trigger] stack@[i]),
                forall|h: ShaderHandle|
                    #[trigger] self.data@.dom().contains(h) ==> {
                        &&& self.data@[h].pipelines == d0[h].pipelines
                        &&& self.data@[h].resolved_imports == d0[h].resolved_imports
                        &&& self.data@[h].dependents == d0[h].dependents
                        &&& (visited@.contains(h) ==> self.data@[h].processed_shaders@ == Map::<
                            Seq<Seq<char>>,
                            u64,
                        >::empty())
                        &&& (!visited@.contains(h) ==> self.data@[h] == d0[h])
                    },
                forall|s2: Set<ShaderHandle>|
                    s2.contains(handle) && #[trigger] closed_under_dependents(d0, s2) ==> (
                    visited@.subset_of(s2) && forall|i: int|
                        0 <= i < stack@.len() ==> s2.contains(#[trigger] stack@[i])),
                visited@.contains(handle) || stack@.contains(handle),
                forall|h: ShaderHandle, d: ShaderHandle|
                    #[trigger] visited@.contains(h) && d0.dom().contains(h) && #[trigger] d0[
                        h
                    ].dependents@.contains(d) && d0.dom().contains(d) ==> visited@.contains(d)
                        || stack@.contains(d),
                forall|p: usize|
                    #[trigger] out@.contains(p) ==> exists|h: ShaderHandle|
                        #[trigger] visited@.contains(h) && d0.dom().contains(h) && d0[
                            h
                        ].pipelines@.contains(p),
                forall|h: ShaderHandle, p: usize|
                    #[trigger] visited@.contains(h) && d0.dom().contains(h) && #[trigger] d0[
                        h
                    ].pipelines@.contains(p) ==> out@.contains(p),
            decreases u.difference(visited@).len(), stack@.len(),
        {
            let ghost pre_stack = stack@;
            let ghost pre_visited = visited@;
            let h = stack.pop().unwrap();
            proof {
                assert(pre_stack == stack@.push(h));
                if h != handle && !visited@.contains(handle) {
                    let i = choose|i: int| 0 <= i < pre_stack.len() && pre_stack[i] == handle;
                    assert(stack@[i] == handle);
                }
                assert forall|i: int| 0 <= i < stack@.len() implies u.contains(
                    #[trigger] stack@[i],
                ) by {
                    assert(pre_stack[i] == stack@[i]);
                }
            }
            if !visited.contains(h) {
                visited.insert(h);
                proof {
                    assert(u.contains(h));
                    assert(u.difference(visited@) =~= u.difference(pre_visited).remove(h));
                    assert(u.difference(visited@).len() < u.difference(pre_visited).len());
                    assert forall|s2: Set<ShaderHandle>|
                        s2.contains(handle) && #[trigger] closed_under_dependents(
                            d0,
                            s2,
                        ) implies visited@.subset_of(s2) by {
                        assert(s2.contains(pre_stack[pre_stack.len() - 1]));
                    }
                    assert forall|p: usize| #[trigger] out@.contains(p) implies exists|
                        h2: ShaderHandle,
                    |
                        #[trigger] visited@.contains(h2) && d0.dom().contains(h2) && d0[
                            h2
                        ].pipelines@.contains(p) by {
                        let h2 = choose|h2: ShaderHandle|
                            pre_visited.contains(h2) && d0.dom().contains(h2) && d0[
                                h2
                            ].pipelines@.contains(p);
                        assert(visited@.contains(h2));
                    }
                }
                match self.data.remove_key(&h) {
                    Some(mut sd) => {
                        sd.processed_shaders = KeyMap::new();
                        let np = sd.pipelines.len();
                        for j in 0..np
                            invariant
                                np == sd.pipelines.elems().len(),
                                out.wf(),
                                sd.pipelines == d0[h].pipelines,
                                d0.dom().contains(h),
                                visited@.contains(h),
                                forall|p: usize|
                                    #[trigger] out@.contains(p) ==> exists|h2: ShaderHandle|
                                        #[trigger] visited@.contains(h2) && d0.dom().contains(h2)
                                            && d0[h2].pipelines@.contains(p),
                                forall|h2: ShaderHandle, p: usize|
                                    #[trigger] visited@.contains(h2) && h2 != h && d0.dom().contains(
                                        h2,
                                    ) && #[trigger] d0[h2].pipelines@.contains(p) ==> out@.contains(
                                        p,
                                    ),
                                forall|j2: int|
                                    0 <= j2 < j ==> out@.contains(
                                        #[trigger] sd.pipelines.elems()[j2],
                                    ),
                        {
                            let p = sd.pipelines.index(j);
                            out.insert(p);
                            proof {
                                assert(out@.contains(p));
                                assert forall|j2: int| 0 <= j2 < j + 1 implies out@.contains(
                                    #[trigger] sd.pipelines.elems()[j2],
                                ) by {}
                            }
                        }
                        proof {
                            sd.pipelines.lemma_view_elems();
                            assert forall|p: usize|
                                #[trigger] d0[h].pipelines@.contains(p) implies out@.contains(
                                p,
                            ) by {
                                let j2 = choose|j2: int|
                                    0 <= j2 < sd.pipelines.elems().len() && sd.pipelines.elems()[
                                        j2
                                    ].deep_view() == p;
                                assert(sd.pipelines.elems()[j2] == p);
                            }
                        }
                        let nd = sd.dependents.len();
                        for j in 0..nd
                            invariant
                                self.wf(),
                                self.data@.dom() == d0.dom().remove(h),
                                nd == sd.dependents.elems().len(),
                                sd.dependents == d0[h].dependents,
                                d0.dom().contains(h),
                                visited@.contains(h),
                                u == d0.dom().insert(handle),
                                forall|i: int|
                                    0 <= i < stack@.len() ==> u.contains(#[trigger] stack@[i]),
                                forall|s2: Set<ShaderHandle>|
                                    s2.contains(handle) && #[trigger] closed_under_dependents(
                                        d0,
                                        s2,
                                    ) ==> (visited@.subset_of(s2) && forall|i: int|
                                        0 <= i < stack@.len() ==> s2.contains(
                                            #[trigger] stack@[i],
                                        )),
                                visited@.contains(handle) || stack@.contains(handle),
                                forall|h2: ShaderHandle, d: ShaderHandle|
                                    #[trigger] visited@.contains(h2) && h2 != h && d0.dom().contains(
                                        h2,
                                    ) && #[trigger] d0[h2].dependents@.contains(d)
                                        && d0.dom().contains(d) ==> visited@.contains(d)
                                        || stack@.contains(d),
                                forall|j2: int|
                                    0 <= j2 < j && d0.dom().contains(
                                        #[trigger] sd.dependents.elems()[j2],
                                    ) && sd.dependents.elems()[j2] != h ==> stack@.contains(
                                        sd.dependents.elems()[j2],
                                    ),
                        {
                            let d = sd.dependents.index(j);
                            if self.data.contains_key(&d) {
                                proof {
                                    sd.dependents.lemma_view_elems();
                                    assert(d0[h].dependents@.contains(d));
                                    assert forall|s2: Set<ShaderHandle>|
                                        s2.contains(handle) && #[trigger] closed_under_dependents(
                                            d0,
                                            s2,
                                        ) implies s2.contains(d) by {
                                        assert(s2.contains(h));
                                    }
                                }
                                let ghost pre = stack@;
                                stack.push(d);
                                proof {
                                    assert forall|x: ShaderHandle| pre.contains(
                                        x,
                                    ) implies stack@.contains(x) by {
                                        let i = choose|i: int| 0 <= i < pre.len() && pre[i] == x;
                                        assert(stack@[i] == x);
                                    }
                                    assert(stack@[stack@.len() - 1] == d);
                                    assert forall|j2: int|
                                        0 <= j2 < j + 1 && d0.dom().contains(
                                            #[trigger] sd.dependents.elems()[j2],
                                        ) && sd.dependents.elems()[j2] != h implies stack@.contains(
                                        sd.dependents.elems()[j2],
                                    ) by {}
                                }
                            }
                        }
                        proof {
                            sd.dependents.lemma_view_elems();
                            assert forall|d: ShaderHandle|
                                #[trigger] d0[h].dependents@.contains(d) && d0.dom().contains(
                                    d,
                                ) implies visited@.contains(d) || stack@.contains(d) by {
                                if d != h {
                                    let j2 = choose|j2: int|
                                        0 <= j2 < sd.dependents.elems().len()
                                            && sd.dependents.elems()[j2].deep_view() == d;
                                    assert(sd.dependents.elems()[j2] == d);
                                }
                            }
                        }
                        self.data.insert(h, sd);
                    },
                    None => {},
                }
            }
        }
        proof {
            assert(is_invalidation_set(d0, handle, visited@));
            out.lemma_view_elems();
            assert(out@ =~= pipelines_of(d0, visited@));
        }
        let ghost vis = visited@;
        let ghost out_view = out@;
        let ghost out_elems = out.elems();
        let result = out.into_vec();
        proof {
            assert(result@.to_set() =~= out_view) by {
                out.lemma_view_elems();
                assert forall|p: usize| #[trigger]
                    result@.to_set().contains(p) implies out_view.contains(p) by {
                    let i = choose|i: int| 0 <= i < result@.len() && result@[i] == p;
                    assert(out_elems[i].deep_view() == p);
                }
                assert forall|p: usize| #[trigger] out_view.contains(p) implies result@.to_set().contains(
                    p,
                ) by {
                    let i = choose|i: int|
                        0 <= i < out_elems.len() && out_elems[i].deep_view() == p;
                    assert(result@[i] == p);
                }
            }
        }
        (result, Ghost(vis))
    }
}


impl ShaderCache {
    /// Registers or replaces the source for `handle`: invalidates every
    /// shader that transitively depends on it, registers the declared import
    /// path and drains the shaders waiting on it, resolves or parks each of
    /// the new source's own imports, and stores the source. Returns the
    /// pipeline ids to requeue, without duplicates.
    pub fn set_shader(&mut self, handle: ShaderHandle, shader: Shader) -> (r: Vec<usize>)
        requires
            old(self).wf(),
        ensures
            final(self).wf(),
            final(self).shaders@ == old(self).shaders@.insert(handle, shader),
            match shader.import_path {
                Some(p) => final(self).import_path_shaders@ == old(
                    self,
                ).import_path_shaders@.insert(p.deep_view(), handle),
                None => final(self).import_path_shaders@ == old(self).import_path_shaders@,
            },
            shader.import_path matches Some(p) ==> !final(self).waiting_on_import@.dom().contains(
                p.deep_view(),
            ),
            forall|i: int, j: int| 0 <= i < j < r@.len() ==> r@[i] != r@[j],
            exists|s: Set<ShaderHandle>|
                {
                    &&& #[trigger] is_invalidation_set(old(self).data@, handle, s)
                    &&& r@.to_set() == pipelines_of(old(self).data@, s)
                    &&& forall|h: ShaderHandle|
                        final(self).data@.dom().contains(h) && s.contains(h) ==> (
                        #[trigger] final(self).data@[h]).processed_shaders@ == Map::<
                            Seq<Seq<char>>,
                            u64,
                        >::empty()
                    &&& forall|h: ShaderHandle|
                        final(self).data@.dom().contains(h) && !s.contains(h) ==> (
                        #[trigger] final(self).data@[h]).processed_shaders@ == prior_processed(
                            old(self).data@,
                            h,
                        )
                },
            forall|h: ShaderHandle|
                #[trigger] final(self).data@.dom().contains(h) ==> final(self).data@[h].pipelines@
                    == prior_pipelines(old(self).data@, h),
            shader.import_path matches Some(p) ==> forall|wi: int|
                old(self).waiting_on_import@.dom().contains(p.deep_view()) && 0 <= wi < old(
                    self,
                ).waiting_on_import@[p.deep_view()]@.len() ==> {
                    let w = #[trigger] old(self).waiting_on_import@[p.deep_view()]@[wi];
                    &&& final(self).data@.dom().contains(w)
                    &&& final(self).data@[w].resolved_imports@.contains_pair(p.deep_view(), handle)
                    &&& final(self).data@.dom().contains(handle)
                    &&& final(self).data@[handle].dependents@.contains(w)
                },
            forall|ii: int|
                0 <= ii < shader.imports@.len() ==> {
                    let iv = (#[trigger] shader.imports@[ii]).deep_view();
                    let t = final(self).import_path_shaders@;
                    &&& (t.dom().contains(iv) ==> final(self).data@.dom().contains(handle) && final(self).data@[handle].resolved_imports@.contains_pair(iv, t[iv]) && final(self).data@.dom().contains(t[iv]) && final(self).data@[t[iv]].dependents@.contains(
                        handle,
                    ))
                    &&& (!t.dom().contains(iv) ==> final(self).waiting_on_import@.dom().contains(iv)
                        && final(self).waiting_on_import@[iv]@.contains(handle))
                },
    {
        let (pipelines_to_queue, ghost_s) = self.clear(handle);
        let ghost s0 = ghost_s@;
        let ghost d1 = self.data@;
        let ghost w1 = self.waiting_on_import@;
        match &shader.import_path {
            Some(path) => {
                self.import_path_shaders.insert(path.key_clone(), handle);
                match self.waiting_on_import.remove_key(path) {
                    Some(waiting_shaders) => {
                        let nw = waiting_shaders.len();
                        for wi in 0..nw
                            invariant
                                self.wf(),
                                nw == waiting_shaders@.len(),
                                self.shaders@ == old(self).shaders@,
                                self.import_path_shaders@ == old(
                                    self,
                                ).import_path_shaders@.insert(path.deep_view(), handle),
                                self.waiting_on_import@ == w1.remove(path.deep_view()),
                                forall|h: ShaderHandle|
                                    #[trigger] self.data@.dom().contains(h) ==> {
                                        &&& (self.data@[h].processed_shaders@ == if d1.dom().contains(
                                            h,
                                        ) {
                                            d1[h].processed_shaders@
                                        } else {
                                            Map::<Seq<Seq<char>>, u64>::empty()
                                        })
                                        &&& (self.data@[h].pipelines@ == if d1.dom().contains(h) {
                                            d1[h].pipelines@
                                        } else {
                                            Set::<usize>::empty()
                                        })
                                    },
                                forall|h: ShaderHandle|
                                    #[trigger] d1.dom().contains(h) ==> self.data@.dom().contains(
                                        h,
                                    ),
                                forall|wi2: int|
                                    0 <= wi2 < wi ==> {
                                        let w = #[trigger] waiting_shaders@[wi2];
                                        &&& self.data@.dom().contains(w)
                                        &&& self.data@[w].resolved_imports@.contains_pair(
                                            path.deep_view(),
                                            handle,
                                        )
                                        &&& self.data@.dom().contains(handle)
                                        &&& self.data@[handle].dependents@.contains(w)
                                    },
                        {
                            let w = waiting_shaders[wi];
                            let mut wd = match self.data.remove_key(&w) {
                                Some(d) => d,
                                None => ShaderData::new(),
                            };
                            wd.resolved_imports.insert(path.key_clone(), handle);
                            self.data.insert(w, wd);
                            let mut hd = match self.data.remove_key(&handle) {
                                Some(d) => d,
                                None => ShaderData::new(),
                            };
                            hd.dependents.insert(w);
                            self.data.insert(handle, hd);
                        }
                    },
                    None => {},
                }
            },
            None => {},
        }
        let ghost d2 = self.data@;
        let ghost w2 = self.waiting_on_import@;
        let ghost t = self.import_path_shaders@;
        let ni = shader.imports.len();
        for ii in 0..ni
            invariant
                self.wf(),
                ni == shader.imports@.len(),
                self.shaders@ == old(self).shaders@,
                self.import_path_shaders@ == t,
                shader.import_path matches Some(p) ==> t.dom().contains(p.deep_view()) && t[
                    p.deep_view()
                ] == handle && !w2.dom().contains(p.deep_view()),
                forall|q: (bool, Seq<char>)|
                    #[trigger] self.waiting_on_import@.dom().contains(q) ==> w2.dom().contains(q)
                        || !t.dom().contains(q),
                forall|h: ShaderHandle|
                    #[trigger] self.data@.dom().contains(h) ==> {
                        &&& (self.data@[h].processed_shaders@ == if d1.dom().contains(h) {
                            d1[h].processed_shaders@
                        } else {
                            Map::<Seq<Seq<char>>, u64>::empty()
                        })
                        &&& (self.data@[h].pipelines@ == if d1.dom().contains(h) {
                            d1[h].pipelines@
                        } else {
                            Set::<usize>::empty()
                        })
                    },
                forall|h: ShaderHandle|
                    #[trigger] d2.dom().contains(h) ==> self.data@.dom().contains(h),
                forall|h: ShaderHandle|
                    #[trigger] d1.dom().contains(h) ==> self.data@.dom().contains(h),
                match shader.import_path {
                    Some(p) => forall|w: ShaderHandle|
                        #[trigger] d2.dom().contains(w) && d2[w].resolved_imports@.contains_pair(
                            p.deep_view(),
                            handle,
                        ) ==> self.data@[w].resolved_imports@.contains_pair(p.deep_view(), handle),
                    None => true,
                },
                forall|x: ShaderHandle|
                    d2.dom().contains(handle) && #[trigger] d2[handle].dependents@.contains(x)
                        ==> self.data@.dom().contains(handle) && self.data@[
                        handle
                    ].dependents@.contains(x),
                forall|ii2: int|
                    0 <= ii2 < ii ==> {
                        let iv = (#[trigger] shader.imports@[ii2]).deep_view();
                        &&& (t.dom().contains(iv) ==> self.data@.dom().contains(handle)
                            && self.data@[handle].resolved_imports@.contains_pair(iv, t[iv])
                            && self.data@.dom().contains(t[iv])
                            && self.data@[t[iv]].dependents@.contains(handle))
                        &&& (!t.dom().contains(iv) ==> self.waiting_on_import@.dom().contains(iv)
                            && self.waiting_on_import@[iv]@.contains(handle))
                    },
        {
            let import = &shader.imports[ii];
            let found = match self.import_path_shaders.get(import) {
                Some(ih) => Some(*ih),
                None => None,
            };
            match found {
                Some(import_handle) => {
                    let mut hd = match self.data.remove_key(&handle) {
                        Some(d) => d,
                        None => ShaderData::new(),
                    };
                    hd.resolved_imports.insert(import.key_clone(), import_handle);
                    self.data.insert(handle, hd);
                    let mut id = match self.data.remove_key(&import_handle) {
                        Some(d) => d,
                        None => ShaderData::new(),
                    };
                    id.dependents.insert(handle);
                    self.data.insert(import_handle, id);
                },
                None => {
                    let mut waiting = match self.waiting_on_import.remove_key(import) {
                        Some(v) => v,
                        None => Vec::new(),
                    };
                    waiting.push(handle);
                    proof {
                        assert(waiting@[waiting@.len() - 1] == handle);
                    }
                    self.waiting_on_import.insert(import.key_clone(), waiting);
                },
            }
        }
        self.shaders.insert(handle, shader);
        proof {
            assert(is_invalidation_set(old(self).data@, handle, s0));
        }
        pipelines_to_queue
    }

    /// Unregisters `handle`: invalidates every transitive dependent exactly
    /// as a source change does, then removes the stored source, unregisters
    /// its declared import path, and drops the shader's dependency record —
    /// its registered pipelines, module cache, resolved imports and
    /// dependents go with it. Returns the pipeline ids to requeue, without
    /// duplicates.
    pub fn remove(&mut self, handle: ShaderHandle) -> (r: Vec<usize>)
        requires
            old(self).wf(),
        ensures
            final(self).wf(),
            final(self).waiting_on_import@ == old(self).waiting_on_import@,
            final(self).shaders@ == old(self).shaders@.remove(handle),
            final(self).import_path_shaders@ == if old(self).shaders@.dom().contains(handle) {
                match old(self).shaders@[handle].import_path {
                    Some(p) => old(self).import_path_shaders@.remove(p.deep_view()),
                    None => old(self).import_path_shaders@,
                }
            } else {
                old(self).import_path_shaders@
            },
            forall|i: int, j: int| 0 <= i < j < r@.len() ==> r@[i] != r@[j],
            final(self).data@.dom() == old(self).data@.dom().remove(handle),
            exists|s: Set<ShaderHandle>|
                {
                    &&& #[trigger] is_invalidation_set(old(self).data@, handle, s)
                    &&& r@.to_set() == pipelines_of(old(self).data@, s)
                    &&& forall|h: ShaderHandle|
                        final(self).data@.dom().contains(h) && s.contains(h) ==> (
                        #[trigger] final(self).data@[h]).processed_shaders@ == Map::<
                            Seq<Seq<char>>,
                            u64,
                        >::empty()
                    &&& forall|h: ShaderHandle|
                        final(self).data@.dom().contains(h) && !s.contains(h) ==> #[trigger] final(self).data@[h] == old(self).data@[h]
                },
            forall|h: ShaderHandle|
                #[trigger] final(self).data@.dom().contains(h) ==> final(self).data@[h].pipelines@
                    == prior_pipelines(old(self).data@, h) && final(self).data@[h].resolved_imports
                    == old(self).data@[h].resolved_imports && final(self).data@[h].dependents == old(
                    self,
                ).data@[h].dependents,
    {
        let (pipelines_to_queue, ghost_s) = self.clear(handle);
        let _ = self.data.remove_key(&handle);
        match self.shaders.remove_key(&handle) {
            Some(removed) => {
                match &removed.import_path {
                    Some(import_path) => {
                        let _ = self.import_path_shaders.remove_key(import_path);
                    },
                    None => {},
                }
            },
            None => {},
        }
        proof {
            assert(final(self).data@.dom() =~= old(self).data@.dom().remove(handle));
        }
        pipelines_to_queue
    }
}

} // verus!
