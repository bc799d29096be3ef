//! Global laws of the invalidation walk, stated over the views that the
//! cache operations' contracts use.

use vstd::prelude::*;
use crate::shader::ShaderHandle;
use crate::shader_cache::{
    closed_under_dependents, is_invalidation_set, pipelines_of, ShaderData,
};

verus! {

/// Invalidation is transitive. When shader `b` depends on `a` and `c`
/// depends on `b`, any invalidation set for `a` — what `set_shader` and
/// `remove` requeue — contains the pipelines registered against all three,
/// however long the chain.
pub proof fn lemma_invalidation_transitive(
    data: Map<ShaderHandle, ShaderData>,
    a: ShaderHandle,
    b: ShaderHandle,
    c: ShaderHandle,
    s: Set<ShaderHandle>,
    p1: usize,
    p2: usize,
    p3: usize,
)
    requires
        is_invalidation_set(data, a, s),
        data.dom().contains(a),
        data.dom().contains(b),
        data.dom().contains(c),
        data[a].dependents@.contains(b),
        data[b].dependents@.contains(c),
        data[a].pipelines@.contains(p1),
        data[b].pipelines@.contains(p2),
        data[c].pipelines@.contains(p3),
    ensures
        pipelines_of(data, s).contains(p1),
        pipelines_of(data, s).contains(p2),
        pipelines_of(data, s).contains(p3),
{
    assert(s.contains(a));
    assert(s.contains(b));
    assert(s.contains(c));
    assert(pipelines_of(data, s).contains(p1)) by {
        assert(s.contains(a) && data.dom().contains(a) && data[a].pipelines@.contains(p1));
    }
    assert(pipelines_of(data, s).contains(p2)) by {
        assert(s.contains(b) && data.dom().contains(b) && data[b].pipelines@.contains(p2));
    }
    assert(pipelines_of(data, s).contains(p3)) by {
        assert(s.contains(c) && data.dom().contains(c) && data[c].pipelines@.contains(p3));
    }
}

/// The invalidation set reaches no further than it must: a pipeline comes
/// out of the walk only when it is registered against a shader in every
/// dependents-closed set around the changed one.
pub proof fn lemma_invalidation_least(
    data: Map<ShaderHandle, ShaderData>,
    start: ShaderHandle,
    s: Set<ShaderHandle>,
    s2: Set<ShaderHandle>,
)
    requires
        is_invalidation_set(data, start, s),
        s2.contains(start),
        closed_under_dependents(data, s2),
    ensures
        pipelines_of(data, s).subset_of(pipelines_of(data, s2)),
{
    assert forall|p: usize| pipelines_of(data, s).contains(p) implies pipelines_of(
        data,
        s2,
    ).contains(p) by {
        let h = choose|h: ShaderHandle|
            #[trigger] s.contains(h) && data.dom().contains(h) && data[h].pipelines@.contains(p);
        assert(s2.contains(h) && data.dom().contains(h) && data[h].pipelines@.contains(p));
    }
}

/// There is only one invalidation set for a given graph and start: the walk
/// is deterministic at the level of its contract.
pub proof fn lemma_invalidation_set_unique(
    data: Map<ShaderHandle, ShaderData>,
    start: ShaderHandle,
    s1: Set<ShaderHandle>,
    s2: Set<ShaderHandle>,
)
    requires
        is_invalidation_set(data, start, s1),
        is_invalidation_set(data, start, s2),
    ensures
        s1 == s2,
{
    assert(s1.subset_of(s2));
    assert(s2.subset_of(s1));
    assert(s1 =~= s2);
}

} // verus!
