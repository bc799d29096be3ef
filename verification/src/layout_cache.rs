//! Memoization of GPU pipeline-layout objects by the exact ordered sequence
//! of their bind-group layout identities.

use vstd::prelude::*;
use crate::device::RenderDevice;
use crate::keymap::{KeyMap, MapKey};

verus! {

/// Pipeline layouts already materialized by the device, keyed by the ordered
/// bind-group layout ids they were built from. Entries live for the cache's
/// lifetime; layouts are never invalidated.
pub struct LayoutCache {
    pub layouts: KeyMap<Vec<u64>, u64>,
}

impl LayoutCache {
    pub open spec fn wf(&self) -> bool {
        self.layouts.wf()
    }

    /// An empty layout cache.
    pub fn new() -> (r: Self)
        ensures
            r.wf(),
            r.layouts@ == Map::<Seq<u64>, u64>::empty(),
    {
        LayoutCache { layouts: KeyMap::new() }
    }

    /// The layout object for this exact bind-group layout sequence; asks the
    /// device to materialize it exactly once per distinct sequence, so every
    /// pipeline requesting the same sequence shares one object.
    pub fn get<D: RenderDevice>(&mut self, device: &mut D, bind_group_layout_ids: &Vec<u64>) -> (r:
        u64)
        requires
            old(self).wf(),
        ensures
            final(self).wf(),
            old(self).layouts@.dom().contains(bind_group_layout_ids.deep_view()) ==> r == old(self).layouts@[bind_group_layout_ids.deep_view()] && final(self).layouts@ == old(self).layouts@
                && *final(device) == *old(device),
            !old(self).layouts@.dom().contains(bind_group_layout_ids.deep_view()) ==> final(self).layouts@ == old(self).layouts@.insert(bind_group_layout_ids.deep_view(), r),
    {
        let cached = match self.layouts.get(bind_group_layout_ids) {
            Some(l) => Some(*l),
            None => None,
        };
        match cached {
            Some(l) => l,
            None => {
                let l = device.create_pipeline_layout(bind_group_layout_ids);
                self.layouts.insert(bind_group_layout_ids.key_clone(), l);
                l
            },
        }
    }
}

} // verus!
