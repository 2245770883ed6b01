//! The scene resource manager: registered geometry, the dense table of
//! instances placed in the scene, and the state that decides whether the
//! two-level acceleration structure needs a full build, a patch of some
//! instance slots, or nothing before the next query.
//!
//! The manager decides; whoever owns the device carries out the plan that
//! `ensure_built` hands back, in one batch, before any query.
use vstd::prelude::*;

verus! {

/// Immutable geometry: vertices, and indices taken three at a time as
/// triangles.
pub struct AssetMesh<V> {
    pub vertex_buf: Vec<V>,
    pub index_buf: Vec<u16>,
}

impl<V> AssetMesh<V> {
    /// Indices come in whole triangles and every index names a vertex.
    pub open spec fn valid(&self) -> bool {
        &&& self.index_buf@.len() % 3 == 0
        &&& forall|j: int|
            0 <= j < self.index_buf@.len() ==> (#[trigger] self.index_buf@[j]) < self.vertex_buf@.len()
    }

    pub fn is_valid(&self) -> (r: bool)
        ensures
            r == self.valid(),
    {
        if self.index_buf.len() % 3 != 0 {
            return false;
        }
        let n = self.vertex_buf.len();
        let mut j: usize = 0;
        while j < self.index_buf.len()
            invariant
                j <= self.index_buf@.len(),
                n == self.vertex_buf@.len(),
                forall|k: int| 0 <= k < j ==> (#[trigger] self.index_buf@[k]) < n,
            decreases self.index_buf@.len() - j,
        {
            if self.index_buf[j] as usize >= n {
                return false;
            }
            j += 1;
        }
        true
    }
}

/// A registered geometry: its position in the manager's asset list.
#[derive(Clone, Copy, Debug, PartialEq, Eq, Structural)]
pub struct GeometryHandle(pub usize);

/// A placed instance: its slot in the instance table, which is also its
/// slot in the top-level structure.
#[derive(Clone, Copy, Debug, PartialEq, Eq, Structural)]
pub struct InstanceHandle(pub usize);

/// A placement of a registered geometry.
#[derive(Clone, Copy, Debug)]
pub struct Instance {
    /// Position of the geometry in the asset list.
    pub asset_mesh_index: usize,
    pub transform: glam::Affine3A,
}

/// Where the acceleration structure stands with respect to the scene.
#[derive(Debug)]
pub enum BuildState {
    /// No structure was ever built.
    Unbuilt,
    /// The structure matches every geometry and every instance pose.
    Clean,
    /// The structure exists; the placements of these instance slots changed
    /// since it was built or patched.
    Dirty(Vec<usize>),
    /// The structure exists, but geometry or instances were added since:
    /// only a full build brings it up to date.
    Rebuild,
}

impl BuildState {
    pub open spec fn needs_full_build(&self) -> bool {
        self is Unbuilt || self is Rebuild
    }

    /// Slots whose placement must be refreshed; empty but when dirty.
    pub open spec fn dirty_set(&self) -> Set<usize> {
        match self {
            BuildState::Dirty(v) => v@.to_set(),
            _ => Set::empty(),
        }
    }

    /// The dirty list names each slot once, and only slots of the table.
    pub open spec fn dirty_ok(&self, n: int) -> bool {
        match self {
            BuildState::Dirty(v) => v@.no_duplicates() && forall|k: int|
                0 <= k < v@.len() ==> (#[trigger] v@[k]) < n,
            _ => true,
        }
    }
}

/// What must happen on the device before the next query.
#[derive(Debug)]
pub enum BuildPlan {
    /// The structure is up to date.
    Nothing,
    /// Build one bottom-level structure per geometry, then the top-level
    /// structure with one placement per instance.
    Full,
    /// Refresh the placements of these slots and the top-level structure,
    /// leaving the bottom-level structures alone.
    Patch(Vec<usize>),
}

impl BuildPlan {
    pub open spec fn patch_set(&self) -> Set<usize> {
        match self {
            BuildPlan::Patch(v) => v@.to_set(),
            _ => Set::empty(),
        }
    }
}

/// Growing the scene (a geometry or an instance) leaves an unbuilt scene
/// unbuilt and calls for a full build of any other.
pub open spec fn grow_step(before: BuildState, after: BuildState) -> bool {
    if before is Unbuilt {
        after is Unbuilt
    } else {
        after is Rebuild
    }
}

/// A changed placement of slot `h`: nothing to add where a full build is
/// due anyway, else the slot joins the dirty set.
pub open spec fn pose_step(before: BuildState, after: BuildState, h: usize) -> bool {
    if before.needs_full_build() {
        after == before
    } else {
        after is Dirty && after.dirty_set() == before.dirty_set().insert(h)
    }
}

/// The plan that `ensure_built` hands back in state `s`.
pub open spec fn plan_for(s: BuildState, plan: BuildPlan) -> bool {
    if s.needs_full_build() {
        plan is Full
    } else if s is Clean {
        plan is Nothing
    } else {
        &&& plan is Patch
        &&& plan.patch_set() == s.dirty_set()
        &&& plan->Patch_0@.no_duplicates()
    }
}

/// Changing the pose of one instance of a built scene calls for a patch of
/// exactly that slot, and for no rebuild of geometry.
pub proof fn lemma_pose_change_patches_only_that_slot(
    built: BuildState,
    moved: BuildState,
    plan: BuildPlan,
    h: usize,
)
    requires
        built is Clean,
        pose_step(built, moved, h),
        plan_for(moved, plan),
    ensures
        plan is Patch,
        plan.patch_set() == set![h],
{
    assert(Set::<usize>::empty().insert(h) =~= set![h]);
}

/// Why the scene refused an update.
#[derive(Clone, Copy, Debug, PartialEq, Eq, Structural)]
pub enum SceneError {
    /// A batched update gave a different number of instances and slots.
    LengthMismatch,
}

/// All vertices of `assets`, one asset after the other.
pub open spec fn all_vertices<V>(assets: Seq<AssetMesh<V>>) -> Seq<V>
    decreases assets.len(),
{
    if assets.len() == 0 {
        Seq::empty()
    } else {
        all_vertices(assets.drop_last()) + assets.last().vertex_buf@
    }
}

/// All indices of `assets`, one asset after the other, each relative to
/// its own asset's first vertex.
pub open spec fn all_indices<V>(assets: Seq<AssetMesh<V>>) -> Seq<u16>
    decreases assets.len(),
{
    if assets.len() == 0 {
        Seq::empty()
    } else {
        all_indices(assets.drop_last()) + assets.last().index_buf@
    }
}

/// The geometry of a scene laid out in one vertex and one index buffer.
pub struct PackedGeometry<V> {
    pub vertices: Vec<V>,
    pub indices: Vec<u16>,
    /// Where each asset's vertices start in `vertices`.
    pub first_vertex: Vec<usize>,
    /// Where each asset's indices start in `indices`.
    pub first_index: Vec<usize>,
}

/// The value of `*final(table)` after instance `upd[k]` was written to slot
/// `idx[k]`, for each `k` in order.
pub open spec fn applied(table: Seq<Instance>, upd: Seq<Instance>, idx: Seq<usize>) -> Seq<Instance>
    decreases idx.len(),
{
    if idx.len() == 0 || upd.len() == 0 {
        table
    } else {
        applied(table, upd.drop_last(), idx.drop_last()).update(
            idx.last() as int,
            upd.last(),
        )
    }
}

/// The scene resource manager.
pub struct RayTraceScene<V> {
    assets: Vec<AssetMesh<V>>,
    instances: Vec<Instance>,
    state: BuildState,
}

impl<V: Copy> RayTraceScene<V> {
    pub closed spec fn assets_spec(&self) -> Seq<AssetMesh<V>> {
        self.assets@
    }

    pub closed spec fn instances_spec(&self) -> Seq<Instance> {
        self.instances@
    }

    pub closed spec fn state_spec(&self) -> BuildState {
        self.state
    }

    pub open spec fn wf(&self) -> bool {
        &&& forall|i: int|
            0 <= i < self.assets_spec().len() ==> (#[trigger] self.assets_spec()[i]).valid()
        &&& forall|i: int|
            0 <= i < self.instances_spec().len() ==> (#[trigger] self.instances_spec()[i]).asset_mesh_index
                < self.assets_spec().len()
        &&& self.state_spec().dirty_ok(self.instances_spec().len() as int)
    }

    /// A scene of `assets`, with `instances` placed, and no structure built.
    pub fn new(assets: Vec<AssetMesh<V>>, instances: Vec<Instance>) -> (r: RayTraceScene<V>)
        requires
            forall|i: int| 0 <= i < assets@.len() ==> (#[trigger] assets@[i]).valid(),
            forall|i: int|
                0 <= i < instances@.len() ==> (#[trigger] instances@[i]).asset_mesh_index
                    < assets@.len(),
        ensures
            r.wf(),
            r.assets_spec() == assets@,
            r.instances_spec() == instances@,
            r.state_spec() is Unbuilt,
    {
        RayTraceScene { assets, instances, state: BuildState::Unbuilt }
    }

    pub fn assets(&self) -> (r: &Vec<AssetMesh<V>>)
        ensures
            r@ == self.assets_spec(),
    {
        &self.assets
    }

    pub fn instances(&self) -> (r: &Vec<Instance>)
        ensures
            r@ == self.instances_spec(),
    {
        &self.instances
    }

    pub fn state(&self) -> (r: &BuildState)
        ensures
            *r == self.state_spec(),
    {
        &self.state
    }

    /// Takes `mesh` into the asset list. Bottom-level structures cannot be
    /// extended in place, so a built scene now needs a full build.
    pub fn register_geometry(&mut self, mesh: AssetMesh<V>) -> (r: GeometryHandle)
        requires
            old(self).wf(),
            mesh.valid(),
        ensures
            final(self).wf(),
            r.0 == old(self).assets_spec().len(),
            final(self).assets_spec() == old(self).assets_spec().push(mesh),
            final(self).instances_spec() == old(self).instances_spec(),
            grow_step(old(self).state_spec(), final(self).state_spec()),
    {
        let h = self.assets.len();
        self.assets.push(mesh);
        self.grow();
        proof {
            assert forall|i: int| 0 <= i < self.assets_spec().len() implies (
            #[trigger] self.assets_spec()[i]).valid() by {
                if i < h {
                    assert(self.assets_spec()[i] == old(self).assets_spec()[i]);
                }
            }
        }
        GeometryHandle(h)
    }

    /// Appends a placement of geometry `handle` to the instance table. The
    /// new slot is not in the top-level structure yet, so a built scene now
    /// needs a full build.
    pub fn add_instance(&mut self, handle: GeometryHandle, transform: glam::Affine3A) -> (r:
        InstanceHandle)
        requires
            old(self).wf(),
            handle.0 < old(self).assets_spec().len(),
        ensures
            final(self).wf(),
            r.0 == old(self).instances_spec().len(),
            final(self).assets_spec() == old(self).assets_spec(),
            final(self).instances_spec() == old(self).instances_spec().push(
                Instance { asset_mesh_index: handle.0, transform },
            ),
            grow_step(old(self).state_spec(), final(self).state_spec()),
    {
        let h = self.instances.len();
        self.instances.push(Instance { asset_mesh_index: handle.0, transform });
        self.grow();
        InstanceHandle(h)
    }

    /// Moves instance `handle` to `transform`. Its geometry is unchanged,
    /// so only its slot needs a patch.
    pub fn set_instance_pose(&mut self, handle: InstanceHandle, transform: glam::Affine3A)
        requires
            old(self).wf(),
            handle.0 < old(self).instances_spec().len(),
        ensures
            final(self).wf(),
            final(self).assets_spec() == old(self).assets_spec(),
            final(self).instances_spec() == old(self).instances_spec().update(
                handle.0 as int,
                Instance {
                    asset_mesh_index: old(self).instances_spec()[handle.0 as int].asset_mesh_index,
                    transform,
                },
            ),
            pose_step(old(self).state_spec(), final(self).state_spec(), handle.0),
    {
        let asset_mesh_index = self.instances[handle.0].asset_mesh_index;
        self.instances.set(handle.0, Instance { asset_mesh_index, transform });
        self.mark_dirty(handle.0);
    }

    /// Writes `update_instance[k]` to slot `idx[k]`, for each `k` in order.
    /// Each slot written joins the dirty set; no full build is called for.
    pub fn set_transform(&mut self, update_instance: &Vec<Instance>, idx: &Vec<usize>) -> (r: Result<
        (),
        SceneError,
    >)
        requires
            old(self).wf(),
            forall|k: int| 0 <= k < idx@.len() ==> (#[trigger] idx@[k]) < old(self).instances_spec().len(),
            forall|k: int|
                0 <= k < update_instance@.len() ==> (#[trigger] update_instance@[k]).asset_mesh_index
                    < old(self).assets_spec().len(),
        ensures
            final(self).wf(),
            final(self).assets_spec() == old(self).assets_spec(),
            update_instance@.len() != idx@.len() ==> r == Err::<(), SceneError>(
                SceneError::LengthMismatch,
            ) && final(self).instances_spec() == old(self).instances_spec()
                && final(self).state_spec() == old(self).state_spec(),
            update_instance@.len() == idx@.len() ==> r is Ok && final(self).instances_spec()
                == applied(old(self).instances_spec(), update_instance@, idx@),
            update_instance@.len() == idx@.len() && old(self).state_spec().needs_full_build()
                ==> final(self).state_spec() == old(self).state_spec(),
            update_instance@.len() == idx@.len() && !old(self).state_spec().needs_full_build() ==> (
            idx@.len() == 0 ==> final(self).state_spec() == old(self).state_spec()) && (idx@.len()
                > 0 ==> final(self).state_spec() is Dirty && final(self).state_spec().dirty_set()
                == old(self).state_spec().dirty_set().union(idx@.to_set())),
    {
        if update_instance.len() != idx.len() {
            return Err(SceneError::LengthMismatch);
        }
        let mut k: usize = 0;
        while k < idx.len()
            invariant
                self.wf(),
                k <= idx@.len(),
                idx@.len() == update_instance@.len(),
                self.assets_spec() == old(self).assets_spec(),
                self.instances_spec().len() == old(self).instances_spec().len(),
                forall|j: int| 0 <= j < idx@.len() ==> (#[trigger] idx@[j]) < old(self).instances_spec().len(),
                forall|j: int|
                    0 <= j < update_instance@.len() ==> (#[trigger] update_instance@[j]).asset_mesh_index
                        < old(self).assets_spec().len(),
                self.instances_spec() == applied(
                    old(self).instances_spec(),
                    update_instance@.take(k as int),
                    idx@.take(k as int),
                ),
                old(self).state_spec().needs_full_build() ==> self.state_spec() == old(self).state_spec(),
                !old(self).state_spec().needs_full_build() ==> (k == 0 ==> self.state_spec()
                    == old(self).state_spec()) && (k > 0 ==> self.state_spec() is Dirty
                    && self.state_spec().dirty_set() == old(self).state_spec().dirty_set().union(
                    idx@.take(k as int).to_set(),
                )),
            decreases idx@.len() - k,
        {
            let slot = idx[k];
            let inst = update_instance[k];
            self.instances.set(slot, inst);
            self.mark_dirty(slot);
            proof {
                let ik = idx@.take(k + 1);
                let uk = update_instance@.take(k + 1);
                assert(ik.drop_last() =~= idx@.take(k as int));
                assert(uk.drop_last() =~= update_instance@.take(k as int));
                assert(ik.to_set() =~= idx@.take(k as int).to_set().insert(slot)) by {
                    assert(ik =~= idx@.take(k as int).push(slot));
                    idx@.take(k as int).lemma_push_to_set_commute(slot);
                }
                if k == 0 {
                    assert(idx@.take(0).to_set() =~= Set::<usize>::empty());
                }
            }
            k += 1;
        }
        proof {
            assert(idx@.take(idx@.len() as int) =~= idx@);
            assert(update_instance@.take(update_instance@.len() as int) =~= update_instance@);
        }
        Ok(())
    }

    /// Brings the state to `Clean` and hands back what the device must do
    /// for that: a full build where one is due, else a patch of exactly the
    /// dirty slots, else nothing.
    pub fn ensure_built(&mut self) -> (r: BuildPlan)
        requires
            old(self).wf(),
        ensures
            final(self).wf(),
            final(self).assets_spec() == old(self).assets_spec(),
            final(self).instances_spec() == old(self).instances_spec(),
            final(self).state_spec() is Clean,
            plan_for(old(self).state_spec(), r),
    {
        let mut st = BuildState::Clean;
        core::mem::swap(&mut self.state, &mut st);
        assert(self.state_spec() is Clean);
        assert(self.instances_spec() == old(self).instances_spec());
        assert(self.assets_spec() == old(self).assets_spec());
        match st {
            BuildState::Unbuilt => BuildPlan::Full,
            BuildState::Rebuild => BuildPlan::Full,
            BuildState::Clean => BuildPlan::Nothing,
            BuildState::Dirty(v) => BuildPlan::Patch(v),
        }
    }

    /// Lays the geometry out in one vertex and one index buffer, asset
    /// after asset, with where each asset starts.
    pub fn pack_geometry(&self) -> (r: PackedGeometry<V>)
        ensures
            r.vertices@ == all_vertices(self.assets_spec()),
            r.indices@ == all_indices(self.assets_spec()),
            r.first_vertex@.len() == self.assets_spec().len(),
            r.first_index@.len() == self.assets_spec().len(),
            forall|a: int|
                0 <= a < self.assets_spec().len() ==> #[trigger] r.first_vertex@[a] == all_vertices(
                    self.assets_spec().take(a),
                ).len(),
            forall|a: int|
                0 <= a < self.assets_spec().len() ==> #[trigger] r.first_index@[a] == all_indices(
                    self.assets_spec().take(a),
                ).len(),
    {
        let ghost assets = self.assets@;
        let mut vertices: Vec<V> = Vec::new();
        let mut indices: Vec<u16> = Vec::new();
        let mut first_vertex: Vec<usize> = Vec::new();
        let mut first_index: Vec<usize> = Vec::new();
        let mut a: usize = 0;
        while a < self.assets.len()
            invariant
                assets == self.assets@,
                a <= assets.len(),
                vertices@ == all_vertices(assets.take(a as int)),
                indices@ == all_indices(assets.take(a as int)),
                first_vertex@.len() == a,
                first_index@.len() == a,
                forall|b: int|
                    0 <= b < a ==> #[trigger] first_vertex@[b] == all_vertices(assets.take(b)).len(),
                forall|b: int|
                    0 <= b < a ==> #[trigger] first_index@[b] == all_indices(assets.take(b)).len(),
            decreases assets.len() - a,
        {
            let mesh = &self.assets[a];
            first_vertex.push(vertices.len());
            first_index.push(indices.len());
            let ghost v0 = vertices@;
            let ghost i0 = indices@;
            let mut j: usize = 0;
            while j < mesh.vertex_buf.len()
                invariant
                    j <= mesh.vertex_buf@.len(),
                    vertices@ == v0 + mesh.vertex_buf@.take(j as int),
                decreases mesh.vertex_buf@.len() - j,
            {
                vertices.push(mesh.vertex_buf[j]);
                proof {
                    assert(mesh.vertex_buf@.take(j + 1) =~= mesh.vertex_buf@.take(j as int).push(
                        mesh.vertex_buf@[j as int],
                    ));
                }
                j += 1;
            }
            let mut j: usize = 0;
            while j < mesh.index_buf.len()
                invariant
                    j <= mesh.index_buf@.len(),
                    indices@ == i0 + mesh.index_buf@.take(j as int),
                decreases mesh.index_buf@.len() - j,
            {
                indices.push(mesh.index_buf[j]);
                proof {
                    assert(mesh.index_buf@.take(j + 1) =~= mesh.index_buf@.take(j as int).push(
                        mesh.index_buf@[j as int],
                    ));
                }
                j += 1;
            }
            proof {
                let next = assets.take(a + 1);
                assert(next.drop_last() =~= assets.take(a as int));
                assert(next.last() == *mesh);
                assert(mesh.vertex_buf@.take(mesh.vertex_buf@.len() as int) =~= mesh.vertex_buf@);
                assert(mesh.index_buf@.take(mesh.index_buf@.len() as int) =~= mesh.index_buf@);
            }
            a += 1;
        }
        proof {
            assert(assets.take(assets.len() as int) =~= assets);
        }
        PackedGeometry { vertices, indices, first_vertex, first_index }
    }

    fn grow(&mut self)
        requires
            old(self).state_spec().dirty_ok(old(self).instances_spec().len() as int),
        ensures
            final(self).assets_spec() == old(self).assets_spec(),
            final(self).instances_spec() == old(self).instances_spec(),
            grow_step(old(self).state_spec(), final(self).state_spec()),
    {
        if !matches!(self.state, BuildState::Unbuilt) {
            self.state = BuildState::Rebuild;
        }
    }

    fn mark_dirty(&mut self, h: usize)
        requires
            h < old(self).instances_spec().len(),
            old(self).state_spec().dirty_ok(old(self).instances_spec().len() as int),
        ensures
            final(self).assets_spec() == old(self).assets_spec(),
            final(self).instances_spec() == old(self).instances_spec(),
            final(self).state_spec().dirty_ok(final(self).instances_spec().len() as int),
            pose_step(old(self).state_spec(), final(self).state_spec(), h),
    {
        match &mut self.state {
            BuildState::Clean => {
                let mut v: Vec<usize> = Vec::new();
                v.push(h);
                proof {
                    assert(v@ =~= seq![h]);
                    assert(v@.to_set() =~= Set::<usize>::empty().insert(h)) by {
                        Seq::<usize>::empty().lemma_push_to_set_commute(h);
                        assert(Seq::<usize>::empty().push(h) =~= v@);
                        assert(Seq::<usize>::empty().to_set() =~= Set::<usize>::empty());
                    }
                }
                self.state = BuildState::Dirty(v);
            },
            BuildState::Dirty(v) => {
                let ghost v0 = v@;
                let mut k: usize = 0;
                let mut found = false;
                while k < v.len()
                    invariant
                        v@ == v0,
                        k <= v@.len(),
                        found ==> v0.contains(h),
                        !found ==> forall|j: int| 0 <= j < k ==> v0[j] != h,
                    decreases v@.len() - k,
                {
                    if v[k] == h {
                        found = true;
                    }
                    k += 1;
                }
                if !found {
                    v.push(h);
                    proof {
                        v0.lemma_push_to_set_commute(h);
                        assert(forall|j: int| 0 <= j < v0.len() ==> v0[j] != h);
                    }
                } else {
                    proof {
                        assert(v0.to_set().insert(h) =~= v0.to_set());
                    }
                }
            },
            _ => {},
        }
    }
}

} // verus!
