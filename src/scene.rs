//! The scene and the traversal that lays out its serialized form: archetypes
//! in storage order, then chunksets, then occupied chunks, then slots.
use crate::registry::ComponentRegistry;
use crate::storage::{
    archetype_component_types, archetype_count, chunk_entity_indices, chunk_has_column,
    chunkset_count, occupied_chunk_count, valid_chunk, world_layout, ArchetypeLayout, ChunkLayout,
};
use legion::prelude::World;
use legion::storage::ComponentTypeId;
use vstd::prelude::*;

verus! {

/// The world whose entities are serialized.
#[derive(Default)]
pub struct Scene {
    pub world: World,
}

/// A scene paired with the registry that serializes its components, for one
/// serialization pass.
pub struct SerializableScene<'a, F> {
    pub scene: &'a Scene,
    pub component_registry: &'a ComponentRegistry<F>,
}

/// One entity as it is written: its public index, where it is stored, and the
/// component types written for it, in its archetype's declared order.
#[derive(Debug)]
pub struct EntityRecord {
    pub id: u32,
    pub archetype: usize,
    pub chunkset: usize,
    pub chunk: usize,
    pub slot: usize,
    pub components: Vec<ComponentTypeId>,
}

pub struct EntityRecordView {
    pub id: u32,
    pub archetype: nat,
    pub chunkset: nat,
    pub chunk: nat,
    pub slot: nat,
    pub components: Seq<ComponentTypeId>,
}

impl View for EntityRecord {
    type V = EntityRecordView;

    open spec fn view(&self) -> EntityRecordView {
        EntityRecordView {
            id: self.id,
            archetype: self.archetype as nat,
            chunkset: self.chunkset as nat,
            chunk: self.chunk as nat,
            slot: self.slot as nat,
            components: self.components@,
        }
    }
}

/// Why a serialization pass cannot be carried out.
#[derive(Debug)]
pub enum SceneError {
    /// An archetype declares a component type for which an occupied chunk
    /// holds no column.
    MissingColumn { archetype: usize, chunkset: usize, chunk: usize, ty: ComponentTypeId },
    /// An archetype with entities declares a component type that the
    /// registry does not know.
    UnregisteredComponent { archetype: usize, ty: ComponentTypeId },
}

pub open spec fn record_views(v: Seq<EntityRecord>) -> Seq<EntityRecordView> {
    v.map_values(|r: EntityRecord| r@)
}

/// The record written for the entity in slot `k` of a chunk.
pub open spec fn slot_record(l: Seq<ArchetypeLayout>, a: int, s: int, c: int, k: int) -> EntityRecordView {
    EntityRecordView {
        id: l[a].chunksets[s][c].entities[k],
        archetype: a as nat,
        chunkset: s as nat,
        chunk: c as nat,
        slot: k as nat,
        components: l[a].types,
    }
}

/// The records of the first `n` slots of a chunk.
pub open spec fn chunk_records(l: Seq<ArchetypeLayout>, a: int, s: int, c: int, n: int) -> Seq<
    EntityRecordView,
>
    decreases n,
{
    if n <= 0 {
        Seq::empty()
    } else {
        chunk_records(l, a, s, c, n - 1).push(slot_record(l, a, s, c, n - 1))
    }
}

/// The records of the first `n` occupied chunks of a chunkset.
pub open spec fn chunkset_records(l: Seq<ArchetypeLayout>, a: int, s: int, n: int) -> Seq<
    EntityRecordView,
>
    decreases n,
{
    if n <= 0 {
        Seq::empty()
    } else {
        chunkset_records(l, a, s, n - 1) + chunk_records(
            l,
            a,
            s,
            n - 1,
            l[a].chunksets[s][n - 1].entities.len() as int,
        )
    }
}

/// The records of the first `n` chunksets of an archetype.
pub open spec fn archetype_records(l: Seq<ArchetypeLayout>, a: int, n: int) -> Seq<
    EntityRecordView,
>
    decreases n,
{
    if n <= 0 {
        Seq::empty()
    } else {
        archetype_records(l, a, n - 1) + chunkset_records(
            l,
            a,
            n - 1,
            l[a].chunksets[n - 1].len() as int,
        )
    }
}

/// The records of the first `n` archetypes.
pub open spec fn archetypes_records(l: Seq<ArchetypeLayout>, n: int) -> Seq<EntityRecordView>
    decreases n,
{
    if n <= 0 {
        Seq::empty()
    } else {
        archetypes_records(l, n - 1) + archetype_records(l, n - 1, l[n - 1].chunksets.len() as int)
    }
}

/// Every entity of the world, one record each, in traversal order.
pub open spec fn world_records(l: Seq<ArchetypeLayout>) -> Seq<EntityRecordView> {
    archetypes_records(l, l.len() as int)
}

/// A chunk can be written: where it has an entity, each declared type of its
/// archetype has a column in it and a registration.
pub open spec fn chunk_sound(
    arch: ArchetypeLayout,
    ch: ChunkLayout,
    registered: Set<ComponentTypeId>,
) -> bool {
    ch.entities.len() > 0 ==> forall|i: int|
        0 <= i < arch.types.len() ==> ch.columns.contains(#[trigger] arch.types[i])
            && registered.contains(arch.types[i])
}

pub open spec fn chunkset_sound(
    arch: ArchetypeLayout,
    cs: Seq<ChunkLayout>,
    registered: Set<ComponentTypeId>,
) -> bool {
    forall|c: int| 0 <= c < cs.len() ==> chunk_sound(arch, #[trigger] cs[c], registered)
}

pub open spec fn archetype_sound(arch: ArchetypeLayout, registered: Set<ComponentTypeId>) -> bool {
    forall|s: int|
        0 <= s < arch.chunksets.len() ==> chunkset_sound(arch, #[trigger] arch.chunksets[s], registered)
}

/// Every entity of the world can be written.
pub open spec fn world_sound(l: Seq<ArchetypeLayout>, registered: Set<ComponentTypeId>) -> bool {
    forall|a: int| 0 <= a < l.len() ==> archetype_sound(#[trigger] l[a], registered)
}

/// An error names a real fault of the world.
pub open spec fn describes_fault(
    e: SceneError,
    l: Seq<ArchetypeLayout>,
    registered: Set<ComponentTypeId>,
) -> bool {
    match e {
        SceneError::MissingColumn { archetype, chunkset, chunk, ty } => {
            &&& archetype < l.len()
            &&& chunkset < l[archetype as int].chunksets.len()
            &&& chunk < l[archetype as int].chunksets[chunkset as int].len()
            &&& l[archetype as int].chunksets[chunkset as int][chunk as int].entities.len() > 0
            &&& l[archetype as int].types.contains(ty)
            &&& !l[archetype as int].chunksets[chunkset as int][chunk as int].columns.contains(ty)
        },
        SceneError::UnregisteredComponent { archetype, ty } => {
            &&& archetype < l.len()
            &&& l[archetype as int].types.contains(ty)
            &&& !registered.contains(ty)
        },
    }
}

/// What one pass yields: the records when the world can be written, else an
/// error that names a fault of it.
pub open spec fn plan_meets(
    r: Result<Vec<EntityRecord>, SceneError>,
    l: Seq<ArchetypeLayout>,
    registered: Set<ComponentTypeId>,
) -> bool {
    match r {
        Ok(v) => world_sound(l, registered) && record_views(v@) == world_records(l),
        Err(e) => !world_sound(l, registered) && describes_fault(e, l, registered),
    }
}

fn copy_types(v: &Vec<ComponentTypeId>) -> (r: Vec<ComponentTypeId>)
    ensures
        r@ == v@,
{
    let mut r: Vec<ComponentTypeId> = Vec::new();
    let mut i: usize = 0;
    while i < v.len()
        invariant
            0 <= i <= v.len(),
            r@ == v@.subrange(0, i as int),
        decreases v.len() - i,
    {
        r.push(v[i]);
        i = i + 1;
        assert(r@ =~= v@.subrange(0, i as int));
    }
    assert(r@ =~= v@);
    r
}

/// Checks that an occupied chunk can be written: each declared type of its
/// archetype has a column in it and a registration.
fn check_chunk<F>(
    w: &World,
    registry: &ComponentRegistry<F>,
    types: &Vec<ComponentTypeId>,
    a: usize,
    s: usize,
    c: usize,
) -> (r: Result<(), SceneError>)
    requires
        registry.wf(),
        valid_chunk(*w, a as int, s as int, c as int),
        types@ == world_layout(*w)[a as int].types,
        world_layout(*w)[a as int].chunksets[s as int][c as int].entities.len() > 0,
    ensures
        r is Ok <==> chunk_sound(
            world_layout(*w)[a as int],
            world_layout(*w)[a as int].chunksets[s as int][c as int],
            registry@.dom(),
        ),
        r matches Err(e) ==> describes_fault(e, world_layout(*w), registry@.dom()),
{
    let ghost l = world_layout(*w);
    let ghost ch = l[a as int].chunksets[s as int][c as int];
    let mut i: usize = 0;
    while i < types.len()
        invariant
            0 <= i <= types.len(),
            registry.wf(),
            valid_chunk(*w, a as int, s as int, c as int),
            l == world_layout(*w),
            ch == l[a as int].chunksets[s as int][c as int],
            ch.entities.len() > 0,
            types@ == l[a as int].types,
            forall|j: int|
                0 <= j < i ==> ch.columns.contains(#[trigger] types@[j]) && registry@.dom().contains(
                    types@[j],
                ),
        decreases types.len() - i,
    {
        let ty = types[i];
        if !chunk_has_column(w, a, s, c, ty) {
            assert(l[a as int].types[i as int] == ty);
            return Err(SceneError::MissingColumn { archetype: a, chunkset: s, chunk: c, ty });
        }
        if registry.get(ty).is_none() {
            assert(l[a as int].types[i as int] == ty);
            return Err(SceneError::UnregisteredComponent { archetype: a, ty });
        }
        i = i + 1;
    }
    Ok(())
}

/// Appends the record of each slot of an occupied chunk, in slot order.
fn write_chunk(
    out: &mut Vec<EntityRecord>,
    w: &World,
    types: &Vec<ComponentTypeId>,
    ids: &Vec<u32>,
    a: usize,
    s: usize,
    c: usize,
)
    requires
        valid_chunk(*w, a as int, s as int, c as int),
        types@ == world_layout(*w)[a as int].types,
        ids@ == world_layout(*w)[a as int].chunksets[s as int][c as int].entities,
    ensures
        record_views(final(out)@) == record_views(old(out)@) + chunk_records(
            world_layout(*w),
            a as int,
            s as int,
            c as int,
            world_layout(*w)[a as int].chunksets[s as int][c as int].entities.len() as int,
        ),
{
    let ghost l = world_layout(*w);
    let ghost base = record_views(out@);
    let mut k: usize = 0;
    while k < ids.len()
        invariant
            0 <= k <= ids.len(),
            valid_chunk(*w, a as int, s as int, c as int),
            l == world_layout(*w),
            types@ == l[a as int].types,
            ids@ == l[a as int].chunksets[s as int][c as int].entities,
            base == record_views(old(out)@),
            record_views(out@) == base + chunk_records(l, a as int, s as int, c as int, k as int),
        decreases ids.len() - k,
    {
        let rec = EntityRecord {
            id: ids[k],
            archetype: a,
            chunkset: s,
            chunk: c,
            slot: k,
            components: copy_types(types),
        };
        let ghost prev = out@;
        out.push(rec);
        assert(record_views(out@) =~= record_views(prev).push(rec@));
        k = k + 1;
        assert(record_views(out@) =~= base + chunk_records(
            l,
            a as int,
            s as int,
            c as int,
            k as int,
        ));
    }
}

impl<'a, F> SerializableScene<'a, F> {
    pub fn new(scene: &'a Scene, component_registry: &'a ComponentRegistry<F>) -> (r: Self)
        ensures
            r.scene == scene,
            r.component_registry == component_registry,
    {
        SerializableScene { scene, component_registry }
    }

    /// The records to write, one per entity in traversal order, or the first
    /// fault met on the way; nothing is to be written when there is a fault.
    pub fn entity_records(&self) -> (r: Result<Vec<EntityRecord>, SceneError>)
        requires
            self.component_registry.wf(),
        ensures
            plan_meets(r, world_layout(self.scene.world), self.component_registry@.dom()),
    {
        let w = &self.scene.world;
        let registry = self.component_registry;
        let ghost l = world_layout(*w);
        let ghost reg = registry@.dom();
        let mut out: Vec<EntityRecord> = Vec::new();
        let n_arch = archetype_count(w);
        let mut a: usize = 0;
        while a < n_arch
            invariant
                0 <= a <= n_arch,
                n_arch == l.len(),
                l == world_layout(*w),
                l == world_layout(self.scene.world),
                reg == self.component_registry@.dom(),
                reg == registry@.dom(),
                registry.wf(),
                record_views(out@) == archetypes_records(l, a as int),
                forall|x: int| 0 <= x < a ==> archetype_sound(#[trigger] l[x], reg),
            decreases n_arch - a,
        {
            let types = archetype_component_types(w, a);
            let n_sets = chunkset_count(w, a);
            let ghost base_a = record_views(out@);
            let mut s: usize = 0;
            while s < n_sets
                invariant
                    0 <= a < n_arch,
                    0 <= s <= n_sets,
                    n_arch == l.len(),
                    n_sets == l[a as int].chunksets.len(),
                    l == world_layout(*w),
                l == world_layout(self.scene.world),
                reg == self.component_registry@.dom(),
                    reg == registry@.dom(),
                    registry.wf(),
                    types@ == l[a as int].types,
                    base_a == archetypes_records(l, a as int),
                    record_views(out@) == base_a + archetype_records(l, a as int, s as int),
                    forall|x: int| 0 <= x < a ==> archetype_sound(#[trigger] l[x], reg),
                    forall|y: int|
                        0 <= y < s ==> chunkset_sound(
                            l[a as int],
                            #[trigger] l[a as int].chunksets[y],
                            reg,
                        ),
                decreases n_sets - s,
            {
                let n_chunks = occupied_chunk_count(w, a, s);
                let ghost base_s = record_views(out@);
                let ghost cs = l[a as int].chunksets[s as int];
                let mut c: usize = 0;
                while c < n_chunks
                    invariant
                        0 <= a < n_arch,
                        0 <= s < n_sets,
                        0 <= c <= n_chunks,
                        n_arch == l.len(),
                        n_sets == l[a as int].chunksets.len(),
                        cs == l[a as int].chunksets[s as int],
                        n_chunks == cs.len(),
                        l == world_layout(*w),
                l == world_layout(self.scene.world),
                reg == self.component_registry@.dom(),
                        reg == registry@.dom(),
                        registry.wf(),
                        types@ == l[a as int].types,
                        base_s == base_a + archetype_records(l, a as int, s as int),
                        record_views(out@) == base_s + chunkset_records(
                            l,
                            a as int,
                            s as int,
                            c as int,
                        ),
                        forall|x: int| 0 <= x < a ==> archetype_sound(#[trigger] l[x], reg),
                        forall|y: int|
                            0 <= y < s ==> chunkset_sound(
                                l[a as int],
                                #[trigger] l[a as int].chunksets[y],
                                reg,
                            ),
                        forall|z: int| 0 <= z < c ==> chunk_sound(l[a as int], #[trigger] cs[z], reg),
                    decreases n_chunks - c,
                {
                    let ids = chunk_entity_indices(w, a, s, c);
                    if ids.len() > 0 {
                        match check_chunk(w, registry, &types, a, s, c) {
                            Ok(()) => {},
                            Err(e) => {
                                assert(!chunk_sound(l[a as int], cs[c as int], reg));
                                assert(!chunkset_sound(l[a as int], cs, reg));
                                assert(!archetype_sound(l[a as int], reg));
                                assert(!world_sound(l, reg));
                                return Err(e);
                            },
                        }
                    }
                    write_chunk(&mut out, w, &types, &ids, a, s, c);
                    c = c + 1;
                    assert(record_views(out@) =~= base_s + chunkset_records(
                        l,
                        a as int,
                        s as int,
                        c as int,
                    ));
                }
                s = s + 1;
                assert(record_views(out@) =~= base_a + archetype_records(l, a as int, s as int));
            }
            a = a + 1;
            assert(record_views(out@) =~= archetypes_records(l, a as int));
        }
        Ok(out)
    }
}

} // verus!
