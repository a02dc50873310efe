//! The parts of legion's storage that the scene traversal reads, and a plain
//! model of them.
use legion::prelude::World;
use legion::storage::ComponentTypeId;
use vstd::prelude::*;

verus! {

#[verifier::external_type_specification]
#[verifier::external_body]
pub struct ExWorld(legion::prelude::World);

#[verifier::external_type_specification]
#[verifier::external_body]
pub struct ExComponentTypeId(legion::storage::ComponentTypeId);

/// One occupied chunk: the public indices of the entities in its slots, in
/// slot order, and the component types for which it holds a column.
pub struct ChunkLayout {
    pub entities: Seq<u32>,
    pub columns: Set<ComponentTypeId>,
}

/// One archetype: its declared component types, in declaration order, and
/// its chunksets, each given as the list of its occupied chunks.
pub struct ArchetypeLayout {
    pub types: Seq<ComponentTypeId>,
    pub chunksets: Seq<Seq<ChunkLayout>>,
}

/// What a world's storage holds, archetype by archetype, in storage order.
pub uninterp spec fn world_layout(w: World) -> Seq<ArchetypeLayout>;

pub open spec fn valid_chunkset(w: World, a: int, s: int) -> bool {
    &&& 0 <= a < world_layout(w).len()
    &&& 0 <= s < world_layout(w)[a].chunksets.len()
}

pub open spec fn valid_chunk(w: World, a: int, s: int, c: int) -> bool {
    &&& valid_chunkset(w, a, s)
    &&& 0 <= c < world_layout(w)[a].chunksets[s].len()
}

/// Relies on `ComponentTypeId`'s derived `PartialEq`: two ids compare equal
/// exactly when they are the same id.
#[verifier::external_body]
pub(crate) fn same_component_type(x: &ComponentTypeId, y: &ComponentTypeId) -> (r: bool)
    ensures
        r == (*x == *y),
{
    x == y
}

/// Relies on `Storage::archetypes` (reached through `World::storage`): the
/// archetypes of the world, in storage order.
#[verifier::external_body]
pub(crate) fn archetype_count(w: &World) -> (r: usize)
    ensures
        r == world_layout(*w).len(),
{
    w.storage().archetypes().len()
}

/// Relies on `ArchetypeData::description` and
/// `ArchetypeDescription::components`: the archetype's component types, in
/// declaration order, without their layout metadata.
#[verifier::external_body]
pub(crate) fn archetype_component_types(w: &World, a: usize) -> (r: Vec<ComponentTypeId>)
    requires
        0 <= a < world_layout(*w).len(),
    ensures
        r@ == world_layout(*w)[a as int].types,
{
    w.storage().archetypes()[a].description().components().iter().map(|c| c.0).collect()
}

/// Relies on `ArchetypeData::chunksets`: the number of chunksets of an
/// archetype.
#[verifier::external_body]
pub(crate) fn chunkset_count(w: &World, a: usize) -> (r: usize)
    requires
        0 <= a < world_layout(*w).len(),
    ensures
        r == world_layout(*w)[a as int].chunksets.len(),
{
    w.storage().archetypes()[a].chunksets().len()
}

/// Relies on `Chunkset::occupied`: the number of occupied chunks of a
/// chunkset.
#[verifier::external_body]
pub(crate) fn occupied_chunk_count(w: &World, a: usize, s: usize) -> (r: usize)
    requires
        valid_chunkset(*w, a as int, s as int),
    ensures
        r == world_layout(*w)[a as int].chunksets[s as int].len(),
{
    w.storage().archetypes()[a].chunksets()[s].occupied().len()
}

/// Relies on `ComponentStorage::entities` and `Entity::index`: the public
/// index of the entity in each slot of a chunk, in slot order.
#[verifier::external_body]
pub(crate) fn chunk_entity_indices(w: &World, a: usize, s: usize, c: usize) -> (r: Vec<u32>)
    requires
        valid_chunk(*w, a as int, s as int, c as int),
    ensures
        r@ == world_layout(*w)[a as int].chunksets[s as int][c as int].entities,
{
    let chunk = &w.storage().archetypes()[a].chunksets()[s].occupied()[c];
    chunk.entities().iter().map(|e| e.index()).collect()
}

/// Relies on `ComponentStorage::components`: whether a chunk holds a column
/// for a component type.
#[verifier::external_body]
pub(crate) fn chunk_has_column(w: &World, a: usize, s: usize, c: usize, ty: ComponentTypeId) -> (r:
    bool)
    requires
        valid_chunk(*w, a as int, s as int, c as int),
    ensures
        r == world_layout(*w)[a as int].chunksets[s as int][c as int].columns.contains(ty),
{
    w.storage().archetypes()[a].chunksets()[s].occupied()[c].components(ty).is_some()
}

} // verus!
