use bevy_serialization::registry::{ComponentRegistration, ComponentRegistry};
use bevy_serialization::scene::{EntityRecord, Scene, SceneError, SerializableScene};
use legion::prelude::{Entity, World};
use legion::storage::ComponentTypeId;

#[derive(Clone, Copy, Debug, PartialEq)]
struct Position {
    x: i32,
    y: i32,
}

#[derive(Clone, Copy, Debug, PartialEq)]
struct Velocity {
    dx: i32,
    dy: i32,
}

#[derive(Clone, Copy, Debug, PartialEq)]
struct Health(u32);

fn registration(ty: ComponentTypeId, name: &'static str) -> ComponentRegistration<&'static str> {
    ComponentRegistration { ty, individual_comp_serialize_fn: name }
}

fn full_registry() -> ComponentRegistry<&'static str> {
    let mut registry = ComponentRegistry::new();
    registry.register(registration(ComponentTypeId::of::<Position>(), "position"));
    registry.register(registration(ComponentTypeId::of::<Velocity>(), "velocity"));
    registry
}

fn example_scene() -> (Scene, Vec<Entity>) {
    let mut world = World::new();
    let mut entities = Vec::new();
    entities.extend_from_slice(world.insert(
        (),
        vec![(Position { x: 1, y: 2 },), (Position { x: 3, y: 4 },)],
    ));
    entities.extend_from_slice(
        world.insert((), vec![(Position { x: 5, y: 6 }, Velocity { dx: 1, dy: -1 })]),
    );
    (Scene { world }, entities)
}

fn records(scene: &Scene, registry: &ComponentRegistry<&'static str>) -> Vec<EntityRecord> {
    match SerializableScene::new(scene, registry).entity_records() {
        Ok(v) => v,
        Err(_) => panic!("the pass failed"),
    }
}

#[test]
fn two_archetypes_three_records() {
    let (scene, _) = example_scene();
    let registry = full_registry();
    let out = records(&scene, &registry);
    assert_eq!(out.len(), 3);
    let position = ComponentTypeId::of::<Position>();
    let velocity = ComponentTypeId::of::<Velocity>();
    assert_eq!(out[0].components, vec![position]);
    assert_eq!(out[1].components, vec![position]);
    assert_eq!(out[2].components.len(), 2);
    assert!(out[2].components.contains(&position));
    assert!(out[2].components.contains(&velocity));
}

#[test]
fn components_follow_archetype_order() {
    let (scene, _) = example_scene();
    let registry = full_registry();
    let out = records(&scene, &registry);
    let archetypes = scene.world.storage().archetypes();
    for record in &out {
        let declared: Vec<ComponentTypeId> = archetypes[record.archetype]
            .description()
            .components()
            .iter()
            .map(|c| c.0)
            .collect();
        assert_eq!(record.components, declared);
    }
}

#[test]
fn ids_are_public_entity_indices() {
    let (scene, entities) = example_scene();
    let registry = full_registry();
    let out = records(&scene, &registry);
    let mut ids: Vec<u32> = out.iter().map(|r| r.id).collect();
    let mut expected: Vec<u32> = entities.iter().map(|e| e.index()).collect();
    ids.sort();
    expected.sort();
    assert_eq!(ids, expected);
    let archetypes = scene.world.storage().archetypes();
    for record in &out {
        let chunk = &archetypes[record.archetype].chunksets()[record.chunkset].occupied()[record.chunk];
        assert_eq!(chunk.entities()[record.slot].index(), record.id);
    }
}

#[test]
fn records_follow_storage_order() {
    let (scene, _) = example_scene();
    let registry = full_registry();
    let out = records(&scene, &registry);
    for pair in out.windows(2) {
        let a = (pair[0].archetype, pair[0].chunkset, pair[0].chunk, pair[0].slot);
        let b = (pair[1].archetype, pair[1].chunkset, pair[1].chunk, pair[1].slot);
        assert!(a < b);
    }
}

#[test]
fn empty_world_has_no_records() {
    let scene = Scene { world: World::new() };
    let registry: ComponentRegistry<&'static str> = ComponentRegistry::new();
    let out = records(&scene, &registry);
    assert!(out.is_empty());
}

#[test]
fn deleted_entity_is_not_written() {
    let (mut scene, entities) = example_scene();
    assert!(scene.world.delete(entities[0]));
    let registry = full_registry();
    let out = records(&scene, &registry);
    assert_eq!(out.len(), 2);
    assert!(out.iter().all(|r| r.id != entities[0].index()));
}

#[test]
fn two_passes_agree() {
    let (scene, _) = example_scene();
    let registry = full_registry();
    let first = records(&scene, &registry);
    let second = records(&scene, &registry);
    assert_eq!(first.len(), second.len());
    for (x, y) in first.iter().zip(second.iter()) {
        assert_eq!(x.id, y.id);
        assert_eq!(
            (x.archetype, x.chunkset, x.chunk, x.slot),
            (y.archetype, y.chunkset, y.chunk, y.slot)
        );
        assert_eq!(x.components, y.components);
    }
}

#[test]
fn unregistered_component_fails() {
    let (scene, _) = example_scene();
    let mut registry = ComponentRegistry::new();
    registry.register(registration(ComponentTypeId::of::<Position>(), "position"));
    match SerializableScene::new(&scene, &registry).entity_records() {
        Ok(_) => panic!("an unregistered type was written"),
        Err(SceneError::UnregisteredComponent { ty, .. }) => {
            assert_eq!(ty, ComponentTypeId::of::<Velocity>())
        }
        Err(SceneError::MissingColumn { .. }) => panic!("wrong error"),
    }
}

#[test]
fn unregistered_type_without_entities_is_not_a_fault() {
    let mut world = World::new();
    let added = world.insert((), vec![(Health(3),)])[0];
    assert!(world.delete(added));
    world.insert((), vec![(Position { x: 0, y: 0 },)]);
    let scene = Scene { world };
    let registry = full_registry();
    let out = records(&scene, &registry);
    assert_eq!(out.len(), 1);
}

#[test]
fn register_twice_keeps_second() {
    let mut registry = ComponentRegistry::new();
    let position = ComponentTypeId::of::<Position>();
    registry.register(registration(position, "first"));
    registry.register(registration(position, "second"));
    assert_eq!(registry.registrations.len(), 1);
    let found = registry.get(position).expect("registered");
    assert_eq!(found.ty, position);
    assert_eq!(found.individual_comp_serialize_fn, "second");
}

#[test]
fn register_keeps_other_types() {
    let mut registry = full_registry();
    let position = ComponentTypeId::of::<Position>();
    let velocity = ComponentTypeId::of::<Velocity>();
    registry.register(registration(velocity, "velocity again"));
    assert_eq!(registry.registrations.len(), 2);
    assert_eq!(registry.get(position).unwrap().individual_comp_serialize_fn, "position");
    assert_eq!(registry.get(velocity).unwrap().individual_comp_serialize_fn, "velocity again");
}

#[test]
fn get_unknown_type_is_none() {
    let registry = full_registry();
    assert!(registry.get(ComponentTypeId::of::<Health>()).is_none());
}

#[test]
fn default_scene_and_registry_are_empty() {
    let scene = Scene::default();
    let registry: ComponentRegistry<&'static str> = ComponentRegistry::default();
    assert!(registry.registrations.is_empty());
    let out = records(&scene, &registry);
    assert_eq!(out.len(), 0);
}

#[test]
fn unregistered_error_names_the_archetype() {
    let (scene, _) = example_scene();
    let mut registry = ComponentRegistry::new();
    registry.register(registration(ComponentTypeId::of::<Position>(), "position"));
    let velocity = ComponentTypeId::of::<Velocity>();
    match SerializableScene::new(&scene, &registry).entity_records() {
        Err(SceneError::UnregisteredComponent { archetype, ty }) => {
            let declared = scene.world.storage().archetypes()[archetype].description().components();
            assert!(declared.iter().any(|c| c.0 == ty));
            assert_eq!(ty, velocity);
        }
        other => panic!("unexpected result: {:?}", other.map(|v| v.len())),
    }
}
