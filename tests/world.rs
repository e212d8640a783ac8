use ecs::storage::{Component, ComponentType};
use ecs::location::EntityLocation;
use ecs::world::World;

#[derive(Debug, PartialEq, Clone)]
enum Comp {
    Health(f32),
    Stamina(f32),
    Transform { x: f32, y: f32 },
}

const HEALTH: ComponentType = 0;
const STAMINA: ComponentType = 1;
const TRANSFORM: ComponentType = 2;

impl Component for Comp {
    fn spec_component_type(&self) -> ComponentType {
        self.component_type()
    }

    fn component_type(&self) -> ComponentType {
        match self {
            Comp::Health(_) => HEALTH,
            Comp::Stamina(_) => STAMINA,
            Comp::Transform { .. } => TRANSFORM,
        }
    }
}

#[test]
fn spawn_entity_with_single_compenent() {
    let mut world = World::new();

    let entity = world.spawn(Comp::Health(200.00));

    assert_eq!(
        *world.entry(&entity).get_component(HEALTH).unwrap(),
        Comp::Health(200.00)
    );
}

#[test]
fn spawn_entitys_check_archetypes() {
    let mut world = World::new();

    world.spawn(Comp::Health(100.00));
    world.spawn(Comp::Stamina(300.00));
    world.spawn(Comp::Health(100.00));
    world.spawn(Comp::Stamina(300.00));

    assert_eq!(world.archetypes.len(), 2);
}

#[test]
fn spawn_gives_only_the_spawned_component() {
    let mut world = World::new();
    let e = world.spawn(Comp::Stamina(5.0));
    assert_eq!(world.get_component(&e, STAMINA), Some(&Comp::Stamina(5.0)));
    assert_eq!(world.get_component(&e, HEALTH), None);
    assert_eq!(world.get_component(&e, TRANSFORM), None);
}

#[test]
fn spawn_allocates_increasing_ids() {
    let mut world = World::new();
    let a = world.spawn(Comp::Health(1.0));
    let b = world.spawn(Comp::Health(2.0));
    let c = world.spawn(Comp::Stamina(3.0));
    assert_eq!((a.id(), b.id(), c.id()), (0, 1, 2));
    assert_eq!(world.get_component(&b, HEALTH), Some(&Comp::Health(2.0)));
    assert_eq!(world.get_component(&a, HEALTH), Some(&Comp::Health(1.0)));
}

#[test]
fn extend_adds_and_keeps_components() {
    let mut world = World::new();
    let e = world.spawn(Comp::Health(10.0));
    let other = world.spawn(Comp::Health(20.0));
    world.extend(&e, Comp::Stamina(30.0));
    assert_eq!(world.get_component(&e, STAMINA), Some(&Comp::Stamina(30.0)));
    assert_eq!(world.get_component(&e, HEALTH), Some(&Comp::Health(10.0)));
    assert_eq!(world.get_component(&other, HEALTH), Some(&Comp::Health(20.0)));
    assert_eq!(world.get_component(&other, STAMINA), None);
    assert_eq!(world.entry(&e).archetype().layout().len(), 2);
}

#[test]
fn extend_with_a_type_already_held_keeps_the_first_value() {
    let mut world = World::new();
    let e = world.spawn(Comp::Health(1.0));
    world.extend(&e, Comp::Health(2.0));
    assert_eq!(world.get_component(&e, HEALTH), Some(&Comp::Health(1.0)));
    assert_eq!(
        world.entry(&e).archetype().layout().clone().into_types(),
        vec![HEALTH, HEALTH]
    );
    assert_eq!(world.query(HEALTH).len(), 2);
}

#[test]
fn each_entity_is_in_exactly_one_archetype() {
    let mut world = World::new();
    let a = world.spawn(Comp::Health(1.0));
    let b = world.spawn(Comp::Stamina(2.0));
    let c = world.spawn(Comp::Health(3.0));
    world.extend(&a, Comp::Stamina(4.0));
    world.extend(&b, Comp::Health(5.0));
    for e in [a, b, c] {
        let mut count = 0;
        for i in 0..world.archetypes.len() {
            if world.archetypes.get(i as u32).contains_entity(&e) {
                count += 1;
            }
        }
        assert_eq!(count, 1);
    }
    assert_eq!(world.archetypes.len(), 4);
}

#[test]
fn absent_exactly_when_type_not_in_layout() {
    let mut world = World::new();
    let e = world.spawn(Comp::Transform { x: 0.0, y: 1.0 });
    world.extend(&e, Comp::Health(9.0));
    let layout = world.entry(&e).archetype().layout().clone();
    for t in [HEALTH, STAMINA, TRANSFORM] {
        assert_eq!(
            world.get_component(&e, t).is_none(),
            !layout.containes_type(t)
        );
    }
}

#[test]
fn stored_values_keep_their_positions() {
    let mut world = World::new();
    world.spawn(Comp::Health(1.0));
    world.spawn(Comp::Health(2.0));
    let before: Vec<Comp> = world.query(HEALTH).to_vec();
    let e = world.spawn(Comp::Stamina(3.0));
    world.extend(&e, Comp::Health(4.0));
    let after = world.query(HEALTH);
    assert_eq!(&after[..2], &before[..]);
    assert_eq!(after[2], Comp::Health(4.0));
}

#[test]
fn query_of_unknown_type_is_empty() {
    let mut world: World<Comp> = World::new();
    assert!(world.query(STAMINA).is_empty());
}

#[test]
fn insertion_order_gives_distinct_archetypes() {
    let mut world = World::new();
    let player = world.spawn(Comp::Health(200.0));
    assert_eq!(
        *world.entry(&player).get_component(HEALTH).unwrap(),
        Comp::Health(200.0)
    );
    world.spawn(Comp::Stamina(300.0));
    world.spawn(Comp::Health(100.0));
    world.spawn(Comp::Stamina(300.0));
    assert_eq!(world.archetypes.len(), 2);

    let moved = world.spawn(Comp::Transform { x: 1.0, y: 199.0 });
    world.extend(&moved, Comp::Health(100.0));
    let first = world.spawn(Comp::Health(50.0));
    world.extend(&first, Comp::Transform { x: 2.0, y: 3.0 });

    let moved_layout = world.entry(&moved).archetype().layout().clone();
    let first_layout = world.entry(&first).archetype().layout().clone();
    assert!(moved_layout != first_layout);
    assert_eq!(moved_layout.into_types(), vec![TRANSFORM, HEALTH]);
    assert_eq!(first_layout.into_types(), vec![HEALTH, TRANSFORM]);
    assert_ne!(
        world.entry(&moved).archetype().index(),
        world.entry(&first).archetype().index()
    );
    assert_eq!(
        world.get_component(&moved, TRANSFORM),
        Some(&Comp::Transform { x: 1.0, y: 199.0 })
    );
    assert_eq!(world.get_component(&moved, HEALTH), Some(&Comp::Health(100.0)));
}

#[test]
fn entry_mut_adds_and_reads() {
    let mut world = World::new();
    let player = world.spawn(Comp::Transform { x: 1.0, y: 199.0 });
    let mut entry = world.entry_mut(&player);
    entry.add_component(Comp::Health(200.0));
    assert_eq!(entry.entity().id(), player.id());
    assert_eq!(entry.archetype().layout().len(), 2);
    assert_eq!(entry.get_component(HEALTH), Some(&Comp::Health(200.0)));
    assert_eq!(
        entry.get_component(TRANSFORM),
        Some(&Comp::Transform { x: 1.0, y: 199.0 })
    );
    assert_eq!(entry.get_component(STAMINA), None);
}

#[test]
fn entry_ref_reads() {
    let mut world = World::new();
    let e = world.spawn(Comp::Stamina(8.0));
    let entry = world.entry(&e);
    assert_eq!(entry.entity().id(), e.id());
    assert_eq!(entry.archetype().index(), 0);
    assert_eq!(entry.get_component(STAMINA), Some(&Comp::Stamina(8.0)));
    assert_eq!(entry.get_component(HEALTH), None);
}

#[test]
fn location_lists_follow_spawn_and_extend() {
    let mut world = World::new();
    let a = world.spawn(Comp::Health(1.0));
    let b = world.spawn(Comp::Health(2.0));
    assert_eq!(world.locations.get(&a), &[EntityLocation(0, 0)]);
    assert_eq!(world.locations.get(&b), &[EntityLocation(0, 1)]);
    world.extend(&a, Comp::Stamina(3.0));
    assert_eq!(
        world.locations.get(&a),
        &[EntityLocation(0, 0), EntityLocation(1, 0)]
    );
    assert_eq!(world.locations.get(&b), &[EntityLocation(0, 1)]);
    assert_eq!(world.archetypes.find_from_entity(&a).unwrap().index(), 1);
    assert_eq!(world.archetypes.find_from_entity(&b).unwrap().index(), 0);
}
