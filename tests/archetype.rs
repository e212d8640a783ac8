use ecs::archetype::{Archetype, ArchetypeStorage, Entity, EntityLayout};

#[test]
fn archetype_create_from_layout() {
    let mut archetype_manager = ArchetypeStorage::new();

    let layout = EntityLayout::new();
    archetype_manager.create_from_layout(layout);

    let length = archetype_manager.len();
    assert_eq!(length, 1);
}

#[test]
fn archetype_find_from_layout() {
    let mut archetype_manager = ArchetypeStorage::new();

    let layout = EntityLayout::new();
    archetype_manager.create_from_layout(layout.clone());
    let archetype = archetype_manager.find_from_layout(&layout).unwrap();

    assert_eq!(*archetype, Archetype::new(0, layout));
}

#[test]
fn archetype_find_from_entity() {
    let mut archetype_manager = ArchetypeStorage::new();
    let entity = Entity(0);

    let layout = EntityLayout::new();
    let new_archetype = archetype_manager.create_from_layout(layout.clone());
    new_archetype.assigne_entity(&entity);

    let archetype = archetype_manager.find_from_entity(&entity).unwrap();

    let mut expected = Archetype::new(0, layout);
    expected.assigne_entity(&entity);
    assert_eq!(*archetype, expected);
}

#[test]
fn layout_equality_is_order_sensitive() {
    let mut ab = EntityLayout::new();
    ab.register_component(1);
    ab.register_component(2);
    let mut ba = EntityLayout::new();
    ba.register_component(2);
    ba.register_component(1);
    assert!(ab != ba);
    assert!(ab == ab.clone());
    assert_eq!(ab.into_types(), vec![1, 2]);
}

#[test]
fn layout_keeps_duplicates_and_finds_first() {
    let mut layout = EntityLayout::new();
    layout.register_component(7);
    layout.register_component(3);
    layout.register_component(7);
    assert_eq!(layout.len(), 3);
    assert!(layout.containes_type(3));
    assert!(!layout.containes_type(4));
    assert_eq!(layout.position(7), Some(0));
    assert_eq!(layout.position(3), Some(1));
    assert_eq!(layout.position(4), None);
    let longer = layout.extended(9);
    assert_eq!(longer.into_types(), vec![7, 3, 7, 9]);
}

#[test]
fn archetype_membership() {
    let mut layout = EntityLayout::new();
    layout.register_component(5);
    let mut archetype = Archetype::new(3, layout.clone());
    assert_eq!(archetype.index(), 3);
    assert!(*archetype.layout() == layout);
    archetype.assigne_entity(&Entity(1));
    archetype.assigne_entity(&Entity(2));
    assert!(archetype.contains_entity(&Entity(1)));
    archetype.unassigne_entity(&Entity(1));
    assert!(!archetype.contains_entity(&Entity(1)));
    assert!(archetype.contains_entity(&Entity(2)));
}

#[test]
fn registry_lookups() {
    let mut registry = ArchetypeStorage::new();
    let mut a = EntityLayout::new();
    a.register_component(1);
    let mut b = EntityLayout::new();
    b.register_component(2);
    registry.create_from_layout(a.clone());
    registry.create_from_layout(b.clone()).assigne_entity(&Entity(4));
    assert_eq!(registry.len(), 2);
    assert_eq!(registry.get(1).index(), 1);
    assert_eq!(registry.find_from_layout(&b).unwrap().index(), 1);
    assert_eq!(registry.find_from_entity(&Entity(4)).unwrap().index(), 1);
    assert!(registry.find_from_entity(&Entity(5)).is_none());
    let mut c = EntityLayout::new();
    c.register_component(3);
    assert!(registry.find_from_layout(&c).is_none());
    registry.find_from_layout_mut(&a).unwrap().assigne_entity(&Entity(6));
    assert_eq!(registry.find_from_entity_mut(&Entity(6)).unwrap().index(), 0);
    registry.get_mut(0).unassigne_entity(&Entity(6));
    assert!(registry.find_from_entity(&Entity(6)).is_none());
}

#[test]
fn assign_to_layout_reuses_and_creates() {
    let mut registry = ArchetypeStorage::new();
    let mut a = EntityLayout::new();
    a.register_component(1);
    assert_eq!(registry.assign_to_layout(&Entity(0), a.clone()), 0);
    assert_eq!(registry.assign_to_layout(&Entity(1), a.clone()), 0);
    let mut b = a.clone();
    b.register_component(2);
    assert_eq!(registry.assign_to_layout(&Entity(2), b), 1);
    assert_eq!(registry.len(), 2);
    assert_eq!(Entity(9).id(), 9);
}
