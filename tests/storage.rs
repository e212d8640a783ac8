use ecs::location::{EntityLocation, LocationMap};
use ecs::archetype::Entity;
use ecs::query::{Query, QueryBuilder};
use ecs::storage::{ComponentStorages, Storage, VecStorage};

#[test]
fn vec_storage_positions_are_stable() {
    let mut storage: VecStorage<i64> = VecStorage::new();
    assert_eq!(storage.push_component(10), 0);
    assert_eq!(storage.push_component(20), 1);
    assert_eq!(storage.get_component(0), Some(&10));
    assert_eq!(storage.push_component(30), 2);
    assert_eq!(storage.get_component(0), Some(&10));
    assert_eq!(storage.get_component(1), Some(&20));
    assert_eq!(storage.get_component(3), None);
    assert_eq!(storage.size(), 3);
    assert_eq!(storage.as_slice(), &[10, 20, 30]);
}

#[test]
fn vec_storage_get_mut() {
    let mut storage: VecStorage<i64> = VecStorage::new();
    storage.push_component(1);
    *storage.get_component_mut(0).unwrap() = 5;
    assert!(storage.get_component_mut(1).is_none());
    assert_eq!(storage.as_slice(), &[5]);
}

#[test]
fn component_storages_are_created_on_first_use() {
    let mut storages: ComponentStorages<i64> = ComponentStorages::new();
    assert_eq!(storages.get_storage(4).size(), 0);
    storages.get_storage_mut(4).push_component(7);
    storages.get_storage_mut(4).push_component(8);
    assert_eq!(storages.get_storage(4).as_slice(), &[7, 8]);
    assert_eq!(storages.get_storage_raw(4).size(), 2);
    storages.get_storage_raw_mut(4).push_component(9);
    assert_eq!(storages.get_storage_raw(4).as_slice(), &[7, 8, 9]);
    storages.create_storage(4);
    assert_eq!(storages.get_storage_raw(4).as_slice(), &[7, 8, 9]);
    storages.create_storage(5);
    assert_eq!(storages.get_storage_raw(5).size(), 0);
}

#[test]
fn location_map_records_locations() {
    let mut map = LocationMap::new();
    let loc = EntityLocation::new(2, 5);
    assert_eq!((loc.archetype(), loc.component()), (2, 5));
    map.insert(Entity(1), vec![loc]);
    map.get_mut(&Entity(1)).push(EntityLocation::new(3, 0));
    assert_eq!(map.get(&Entity(1)), &[EntityLocation(2, 5), EntityLocation(3, 0)]);
    map.insert(Entity(1), vec![]);
    assert!(map.get(&Entity(1)).is_empty());
}

#[test]
fn query_builder_keeps_order() {
    let query: Query = Query::builder().with(3).with(1).build();
    assert_eq!(query.components(), &vec![3, 1]);
    let empty = QueryBuilder::new().build();
    assert!(empty.components().is_empty());
}
