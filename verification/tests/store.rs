use ecs_core::component::ComponentArray;
use ecs_core::component::ComponentStorage;
use ecs_core::entity::Entity;

fn abc_store() -> ComponentArray<&'static str> {
    let mut store: ComponentArray<&'static str> = ComponentArray::new(4);
    store.insert(Entity::new(0), "A");
    store.insert(Entity::new(1), "B");
    store.insert(Entity::new(2), "C");
    store
}

fn retire<S: ComponentStorage>(storage: &mut S, entity: Entity) {
    storage.destroy_entity(entity);
}

#[test]
fn new_store_is_empty() {
    let store: ComponentArray<u64> = ComponentArray::new(8);
    assert_eq!(store.len(), 0);
    assert!(store.is_empty());
    assert_eq!(store.capacity(), 8);
    assert_eq!(store.get(Entity::new(0)), None);
    assert!(!store.contains(Entity::new(0)));
    assert_eq!(store.values(), &[] as &[u64]);
    assert_eq!(store.entity_at(0), None);
}

#[test]
fn store_of_capacity_zero_is_empty() {
    let mut store: ComponentArray<u8> = ComponentArray::new(0);
    assert_eq!(store.len(), 0);
    assert!(store.is_empty());
    assert_eq!(store.capacity(), 0);
    assert_eq!(store.remove(Entity::new(0)), None);
}

#[test]
fn insert_in_order_keeps_every_value() {
    let mut store: ComponentArray<u32> = ComponentArray::new(5);
    let ids = [7u32, 3, 900, 0, 41];
    for (k, id) in ids.iter().enumerate() {
        store.insert(Entity::new(*id), *id * 10 + 1);
        assert_eq!(store.len(), k + 1);
    }
    assert!(!store.is_empty());
    for id in ids.iter() {
        assert_eq!(store.get(Entity::new(*id)), Some(&(*id * 10 + 1)));
        assert!(store.contains(Entity::new(*id)));
    }
    assert_eq!(store.values(), &[71, 31, 9001, 1, 411]);
    for (k, id) in ids.iter().enumerate() {
        assert_eq!(store.entity_at(k), Some(Entity::new(*id)));
    }
    assert_eq!(store.entity_at(5), None);
}

#[test]
fn swap_remove_scenario() {
    let mut store = abc_store();
    assert_eq!(store.values(), &["A", "B", "C"]);
    assert_eq!(store.len(), 3);

    assert_eq!(store.remove(Entity::new(0)), Some("A"));

    assert_eq!(store.values(), &["C", "B"]);
    assert_eq!(store.entity_at(0), Some(Entity::new(2)));
    assert_eq!(store.entity_at(1), Some(Entity::new(1)));
    assert_eq!(store.entity_at(2), None);
    assert_eq!(store.len(), 2);
    assert_eq!(store.get(Entity::new(0)), None);
    assert_eq!(store.get(Entity::new(1)), Some(&"B"));
    assert_eq!(store.get(Entity::new(2)), Some(&"C"));
}

#[test]
fn remove_from_the_middle_preserves_the_others() {
    let mut store: ComponentArray<i64> = ComponentArray::new(6);
    for id in 10u32..15 {
        store.insert(Entity::new(id), -(id as i64));
    }
    assert_eq!(store.remove(Entity::new(12)), Some(-12));
    assert_eq!(store.len(), 4);
    assert_eq!(store.get(Entity::new(12)), None);
    assert!(!store.contains(Entity::new(12)));
    for id in [10u32, 11, 13, 14] {
        assert_eq!(store.get(Entity::new(id)), Some(&-(id as i64)));
    }
    assert_eq!(store.values(), &[-10, -11, -14, -13]);
}

#[test]
fn remove_of_the_last_slot_moves_nothing() {
    let mut store = abc_store();
    assert_eq!(store.remove(Entity::new(2)), Some("C"));
    assert_eq!(store.values(), &["A", "B"]);
    assert_eq!(store.entity_at(0), Some(Entity::new(0)));
    assert_eq!(store.entity_at(1), Some(Entity::new(1)));
    assert_eq!(store.get(Entity::new(2)), None);
    assert_eq!(store.get(Entity::new(0)), Some(&"A"));
    assert_eq!(store.get(Entity::new(1)), Some(&"B"));
}

#[test]
fn remove_of_the_only_value_empties_the_store() {
    let mut store: ComponentArray<u8> = ComponentArray::new(2);
    store.insert(Entity::new(5), 9);
    assert_eq!(store.remove(Entity::new(5)), Some(9));
    assert_eq!(store.len(), 0);
    assert!(store.is_empty());
    assert_eq!(store.get(Entity::new(5)), None);
    assert_eq!(store.values(), &[] as &[u8]);
}

#[test]
fn remove_of_an_absent_entity_reports_it_and_changes_nothing() {
    let mut store = abc_store();
    assert_eq!(store.remove(Entity::new(3)), None);
    assert_eq!(store.len(), 3);
    assert_eq!(store.values(), &["A", "B", "C"]);
    assert_eq!(store.remove(Entity::new(1)), Some("B"));
    assert_eq!(store.remove(Entity::new(1)), None);
    assert_eq!(store.len(), 2);
}

#[test]
fn lookup_of_an_absent_entity_fails() {
    let mut store = abc_store();
    assert_eq!(store.get(Entity::new(3)), None);
    assert_eq!(store.get(Entity::new(u32::MAX)), None);
    assert!(store.get_mut(Entity::new(3)).is_none());
    assert!(!store.contains(Entity::new(3)));
    assert_eq!(store.values(), &["A", "B", "C"]);
}

#[test]
fn get_mut_changes_one_value_only() {
    let mut store = abc_store();
    match store.get_mut(Entity::new(1)) {
        Some(value) => {
            assert_eq!(*value, "B");
            *value = "b";
        }
        None => panic!("entity 1 has a value"),
    }
    assert_eq!(store.get(Entity::new(1)), Some(&"b"));
    assert_eq!(store.get(Entity::new(0)), Some(&"A"));
    assert_eq!(store.get(Entity::new(2)), Some(&"C"));
    assert_eq!(store.len(), 3);
    assert_eq!(store.values(), &["A", "b", "C"]);
}

#[test]
fn destroy_entity_twice_is_as_once() {
    let mut once = abc_store();
    once.destroy_entity(Entity::new(1));
    let mut twice = abc_store();
    twice.destroy_entity(Entity::new(1));
    twice.destroy_entity(Entity::new(1));
    assert_eq!(once.len(), 2);
    assert_eq!(twice.len(), 2);
    assert_eq!(once.values(), twice.values());
    for id in 0u32..4 {
        assert_eq!(once.get(Entity::new(id)), twice.get(Entity::new(id)));
        assert_eq!(once.entity_at(id as usize), twice.entity_at(id as usize));
    }
    assert_eq!(twice.get(Entity::new(1)), None);
}

#[test]
fn destroy_entity_of_an_absent_entity_is_a_no_op() {
    let mut store = abc_store();
    store.destroy_entity(Entity::new(9));
    assert_eq!(store.len(), 3);
    assert_eq!(store.values(), &["A", "B", "C"]);
}

#[test]
fn destroy_entity_through_the_storage_trait() {
    let mut store = abc_store();
    retire(&mut store, Entity::new(0));
    assert_eq!(store.len(), 2);
    assert_eq!(store.get(Entity::new(0)), None);
    assert_eq!(store.get(Entity::new(2)), Some(&"C"));
    let storages: Vec<Box<dyn ComponentStorage>> = vec![Box::new(store), Box::new(abc_store())];
    let mut count = 0;
    for mut storage in storages {
        storage.destroy_entity(Entity::new(1));
        count += 1;
    }
    assert_eq!(count, 2);
}

#[test]
fn insert_then_remove_is_a_round_trip() {
    let mut store = abc_store();
    store.insert(Entity::new(77), "Z");
    assert_eq!(store.len(), 4);
    assert_eq!(store.get(Entity::new(77)), Some(&"Z"));
    assert_eq!(store.remove(Entity::new(77)), Some("Z"));
    let untouched = abc_store();
    assert_eq!(store.len(), untouched.len());
    assert_eq!(store.values(), untouched.values());
    for id in [0u32, 1, 2, 3, 77] {
        assert_eq!(store.get(Entity::new(id)), untouched.get(Entity::new(id)));
    }
}

#[test]
fn a_vacated_slot_is_taken_by_the_next_insert() {
    let mut store = abc_store();
    assert_eq!(store.remove(Entity::new(1)), Some("B"));
    assert_eq!(store.values(), &["A", "C"]);
    store.insert(Entity::new(8), "D");
    assert_eq!(store.values(), &["A", "C", "D"]);
    assert_eq!(store.entity_at(2), Some(Entity::new(8)));
    assert_eq!(store.get(Entity::new(8)), Some(&"D"));
    store.insert(Entity::new(1), "E");
    assert_eq!(store.values(), &["A", "C", "D", "E"]);
    assert_eq!(store.get(Entity::new(1)), Some(&"E"));
    assert_eq!(store.len(), 4);
}

#[test]
fn a_store_can_be_filled_to_its_capacity() {
    let mut store: ComponentArray<usize> = ComponentArray::new(3);
    for id in 0u32..3 {
        assert!(store.len() < store.capacity());
        store.insert(Entity::new(id), id as usize + 100);
    }
    assert_eq!(store.len(), store.capacity());
    assert_eq!(store.values(), &[100, 101, 102]);
}

#[test]
fn the_largest_identifier_is_an_ordinary_key() {
    let mut store: ComponentArray<char> = ComponentArray::new(2);
    store.insert(Entity::new(u32::MAX), 'x');
    store.insert(Entity::new(0), 'y');
    assert_eq!(store.get(Entity::new(u32::MAX)), Some(&'x'));
    assert_eq!(store.remove(Entity::new(u32::MAX)), Some('x'));
    assert_eq!(store.entity_at(0), Some(Entity::new(0)));
    assert_eq!(store.get(Entity::new(0)), Some(&'y'));
}
