use ecs_core::component::ComponentType;
use ecs_core::entity::Entity;
use ecs_core::entity::EntityError;
use ecs_core::entity::EntityID;
use ecs_core::entity::EntityManager;
use ecs_core::signature::Signature;

fn live_ids(manager: &EntityManager) -> Vec<u32> {
    let mut ids = Vec::new();
    for id in 0..(manager.capacity() as u32 + 3) {
        if manager.is_alive(Entity::new(id)) {
            ids.push(id);
        }
    }
    ids
}

fn signature_of(ids: &[u16]) -> Signature {
    let mut signature = Signature::empty();
    for id in ids {
        signature.set(ComponentType::new(*id), true);
    }
    signature
}

#[test]
fn entity_is_its_identifier() {
    let entity = Entity::new(17);
    assert_eq!(entity.id(), 17);
    assert_eq!(entity, Entity::new(17));
    assert_ne!(entity, Entity::new(18));
    let copy = entity;
    assert_eq!(copy, entity);
    let same: EntityID = entity;
    assert_eq!(same.id(), 17);
}

#[test]
fn new_manager_has_nothing_live() {
    let manager = EntityManager::new(5);
    assert_eq!(manager.capacity(), 5);
    assert_eq!(manager.living_count(), 0);
    assert_eq!(live_ids(&manager), Vec::<u32>::new());
    for id in 0u32..5 {
        match manager.get_signature(Entity::new(id)) {
            Ok(signature) => assert!(signature.is_empty()),
            Err(_) => panic!("slot {} lies in the universe", id),
        }
    }
}

#[test]
fn creation_issues_identifiers_in_rising_order() {
    let mut manager = EntityManager::new(4);
    for id in 0u32..4 {
        assert_eq!(manager.create_entity(), Ok(Entity::new(id)));
        assert_eq!(manager.living_count(), id as usize + 1);
        assert!(manager.is_alive(Entity::new(id)));
    }
    assert_eq!(live_ids(&manager), vec![0, 1, 2, 3]);
}

#[test]
fn creation_fails_when_every_identifier_is_live() {
    let mut manager = EntityManager::new(2);
    assert_eq!(manager.create_entity(), Ok(Entity::new(0)));
    assert_eq!(manager.create_entity(), Ok(Entity::new(1)));
    assert_eq!(manager.create_entity(), Err(EntityError::CapacityExhausted));
    assert_eq!(manager.create_entity(), Err(EntityError::CapacityExhausted));
    assert_eq!(manager.living_count(), 2);
    assert_eq!(live_ids(&manager), vec![0, 1]);
}

#[test]
fn a_universe_of_size_zero_issues_nothing() {
    let mut manager = EntityManager::new(0);
    assert_eq!(manager.capacity(), 0);
    assert_eq!(manager.create_entity(), Err(EntityError::CapacityExhausted));
    assert_eq!(manager.living_count(), 0);
    assert!(!manager.is_alive(Entity::new(0)));
    assert_eq!(manager.destroy_entity(Entity::new(0)), Err(EntityError::OutOfRange));
    assert!(matches!(manager.get_signature(Entity::new(0)), Err(EntityError::OutOfRange)));
}

#[test]
fn destruction_clears_signature_and_liveness() {
    let mut manager = EntityManager::new(3);
    let entity = manager.create_entity().unwrap();
    assert_eq!(manager.set_signature(entity, signature_of(&[1, 5])), Ok(()));
    assert!(manager.is_alive(entity));
    assert_eq!(manager.destroy_entity(entity), Ok(()));
    assert!(!manager.is_alive(entity));
    assert_eq!(manager.living_count(), 0);
    match manager.get_signature(entity) {
        Ok(signature) => {
            assert!(signature.is_empty());
            assert_eq!(signature.count(), 0);
        }
        Err(_) => panic!("the slot lies in the universe"),
    }
}

#[test]
fn destruction_of_a_free_identifier_is_refused() {
    let mut manager = EntityManager::new(3);
    let entity = manager.create_entity().unwrap();
    assert_eq!(manager.destroy_entity(entity), Ok(()));
    assert_eq!(manager.destroy_entity(entity), Err(EntityError::NotAlive));
    assert_eq!(manager.destroy_entity(Entity::new(2)), Err(EntityError::NotAlive));
    assert_eq!(manager.living_count(), 0);
    assert_eq!(manager.create_entity(), Ok(Entity::new(1)));
    assert_eq!(manager.create_entity(), Ok(Entity::new(2)));
    assert_eq!(manager.create_entity(), Ok(Entity::new(0)));
    assert_eq!(manager.create_entity(), Err(EntityError::CapacityExhausted));
}

#[test]
fn destruction_outside_the_universe_is_refused() {
    let mut manager = EntityManager::new(3);
    manager.create_entity().unwrap();
    assert_eq!(manager.destroy_entity(Entity::new(3)), Err(EntityError::OutOfRange));
    assert_eq!(manager.destroy_entity(Entity::new(u32::MAX)), Err(EntityError::OutOfRange));
    assert_eq!(manager.living_count(), 1);
    assert_eq!(live_ids(&manager), vec![0]);
}

#[test]
fn identifiers_are_recycled_first_in_first_out() {
    let mut manager = EntityManager::new(4);
    assert_eq!(manager.create_entity(), Ok(Entity::new(0)));
    assert_eq!(manager.create_entity(), Ok(Entity::new(1)));
    assert_eq!(manager.create_entity(), Ok(Entity::new(2)));
    assert_eq!(manager.destroy_entity(Entity::new(1)), Ok(()));
    assert_eq!(manager.destroy_entity(Entity::new(0)), Ok(()));
    assert_eq!(manager.create_entity(), Ok(Entity::new(3)));
    assert!(!manager.is_alive(Entity::new(1)));
    assert_eq!(manager.create_entity(), Ok(Entity::new(1)));
    assert!(!manager.is_alive(Entity::new(0)));
    assert_eq!(manager.create_entity(), Ok(Entity::new(0)));
    assert_eq!(manager.create_entity(), Err(EntityError::CapacityExhausted));
}

#[test]
fn a_destroyed_identifier_waits_behind_later_ones_too() {
    let mut manager = EntityManager::new(3);
    for _ in 0..3 {
        manager.create_entity().unwrap();
    }
    assert_eq!(manager.destroy_entity(Entity::new(2)), Ok(()));
    assert_eq!(manager.create_entity(), Ok(Entity::new(2)));
    assert_eq!(manager.destroy_entity(Entity::new(0)), Ok(()));
    assert_eq!(manager.destroy_entity(Entity::new(2)), Ok(()));
    assert_eq!(manager.destroy_entity(Entity::new(1)), Ok(()));
    assert_eq!(manager.create_entity(), Ok(Entity::new(0)));
    assert_eq!(manager.create_entity(), Ok(Entity::new(2)));
    assert_eq!(manager.create_entity(), Ok(Entity::new(1)));
}

#[test]
fn the_live_set_has_living_count_members() {
    let mut manager = EntityManager::new(6);
    let mut expected: Vec<u32> = Vec::new();
    let script: [Option<u32>; 12] = [
        None,
        None,
        None,
        Some(1),
        None,
        Some(0),
        Some(0),
        None,
        None,
        None,
        Some(9),
        None,
    ];
    for step in script.iter() {
        match step {
            None => {
                if let Ok(entity) = manager.create_entity() {
                    assert!(!expected.contains(&entity.id()));
                    assert!((entity.id() as usize) < manager.capacity());
                    expected.push(entity.id());
                }
            }
            Some(id) => {
                if manager.destroy_entity(Entity::new(*id)).is_ok() {
                    expected.retain(|live| live != id);
                }
            }
        }
        let mut sorted = expected.clone();
        sorted.sort();
        assert_eq!(live_ids(&manager), sorted);
        assert_eq!(manager.living_count(), sorted.len());
    }
    assert_eq!(live_ids(&manager), vec![0, 1, 2, 3, 4, 5]);
    assert_eq!(manager.living_count(), 6);
}

#[test]
fn signature_is_overwritten_whole() {
    let mut manager = EntityManager::new(2);
    let first = manager.create_entity().unwrap();
    let second = manager.create_entity().unwrap();
    assert_eq!(manager.set_signature(first, signature_of(&[0, 2])), Ok(()));
    assert_eq!(manager.set_signature(second, signature_of(&[63])), Ok(()));
    assert!(manager.get_signature(first).unwrap() == signature_of(&[0, 2]));
    assert_eq!(manager.set_signature(first, signature_of(&[7])), Ok(()));
    let stored = manager.get_signature(first).unwrap();
    assert!(stored == signature_of(&[7]));
    assert!(!stored.test(ComponentType::new(0)));
    assert!(!stored.test(ComponentType::new(2)));
    assert!(stored.test(ComponentType::new(7)));
    assert!(manager.get_signature(second).unwrap() == signature_of(&[63]));
}

#[test]
fn get_signature_hands_out_a_snapshot() {
    let mut manager = EntityManager::new(1);
    let entity = manager.create_entity().unwrap();
    assert_eq!(manager.set_signature(entity, signature_of(&[4])), Ok(()));
    let mut snapshot = manager.get_signature(entity).unwrap();
    snapshot.set(ComponentType::new(9), true);
    snapshot.set(ComponentType::new(4), false);
    assert!(manager.get_signature(entity).unwrap() == signature_of(&[4]));
}

#[test]
fn signature_of_an_entity_that_is_not_live_cannot_be_set() {
    let mut manager = EntityManager::new(2);
    let entity = manager.create_entity().unwrap();
    assert_eq!(
        manager.set_signature(Entity::new(1), signature_of(&[1])),
        Err(EntityError::NotAlive)
    );
    assert_eq!(
        manager.set_signature(Entity::new(2), signature_of(&[1])),
        Err(EntityError::OutOfRange)
    );
    assert_eq!(manager.destroy_entity(entity), Ok(()));
    assert_eq!(manager.set_signature(entity, signature_of(&[1])), Err(EntityError::NotAlive));
    assert!(manager.get_signature(entity).unwrap().is_empty());
    assert!(manager.get_signature(Entity::new(1)).unwrap().is_empty());
}

#[test]
fn signature_outside_the_universe_cannot_be_read() {
    let manager = EntityManager::new(2);
    assert!(matches!(manager.get_signature(Entity::new(2)), Err(EntityError::OutOfRange)));
    assert!(matches!(manager.get_signature(Entity::new(u32::MAX)), Err(EntityError::OutOfRange)));
    assert!(manager.get_signature(Entity::new(1)).is_ok());
}

#[test]
fn an_identifier_outside_the_universe_is_not_live() {
    let mut manager = EntityManager::new(2);
    manager.create_entity().unwrap();
    manager.create_entity().unwrap();
    assert!(manager.is_alive(Entity::new(1)));
    assert!(!manager.is_alive(Entity::new(2)));
    assert!(!manager.is_alive(Entity::new(u32::MAX)));
}

#[test]
fn a_recycled_identifier_starts_with_an_empty_signature() {
    let mut manager = EntityManager::new(1);
    let entity = manager.create_entity().unwrap();
    assert_eq!(manager.set_signature(entity, signature_of(&[3, 33])), Ok(()));
    assert_eq!(manager.destroy_entity(entity), Ok(()));
    assert_eq!(manager.create_entity(), Ok(entity));
    assert!(manager.get_signature(entity).unwrap().is_empty());
}
