use game_core::ecs::pool::ComponentPool;
use std::collections::HashMap;

fn filled() -> ComponentPool<i32> {
    let mut pool = ComponentPool::new();
    pool.add(1, 10);
    pool.add(2, 20);
    pool.add(3, 30);
    pool.add(4, 40);
    pool
}

#[test]
fn new_pool_is_empty() {
    let pool: ComponentPool<i32> = ComponentPool::new();
    assert!(pool.entities().is_empty());
    assert!(pool.components().is_empty());
    assert_eq!(pool.get(0), None);
}

#[test]
fn add_appends_to_both_sequences() {
    let mut pool = ComponentPool::new();
    pool.add(5, 50);
    pool.add(3, 30);
    assert_eq!(pool.entities(), &vec![5, 3]);
    assert_eq!(pool.components(), &vec![50, 30]);
    assert_eq!(pool.get(5), Some(&50));
    assert_eq!(pool.get(3), Some(&30));
    assert_eq!(pool.get(4), None);
}

#[test]
fn second_add_is_ignored() {
    let mut pool = ComponentPool::new();
    pool.add(7, "first");
    pool.add(7, "second");
    assert_eq!(pool.get(7), Some(&"first"));
    assert_eq!(pool.entities(), &vec![7]);
    assert_eq!(pool.components(), &vec!["first"]);
}

#[test]
fn remove_moves_last_into_freed_slot() {
    let mut pool = filled();
    pool.remove(2);
    assert_eq!(pool.entities(), &vec![1, 4, 3]);
    assert_eq!(pool.components(), &vec![10, 40, 30]);
    assert_eq!(pool.get(1), Some(&10));
    assert_eq!(pool.get(2), None);
    assert_eq!(pool.get(3), Some(&30));
    assert_eq!(pool.get(4), Some(&40));
}

#[test]
fn remove_of_first_entity_moves_last_to_front() {
    let mut pool = filled();
    pool.remove(1);
    assert_eq!(pool.entities(), &vec![4, 2, 3]);
    assert_eq!(pool.components(), &vec![40, 20, 30]);
}

#[test]
fn remove_of_last_entity_moves_nothing() {
    let mut pool = filled();
    pool.remove(4);
    assert_eq!(pool.entities(), &vec![1, 2, 3]);
    assert_eq!(pool.components(), &vec![10, 20, 30]);
    assert_eq!(pool.get(4), None);
}

#[test]
fn remove_of_only_entity_empties_pool() {
    let mut pool = ComponentPool::new();
    pool.add(9, 90);
    pool.remove(9);
    assert!(pool.entities().is_empty());
    assert!(pool.components().is_empty());
    assert_eq!(pool.get(9), None);
}

#[test]
fn remove_of_absent_entity_changes_nothing() {
    let mut pool = filled();
    pool.remove(99);
    assert_eq!(pool.entities(), &vec![1, 2, 3, 4]);
    assert_eq!(pool.components(), &vec![10, 20, 30, 40]);
}

#[test]
fn removed_entity_can_be_added_again() {
    let mut pool = filled();
    pool.remove(2);
    pool.add(2, 21);
    assert_eq!(pool.entities(), &vec![1, 4, 3, 2]);
    assert_eq!(pool.get(2), Some(&21));
}

#[test]
fn get_mut_writes_in_place() {
    let mut pool = filled();
    if let Some(component) = pool.get_mut(3) {
        *component += 5;
    }
    assert_eq!(pool.get(3), Some(&35));
    assert_eq!(pool.entities(), &vec![1, 2, 3, 4]);
    assert_eq!(pool.components(), &vec![10, 20, 35, 40]);
}

#[test]
fn get_mut_of_absent_entity_is_none() {
    let mut pool = filled();
    assert!(pool.get_mut(99).is_none());
    assert_eq!(pool.components(), &vec![10, 20, 30, 40]);
}

#[test]
fn get_mut_finds_entity_after_it_moved() {
    let mut pool = filled();
    pool.remove(1);
    if let Some(component) = pool.get_mut(4) {
        *component = 44;
    }
    assert_eq!(pool.components(), &vec![44, 20, 30]);
}

fn assert_dense(pool: &ComponentPool<u64>, model: &HashMap<u32, u64>) {
    let entities = pool.entities();
    let components = pool.components();
    assert_eq!(entities.len(), components.len());
    assert_eq!(entities.len(), model.len());
    for i in 0..entities.len() {
        assert_eq!(pool.get(entities[i]), Some(&components[i]));
        assert_eq!(model.get(&entities[i]), Some(&components[i]));
        for j in 0..i {
            assert_ne!(entities[i], entities[j]);
        }
    }
    for id in 0..32 {
        assert_eq!(pool.get(id), model.get(&id));
    }
}

#[test]
fn pool_stays_dense_over_adds_and_removes() {
    let mut pool: ComponentPool<u64> = ComponentPool::new();
    let mut model: HashMap<u32, u64> = HashMap::new();
    let mut state: u64 = 12345;
    for step in 0..2000u64 {
        state = state.wrapping_mul(6364136223846793005).wrapping_add(1442695040888963407);
        let id = ((state >> 33) % 32) as u32;
        if (state >> 20) % 3 == 0 {
            pool.remove(id);
            model.remove(&id);
        } else {
            pool.add(id, step);
            model.entry(id).or_insert(step);
        }
        assert_dense(&pool, &model);
    }
}
