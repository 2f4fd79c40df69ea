use aspect_ecs::entity::{EntityId, EntityRegistry};

#[test]
fn new_registry_is_empty() {
    let registry = EntityRegistry::new();
    assert_eq!(registry.slot_count(), 0);
    assert_eq!(registry.live_count(), 0);
    assert!(!registry.is_live(EntityId { index: 0, generation: 0 }));
    assert_eq!(registry.live_at(0), None);
}

#[test]
fn allocate_hands_out_slots_in_order() {
    let mut registry = EntityRegistry::new();
    assert_eq!(registry.allocate(), EntityId { index: 0, generation: 0 });
    assert_eq!(registry.allocate(), EntityId { index: 1, generation: 0 });
    assert_eq!(registry.allocate(), EntityId { index: 2, generation: 0 });
    assert_eq!(registry.slot_count(), 3);
    assert_eq!(registry.live_count(), 3);
    assert_eq!(registry.live_at(1), Some(EntityId { index: 1, generation: 0 }));
}

#[test]
fn allocate_reuses_the_lowest_freed_slot() {
    let mut registry = EntityRegistry::new();
    let a = registry.allocate();
    let b = registry.allocate();
    let c = registry.allocate();
    assert!(registry.free(c));
    assert!(registry.free(a));
    assert_eq!(registry.allocate(), EntityId { index: 0, generation: 1 });
    assert_eq!(registry.allocate(), EntityId { index: 2, generation: 1 });
    assert_eq!(registry.allocate(), EntityId { index: 3, generation: 0 });
    assert!(registry.is_live(b));
    assert_eq!(registry.slot_count(), 4);
}

#[test]
fn stale_handle_is_detected_after_reuse() {
    let mut registry = EntityRegistry::new();
    let old = registry.allocate();
    assert!(registry.free(old));
    let new = registry.allocate();
    assert_eq!(new.index, old.index);
    assert_eq!(new.generation, old.generation + 1);
    assert!(!registry.is_live(old));
    assert!(registry.is_live(new));
    // the stale handle frees nothing
    assert!(!registry.free(old));
    assert!(registry.is_live(new));
}

#[test]
fn freeing_a_dead_id_is_a_no_op() {
    let mut registry = EntityRegistry::new();
    let a = registry.allocate();
    assert!(registry.free(a));
    assert!(!registry.free(a));
    assert!(!registry.free(EntityId { index: 17, generation: 0 }));
    assert_eq!(registry.slot_count(), 1);
    assert_eq!(registry.live_count(), 0);
    // the generation moved on once, not twice
    assert_eq!(registry.allocate(), EntityId { index: 0, generation: 1 });
}

#[test]
fn reserved_id_is_not_alive_until_activated() {
    let mut registry = EntityRegistry::new();
    let id = registry.reserve();
    assert_eq!(id, EntityId { index: 0, generation: 0 });
    assert!(registry.is_reserved(id));
    assert!(!registry.is_live(id));
    assert_eq!(registry.live_count(), 0);
    // a reserved slot is not handed out again
    assert_eq!(registry.reserve(), EntityId { index: 1, generation: 0 });
    assert!(registry.activate(id));
    assert!(registry.is_live(id));
    assert!(!registry.is_reserved(id));
    // nothing to activate a second time
    assert!(!registry.activate(id));
    assert_eq!(registry.live_count(), 1);
}

#[test]
fn freeing_a_reserved_id_changes_nothing() {
    let mut registry = EntityRegistry::new();
    let id = registry.reserve();
    assert!(!registry.free(id));
    assert!(registry.is_reserved(id));
    assert!(registry.activate(id));
}

#[test]
fn activate_refuses_what_was_not_reserved() {
    let mut registry = EntityRegistry::new();
    assert!(!registry.activate(EntityId { index: 0, generation: 0 }));
    let id = registry.allocate();
    assert!(!registry.activate(EntityId { index: id.index, generation: id.generation + 1 }));
    assert_eq!(registry.slot_count(), 1);
}

#[test]
fn thousand_spawn_despawn_cycles_leave_one_slot() {
    let mut registry = EntityRegistry::new();
    for cycle in 0..1000u64 {
        let id = registry.allocate();
        assert_eq!(id, EntityId { index: 0, generation: cycle });
        assert!(registry.free(id));
    }
    assert_eq!(registry.live_count(), 0);
    assert_eq!(registry.slot_count(), 1);
}

#[test]
fn alive_iff_spawned_and_not_despawned() {
    let mut registry = EntityRegistry::new();
    let a = registry.allocate();
    let b = registry.allocate();
    let c = registry.allocate();
    registry.free(b);
    let d = registry.allocate();
    registry.free(a);
    assert!(!registry.is_live(a));
    assert!(!registry.is_live(b));
    assert!(registry.is_live(c));
    assert!(registry.is_live(d));
    assert_eq!(registry.live_count(), 2);
}
