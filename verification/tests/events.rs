use luau_behavior::events::{AttackEvent, GetStateEvent, LuaEventQueue, MoveToEvent};

#[test]
fn requests_drain_in_order() {
    let mut q = LuaEventQueue::new();
    q.push_move_to(1, 10, 20);
    q.push_attack(1, 2);
    q.push_move_to(3, 30, 40);
    q.push_get_state(4);
    assert_eq!(
        q.drain_move_to(),
        vec![
            MoveToEvent { entity: 1, x_bits: 10, y_bits: 20 },
            MoveToEvent { entity: 3, x_bits: 30, y_bits: 40 },
        ]
    );
    assert!(q.drain_move_to().is_empty());
    assert_eq!(q.drain_attack(), vec![AttackEvent { entity: 1, target: 2 }]);
    assert_eq!(q.drain_get_state(), vec![GetStateEvent { entity: 4 }]);
    assert!(q.drain_attack().is_empty());
    assert!(q.drain_get_state().is_empty());
}

#[test]
fn drain_of_one_kind_keeps_the_others() {
    let mut q = LuaEventQueue::new();
    q.push_attack(5, 6);
    q.push_get_state(7);
    assert!(q.drain_move_to().is_empty());
    q.push_move_to(8, 0x3f80_0000, 0x4000_0000);
    assert_eq!(q.drain_attack(), vec![AttackEvent { entity: 5, target: 6 }]);
    assert_eq!(q.drain_move_to(), vec![MoveToEvent { entity: 8, x_bits: 0x3f80_0000, y_bits: 0x4000_0000 }]);
    assert_eq!(q.drain_get_state(), vec![GetStateEvent { entity: 7 }]);
}
