use teruic::executor::Executor;

#[test]
fn tasks_run_in_spawn_order() {
    let mut ex = Executor::new();
    assert!(ex.is_idle());
    ex.spawn(1);
    ex.spawn(2);
    assert!(!ex.is_idle());
    assert_eq!(ex.next_ready(), Some(1));
    assert_eq!(ex.next_ready(), Some(2));
    assert_eq!(ex.next_ready(), None);
    assert!(ex.is_idle());
}

#[test]
fn duplicate_id_cannot_be_spawned() {
    let mut ex = Executor::new();
    assert!(ex.can_spawn(7));
    ex.spawn(7);
    assert!(!ex.can_spawn(7));
    assert!(ex.can_spawn(8));
    assert_eq!(ex.next_ready(), Some(7));
    assert_eq!(ex.next_ready(), None);
}

#[test]
fn full_queue_refuses_spawn_and_drops_wake() {
    let mut ex = Executor::new();
    for id in 0..100u64 {
        assert!(ex.can_spawn(id));
        ex.spawn(id);
    }
    assert!(!ex.can_spawn(100));
    ex.wake(5);
    for id in 0..100u64 {
        assert_eq!(ex.next_ready(), Some(id));
    }
    assert_eq!(ex.next_ready(), None);
    assert!(ex.can_spawn(100));
}

#[test]
fn wake_requeues_a_pending_task() {
    let mut ex = Executor::new();
    ex.spawn(3);
    assert_eq!(ex.next_ready(), Some(3));
    assert_eq!(ex.next_ready(), None);
    ex.wake(3);
    assert_eq!(ex.next_ready(), Some(3));
}

#[test]
fn finished_task_is_not_polled() {
    let mut ex = Executor::new();
    ex.spawn(1);
    ex.spawn(2);
    ex.complete(1);
    assert_eq!(ex.next_ready(), Some(2));
    ex.wake(1);
    assert_eq!(ex.next_ready(), None);
    // a finished id may be spawned again
    assert!(ex.can_spawn(1));
    ex.spawn(1);
    assert_eq!(ex.next_ready(), Some(1));
}
