use snowglobe::sched::BASELINE_PRIORITY;
use snowglobe::server::ServerCore;
use snowglobe::wire::Command;
use snowglobe::wire::DecodeError;
use snowglobe::wire::Point;
use snowglobe::wire::Update;
use snowglobe::wire::decode_client_message;
use snowglobe::wire::encode_command;
use snowglobe::world::Entity;
use snowglobe::world::World;

fn point(x: f32, y: f32, z: f32) -> Point {
    Point { x: x.to_bits(), y: y.to_bits(), z: z.to_bits() }
}

fn move_datagram(x: f32, y: f32, z: f32) -> Vec<u8> {
    encode_command(&Command::Move(point(x, y, z)))
}

/// Run one service opportunity, checking the headroom guard as the
/// transport layer must.
fn serve(core: &mut ServerCore) -> Option<(u64, Vec<u8>)> {
    assert!(core.can_serve());
    core.next_broadcast()
}

#[test]
fn first_move_subscribes_at_baseline() {
    // scenario: a move from a new address fills both tables
    let mut core = ServerCore::new(World::new());
    let x_addr: u64 = 41;
    let r = core.process_command(&move_datagram(0.0, 0.0, 0.0), x_addr);
    assert_eq!(r, Ok(()));
    assert_eq!(core.subscriber_count(), 1);
    let state = core.subscription(x_addr).unwrap();
    assert_eq!(state.position, point(0.0, 0.0, 0.0));
    assert_eq!(core.queue_len(), 1);
    let token = core.queue_token(0);
    assert_eq!(token.address, x_addr);
    assert_eq!(token.priority, 100);
    assert_eq!(token.priority, BASELINE_PRIORITY);
}

#[test]
fn second_move_only_updates_position() {
    let mut core = ServerCore::new(World::new());
    let x_addr: u64 = 41;
    core.process_command(&move_datagram(0.0, 0.0, 0.0), x_addr).unwrap();
    serve(&mut core);
    core.process_command(&move_datagram(7.0, 8.0, 9.0), x_addr).unwrap();
    assert_eq!(core.subscriber_count(), 1);
    assert_eq!(core.subscription(x_addr).unwrap().position, point(7.0, 8.0, 9.0));
    assert_eq!(core.queue_len(), 1);
    // the decayed credit is kept, not reset to the baseline
    assert_eq!(core.queue_token(0).priority, BASELINE_PRIORITY - 1);
}

#[test]
fn snapshot_of_one_entity() {
    // scenario: one entity in the world; one opportunity sends it whole
    let mut world = World::new();
    world.insert_entity(0, Entity::new(point(1.0, 2.0, 3.0), String::from("simple")));
    let mut core = ServerCore::new(world);
    let x_addr: u64 = 5;
    core.process_command(&move_datagram(0.0, 0.0, 0.0), x_addr).unwrap();
    let (dest, bytes) = serve(&mut core).unwrap();
    assert_eq!(dest, x_addr);
    let message = decode_client_message(&bytes).unwrap();
    assert_eq!(message.updates.len(), 1);
    match &message.updates[0] {
        Update::EntityAlive { identity, location, appearance } => {
            assert_eq!(*identity, 0);
            assert_eq!(*location, point(1.0, 2.0, 3.0));
            assert_eq!(appearance, "simple");
        },
        other => panic!("expected a living entity, got {:?}", other),
    }
}

#[test]
fn malformed_datagram_changes_nothing() {
    // scenario: a truncated buffer is reported and dropped
    let mut core = ServerCore::new(World::new());
    let x_addr: u64 = 41;
    core.process_command(&move_datagram(0.0, 0.0, 0.0), x_addr).unwrap();
    let mut bad = move_datagram(1.0, 1.0, 1.0);
    bad.truncate(4);
    let r = core.process_command(&bad, 99);
    assert_eq!(r, Err(DecodeError::Truncated));
    assert_eq!(core.subscriber_count(), 1);
    assert_eq!(core.queue_len(), 1);
    assert!(core.subscription(99).is_none());
    // the next iteration proceeds normally
    assert_eq!(core.process_command(&move_datagram(2.0, 2.0, 2.0), 99), Ok(()));
    assert_eq!(core.subscriber_count(), 2);
}

#[test]
fn idle_opportunity_is_a_no_op() {
    let mut core = ServerCore::new(World::new());
    assert!(serve(&mut core).is_none());
    assert_eq!(core.queue_len(), 0);
}

#[test]
fn fairness_over_equal_subscribers() {
    // three subscribers, all at the baseline, no arrivals: three
    // opportunities serve each exactly once, oldest first
    let mut core = ServerCore::new(World::new());
    for addr in [10u64, 20, 30] {
        core.process_command(&move_datagram(0.0, 0.0, 0.0), addr).unwrap();
    }
    let mut served: Vec<u64> = Vec::new();
    for _ in 0..3 {
        let (dest, _) = serve(&mut core).unwrap();
        served.push(dest);
    }
    assert_eq!(served, vec![10, 20, 30]);
}

#[test]
fn fairness_cycles_with_period_n() {
    let mut core = ServerCore::new(World::new());
    for addr in [10u64, 20, 30] {
        core.process_command(&move_datagram(0.0, 0.0, 0.0), addr).unwrap();
    }
    let mut served: Vec<u64> = Vec::new();
    for _ in 0..9 {
        let (dest, _) = serve(&mut core).unwrap();
        served.push(dest);
    }
    assert_eq!(served, vec![10, 20, 30, 10, 20, 30, 10, 20, 30]);
}

#[test]
fn late_joiner_catches_up() {
    // two subscribers decay for four rounds; a newcomer at the baseline is
    // then served ahead of both until its credit matches theirs
    let mut core = ServerCore::new(World::new());
    core.process_command(&move_datagram(0.0, 0.0, 0.0), 1).unwrap();
    core.process_command(&move_datagram(0.0, 0.0, 0.0), 2).unwrap();
    for _ in 0..4 {
        serve(&mut core).unwrap();
    }
    // both old subscribers now sit at BASELINE - 2
    core.process_command(&move_datagram(0.0, 0.0, 0.0), 3).unwrap();
    for _ in 0..2 {
        let (dest, _) = serve(&mut core).unwrap();
        assert_eq!(dest, 3);
    }
    // credit matched: the tie now goes to the oldest subscriber
    let (dest, _) = serve(&mut core).unwrap();
    assert_eq!(dest, 1);
}

#[test]
fn nobody_starves() {
    // however far behind a subscriber's credit is, opportunities reach it
    let mut core = ServerCore::new(World::new());
    core.process_command(&move_datagram(0.0, 0.0, 0.0), 1).unwrap();
    for _ in 0..50 {
        serve(&mut core).unwrap();
    }
    // subscriber 1 sits at BASELINE - 50; a fresh subscriber leads by 50
    core.process_command(&move_datagram(0.0, 0.0, 0.0), 2).unwrap();
    let mut saw_one = false;
    for _ in 0..52 {
        let (dest, _) = serve(&mut core).unwrap();
        if dest == 1 {
            saw_one = true;
            break;
        }
    }
    assert!(saw_one);
}

#[test]
fn simulation_capability_drives_snapshots() {
    let mut world = World::new();
    world.insert_entity(0, Entity::new(point(0.0, 0.0, 0.0), String::from("simple")));
    world.insert_entity(1, Entity::new(point(2.0, 0.0, 0.0), String::from("simple")));
    let mut core = ServerCore::new(world);
    core.process_command(&move_datagram(0.0, 0.0, 0.0), 7).unwrap();

    core.set_location(0, point(0.5, 0.25, 0.0));
    core.remove_entity(1);
    core.insert_entity(2, Entity::new(point(9.0, 9.0, 9.0), String::from("tall")));
    assert_eq!(core.entity_count(), 2);

    let (_, bytes) = serve(&mut core).unwrap();
    let message = decode_client_message(&bytes).unwrap();
    assert_eq!(message.updates.len(), 2);
    match &message.updates[0] {
        Update::EntityAlive { identity, location, appearance } => {
            assert_eq!(*identity, 0);
            assert_eq!(*location, point(0.5, 0.25, 0.0));
            assert_eq!(appearance, "simple");
        },
        other => panic!("expected a living entity, got {:?}", other),
    }
    match &message.updates[1] {
        Update::EntityAlive { identity, appearance, .. } => {
            assert_eq!(*identity, 2);
            assert_eq!(appearance, "tall");
        },
        other => panic!("expected a living entity, got {:?}", other),
    }
}
