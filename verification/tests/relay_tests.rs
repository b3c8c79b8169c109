use session_relay::relay::RelayAction;
use session_relay::relay::RelayEvent;
use session_relay::relay::RelayState;
use session_relay::relay::RelayTask;
use session_relay::relay::READ_BUFFER_SIZE;
use session_relay::session_manager::SessionManager;
use std::cell::RefCell;
use std::rc::Rc;

type Inbox = Rc<RefCell<Vec<u8>>>;

fn read() -> RelayAction {
    RelayAction::Read { max_len: 1024 }
}

fn accept(manager: &mut SessionManager<Inbox>) -> (RelayTask, Inbox) {
    let inbox: Inbox = Rc::new(RefCell::new(Vec::new()));
    let id = manager.add_session(inbox.clone());
    (RelayTask::new(id), inbox)
}

/// Carries out `action` for the task that asked for it and says what
/// happened. Writes to a session listed in `broken` fail.
fn perform(
    manager: &SessionManager<Inbox>,
    own: &Inbox,
    action: RelayAction,
    broken: &[i32],
) -> RelayEvent {
    match action {
        RelayAction::Echo { payload } => {
            own.borrow_mut().extend_from_slice(&payload);
            RelayEvent::EchoWritten
        }
        RelayAction::Snapshot { excluded } => RelayEvent::Members(manager.sessions_except(excluded)),
        RelayAction::Forward { peer, payload } => {
            if broken.contains(&peer) {
                return RelayEvent::PeerFailed;
            }
            match manager.connection(peer) {
                Some(inbox) => {
                    inbox.borrow_mut().extend_from_slice(&payload);
                    RelayEvent::PeerWritten
                }
                None => RelayEvent::PeerFailed,
            }
        }
        RelayAction::Read { .. } | RelayAction::Close => unreachable!(),
    }
}

/// Runs one whole cycle for `task` after it has read `bytes`.
fn send(
    manager: &SessionManager<Inbox>,
    task: &mut RelayTask,
    own: &Inbox,
    bytes: &[u8],
    broken: &[i32],
) {
    let mut action = task.step(RelayEvent::Received(bytes.to_vec()));
    while action != read() {
        assert_ne!(action, RelayAction::Close);
        let event = perform(manager, own, action, broken);
        action = task.step(event);
    }
    assert_eq!(task.state(), RelayState::Reading);
}

#[test]
fn new_task_reads_first() {
    let task = RelayTask::new(7);
    assert_eq!(task.session_id(), 7);
    assert_eq!(task.state(), RelayState::Reading);
    assert_eq!(task.first_action(), RelayAction::Read { max_len: 1024 });
    assert_eq!(READ_BUFFER_SIZE, 1024);
}

#[test]
fn a_cycle_step_by_step() {
    let mut task = RelayTask::new(2);
    let action = task.step(RelayEvent::Received(b"hi".to_vec()));
    assert_eq!(action, RelayAction::Echo { payload: b"hi".to_vec() });
    assert_eq!(task.state(), RelayState::Echoing);

    let action = task.step(RelayEvent::EchoWritten);
    assert_eq!(action, RelayAction::Snapshot { excluded: 2 });
    assert_eq!(task.state(), RelayState::Broadcasting);

    let action = task.step(RelayEvent::Members(vec![3, 2, 1]));
    assert_eq!(action, RelayAction::Forward { peer: 3, payload: b"hi".to_vec() });
    assert_eq!(task.state(), RelayState::Broadcasting);

    let action = task.step(RelayEvent::PeerWritten);
    assert_eq!(action, RelayAction::Forward { peer: 1, payload: b"hi".to_vec() });
    assert_eq!(task.state(), RelayState::Broadcasting);

    let action = task.step(RelayEvent::PeerWritten);
    assert_eq!(action, read());
    assert_eq!(task.state(), RelayState::Reading);
    assert_eq!(task.session_id(), 2);
}

#[test]
fn zero_length_read_closes() {
    let mut task = RelayTask::new(1);
    assert_eq!(task.step(RelayEvent::Received(Vec::new())), RelayAction::Close);
    assert_eq!(task.state(), RelayState::Closed);
}

#[test]
fn read_error_closes() {
    let mut task = RelayTask::new(1);
    assert_eq!(task.step(RelayEvent::ReadFailed), RelayAction::Close);
    assert_eq!(task.state(), RelayState::Closed);
}

#[test]
fn echo_error_closes_without_broadcast() {
    let mut task = RelayTask::new(1);
    task.step(RelayEvent::Received(b"x".to_vec()));
    assert_eq!(task.step(RelayEvent::EchoFailed), RelayAction::Close);
    assert_eq!(task.state(), RelayState::Closed);
}

#[test]
fn closed_task_stays_closed() {
    let mut task = RelayTask::new(1);
    task.step(RelayEvent::ReadFailed);
    assert_eq!(task.step(RelayEvent::Received(b"late".to_vec())), RelayAction::Close);
    assert_eq!(task.step(RelayEvent::EchoWritten), RelayAction::Close);
    assert_eq!(task.step(RelayEvent::Members(vec![2])), RelayAction::Close);
    assert_eq!(task.step(RelayEvent::PeerWritten), RelayAction::Close);
    assert_eq!(task.state(), RelayState::Closed);
}

#[test]
fn event_out_of_turn_closes() {
    let mut task = RelayTask::new(1);
    assert_eq!(task.step(RelayEvent::EchoWritten), RelayAction::Close);

    let mut task = RelayTask::new(1);
    task.step(RelayEvent::Received(b"x".to_vec()));
    assert_eq!(task.step(RelayEvent::Received(b"y".to_vec())), RelayAction::Close);

    let mut task = RelayTask::new(1);
    task.step(RelayEvent::Received(b"x".to_vec()));
    task.step(RelayEvent::EchoWritten);
    assert_eq!(task.step(RelayEvent::PeerWritten), RelayAction::Close);

    let mut task = RelayTask::new(1);
    task.step(RelayEvent::Received(b"x".to_vec()));
    task.step(RelayEvent::EchoWritten);
    task.step(RelayEvent::Members(vec![2, 3]));
    assert_eq!(task.step(RelayEvent::Members(vec![2, 3])), RelayAction::Close);
    assert_eq!(task.state(), RelayState::Closed);
}

#[test]
fn peer_failure_does_not_stop_the_broadcast() {
    let mut task = RelayTask::new(1);
    task.step(RelayEvent::Received(b"ping".to_vec()));
    task.step(RelayEvent::EchoWritten);
    let action = task.step(RelayEvent::Members(vec![2, 3, 4]));
    assert_eq!(action, RelayAction::Forward { peer: 2, payload: b"ping".to_vec() });
    let action = task.step(RelayEvent::PeerFailed);
    assert_eq!(action, RelayAction::Forward { peer: 3, payload: b"ping".to_vec() });
    let action = task.step(RelayEvent::PeerFailed);
    assert_eq!(action, RelayAction::Forward { peer: 4, payload: b"ping".to_vec() });
    assert_eq!(task.step(RelayEvent::PeerFailed), read());
    assert_eq!(task.state(), RelayState::Reading);
}

#[test]
fn no_peers_means_straight_back_to_reading() {
    let mut task = RelayTask::new(1);
    task.step(RelayEvent::Received(b"solo".to_vec()));
    task.step(RelayEvent::EchoWritten);
    assert_eq!(task.step(RelayEvent::Members(vec![1])), read());
    assert_eq!(task.state(), RelayState::Reading);

    task.step(RelayEvent::Received(b"solo".to_vec()));
    task.step(RelayEvent::EchoWritten);
    assert_eq!(task.step(RelayEvent::Members(Vec::new())), read());
}

#[test]
fn own_id_is_skipped_wherever_it_stands() {
    for members in [vec![5, 1, 2], vec![1, 5, 2], vec![1, 2, 5], vec![5, 1, 5, 2, 5]] {
        let mut task = RelayTask::new(5);
        task.step(RelayEvent::Received(b"m".to_vec()));
        task.step(RelayEvent::EchoWritten);
        let mut action = task.step(RelayEvent::Members(members));
        let mut peers = Vec::new();
        while let RelayAction::Forward { peer, payload } = action {
            assert_eq!(payload, b"m".to_vec());
            peers.push(peer);
            action = task.step(RelayEvent::PeerWritten);
        }
        assert_eq!(action, read());
        assert_eq!(peers, vec![1, 2]);
    }
}

#[test]
fn exclusion_key_does_not_drift_when_sessions_join() {
    let mut manager: SessionManager<Inbox> = SessionManager::new();
    let (mut t1, in1) = accept(&mut manager);
    let (_t2, in2) = accept(&mut manager);
    send(&manager, &mut t1, &in1, b"one", &[]);
    let (_t3, in3) = accept(&mut manager);
    send(&manager, &mut t1, &in1, b"two", &[]);
    assert_eq!(t1.session_id(), 1);
    assert_eq!(*in1.borrow(), b"onetwo".to_vec());
    assert_eq!(*in2.borrow(), b"onetwo".to_vec());
    assert_eq!(*in3.borrow(), b"two".to_vec());
}

#[test]
fn large_message_goes_out_chunk_by_chunk() {
    let mut manager: SessionManager<Inbox> = SessionManager::new();
    let (mut t1, in1) = accept(&mut manager);
    let (_t2, in2) = accept(&mut manager);
    let message: Vec<u8> = (0..3000u32).map(|n| (n % 251) as u8).collect();
    for chunk in message.chunks(READ_BUFFER_SIZE) {
        send(&manager, &mut t1, &in1, chunk, &[]);
    }
    assert_eq!(*in1.borrow(), message);
    assert_eq!(*in2.borrow(), message);
}

#[test]
fn echo_carries_every_byte_value() {
    let mut task = RelayTask::new(1);
    let bytes: Vec<u8> = (0..=255u8).collect();
    let action = task.step(RelayEvent::Received(bytes.clone()));
    assert_eq!(action, RelayAction::Echo { payload: bytes });
}

#[test]
fn three_clients_echo_and_broadcast() {
    let mut manager: SessionManager<Inbox> = SessionManager::new();
    let (mut t1, in1) = accept(&mut manager);
    let (t2, in2) = accept(&mut manager);
    let (t3, in3) = accept(&mut manager);
    assert_eq!((t1.session_id(), t2.session_id(), t3.session_id()), (1, 2, 3));

    send(&manager, &mut t1, &in1, b"hi", &[]);

    assert_eq!(*in1.borrow(), b"hi".to_vec());
    assert_eq!(*in2.borrow(), b"hi".to_vec());
    assert_eq!(*in3.borrow(), b"hi".to_vec());
}

#[test]
fn broadcast_survives_a_peer_that_left() {
    let mut manager: SessionManager<Inbox> = SessionManager::new();
    let (mut t1, in1) = accept(&mut manager);
    let (mut t2, in2) = accept(&mut manager);
    let (_t3, in3) = accept(&mut manager);

    assert_eq!(t2.step(RelayEvent::Received(Vec::new())), RelayAction::Close);
    send(&manager, &mut t1, &in1, b"ping", &[2]);
    assert_eq!(*in3.borrow(), b"ping".to_vec());
    assert_eq!(*in1.borrow(), b"ping".to_vec());
    assert_eq!(*in2.borrow(), Vec::<u8>::new());

    manager.remove_session(t2.session_id());
    send(&manager, &mut t1, &in1, b"pong", &[]);
    assert_eq!(*in3.borrow(), b"pingpong".to_vec());
    assert_eq!(*in2.borrow(), Vec::<u8>::new());
}

/// Steps the two senders in the order given by `turns` (false: the first
/// sender moves, true: the second) until both are reading again.
fn race(turns: &[bool]) -> Vec<u8> {
    let mut manager: SessionManager<Inbox> = SessionManager::new();
    let (mut t1, in1) = accept(&mut manager);
    let (mut t2, in2) = accept(&mut manager);
    let (_t3, in3) = accept(&mut manager);
    let mut a1 = t1.step(RelayEvent::Received(b"A".to_vec()));
    let mut a2 = t2.step(RelayEvent::Received(b"B".to_vec()));
    let mut turn = 0;
    while a1 != read() || a2 != read() {
        let second = if a1 == read() {
            true
        } else if a2 == read() {
            false
        } else {
            turns[turn % turns.len()]
        };
        turn += 1;
        if second {
            let event = perform(&manager, &in2, a2, &[]);
            a2 = t2.step(event);
        } else {
            let event = perform(&manager, &in1, a1, &[]);
            a1 = t1.step(event);
        }
    }
    assert_eq!(in1.borrow().len(), 2);
    assert_eq!(in2.borrow().len(), 2);
    let received = in3.borrow().clone();
    received
}

#[test]
fn racing_senders_do_not_interleave() {
    let orders: [&[bool]; 6] = [
        &[false],
        &[true],
        &[false, true],
        &[true, false],
        &[false, false, true],
        &[true, true, false],
    ];
    let mut seen_ab = false;
    let mut seen_ba = false;
    for turns in orders {
        let received = race(turns);
        assert!(received == b"AB".to_vec() || received == b"BA".to_vec());
        seen_ab = seen_ab || received == b"AB".to_vec();
        seen_ba = seen_ba || received == b"BA".to_vec();
    }
    assert!(seen_ab && seen_ba);
}
