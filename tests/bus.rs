use scaproust_core::bus::{Bus, BusError, Command, Readiness, SocketType, State};
use scaproust_core::message::Message;

fn opened_bus(tokens: &[usize]) -> Bus {
    let mut bus = Bus::new(1);
    for t in tokens {
        bus.add_pipe(*t).unwrap();
        assert_eq!(vec![Command::OpenPipe(*t)], bus.open_pipe(*t));
        assert_eq!(vec![Command::AckPipeOpened(*t)], bus.on_pipe_opened(*t));
    }
    bus
}

#[test]
fn new_bus_is_idle_and_empty() {
    let bus = Bus::new(7);
    assert_eq!(7, bus.get_id());
    assert_eq!(SocketType::Bus, bus.get_type());
    assert_eq!(State::Idle, bus.state());
    assert!(bus.pipes().is_empty());
    assert!(!bus.has_pending_send());
}

#[test]
fn duplicate_pipe_is_refused() {
    let mut bus = Bus::new(1);
    assert_eq!(Ok(()), bus.add_pipe(4));
    assert_eq!(Err(BusError::DuplicatePipe), bus.add_pipe(4));
    assert_eq!(vec![4], *bus.pipes());
}

#[test]
fn remove_unknown_pipe_reports_not_found() {
    let mut bus = Bus::new(1);
    assert!(!bus.remove_pipe(3));
    assert!(bus.open_pipe(3).is_empty());
}

#[test]
fn receives_rotate_fairly_over_pipes() {
    let mut bus = opened_bus(&[5, 2, 9]);
    let mut order = Vec::new();
    for _ in 0..3 {
        let cmds = bus.recv(None);
        let tok = match cmds.as_slice() {
            [Command::StartRecv(t)] => *t,
            other => panic!("unexpected {:?}", other),
        };
        order.push(tok);
        let done = bus.on_recv_done(tok, Message::from_body(vec![tok as u8]));
        assert_eq!(1, done.len());
    }
    assert_eq!(vec![5, 2, 9], order);
}

#[test]
fn resubmitted_message_is_not_echoed() {
    let mut bus = opened_bus(&[1, 2, 3]);
    let cmds = bus.recv(None);
    assert_eq!(vec![Command::StartRecv(1)], cmds);
    let done = bus.on_recv_done(1, Message::from_body(vec![65, 66, 67]));
    let delivered = match done.into_iter().next() {
        Some(Command::NotifyRecv(m)) => m,
        other => panic!("unexpected {:?}", other),
    };
    assert_eq!(vec![0, 0, 0, 1], *delivered.get_header());
    let sent = bus.send(delivered, None);
    assert_eq!(
        vec![Command::Broadcast(Message::from_body(vec![65, 66, 67]), vec![2, 3]), Command::NotifySent],
        sent
    );
}

#[test]
fn local_message_goes_to_every_pipe() {
    let mut bus = opened_bus(&[1, 2]);
    let sent = bus.send(Message::from_body(vec![8]), Some(77));
    assert_eq!(
        vec![
            Command::Broadcast(Message::from_body(vec![8]), vec![1, 2]),
            Command::NotifySent,
            Command::ClearTimeout(77),
        ],
        sent
    );
    assert_eq!(State::Idle, bus.state());
}

#[test]
fn completion_from_removed_pipe_is_ignored() {
    let mut bus = opened_bus(&[1]);
    assert_eq!(vec![Command::StartRecv(1)], bus.recv(Some(5)));
    assert!(bus.remove_pipe(1));
    assert_eq!(State::RecvOnHold(Some(5)), bus.state());
    let late = bus.on_recv_done(1, Message::from_body(vec![1]));
    assert!(late.is_empty());
    assert_eq!(State::RecvOnHold(Some(5)), bus.state());
}

#[test]
fn completion_from_other_pipe_is_late() {
    let mut bus = opened_bus(&[1, 2]);
    assert_eq!(vec![Command::StartRecv(1)], bus.recv(None));
    assert!(bus.on_recv_done(2, Message::from_body(vec![1])).is_empty());
    assert_eq!(State::Receiving(1, None), bus.state());
}

#[test]
fn held_receive_is_served_when_a_pipe_opens() {
    let mut bus = Bus::new(1);
    assert!(bus.recv(Some(9)).is_empty());
    assert_eq!(State::RecvOnHold(Some(9)), bus.state());
    bus.add_pipe(4).unwrap();
    assert_eq!(State::RecvOnHold(Some(9)), bus.state());
    assert_eq!(vec![Command::AckPipeOpened(4), Command::StartRecv(4)], bus.on_pipe_opened(4));
    assert_eq!(State::Receiving(4, Some(9)), bus.state());
    let done = bus.on_recv_done(4, Message::from_body(vec![3]));
    assert_eq!(
        vec![
            Command::NotifyRecv(Message::with_header_and_body(vec![0, 0, 0, 4], vec![3])),
            Command::ClearTimeout(9),
        ],
        done
    );
    assert_eq!(State::Idle, bus.state());
}

#[test]
fn timeout_then_completion_delivers_nothing() {
    let mut bus = opened_bus(&[6]);
    bus.recv(Some(11));
    assert_eq!(vec![Command::CancelRecv(6)], bus.on_recv_timeout());
    assert_eq!(State::Idle, bus.state());
    assert!(bus.on_recv_done(6, Message::from_body(vec![1])).is_empty());
}

#[test]
fn completion_then_timeout_delivers_once() {
    let mut bus = opened_bus(&[6]);
    bus.recv(Some(11));
    let done = bus.on_recv_done(6, Message::from_body(vec![1]));
    assert_eq!(2, done.len());
    assert_eq!(Command::ClearTimeout(11), done[1]);
    assert!(bus.on_recv_timeout().is_empty());
    assert!(bus.on_recv_done(6, Message::from_body(vec![1])).is_empty());
}

#[test]
fn ready_retries_held_receive() {
    let mut bus = Bus::new(1);
    bus.add_pipe(2).unwrap();
    assert!(bus.recv(None).is_empty());
    let ev = Readiness { readable: true, writable: false, error: false, hup: false };
    assert_eq!(vec![Command::ProcessReady(2, ev)], bus.ready(2, ev));
    bus.on_pipe_opened(2);
    assert_eq!(State::Receiving(2, None), bus.state());
}

#[test]
fn destroy_closes_every_pipe() {
    let mut bus = opened_bus(&[3, 1]);
    assert_eq!(vec![Command::ClosePipe(3), Command::ClosePipe(1)], bus.destroy());
    assert!(bus.pipes().is_empty());
}

#[test]
fn send_done_and_timeout_change_nothing() {
    let mut bus = opened_bus(&[1]);
    bus.on_send_done(1);
    bus.on_send_timeout();
    assert_eq!(State::Idle, bus.state());
    assert_eq!(vec![1], *bus.pipes());
}

#[test]
fn stamp_naming_a_wide_token_excludes_nothing_wide() {
    let wide: usize = 0x1_0000_0002;
    let mut bus = opened_bus(&[2, wide]);
    let msg = Message::with_header_and_body(vec![0, 0, 0, 2], vec![1]);
    let sent = bus.send(msg, None);
    assert_eq!(Command::Broadcast(Message::from_body(vec![1]), vec![wide]), sent[0]);
}
