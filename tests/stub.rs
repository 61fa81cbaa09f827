use scaproust_core::message::Message;
use scaproust_core::stub::{check_handshake, handshake_bytes, IpcPipeStub, RecvOperation, RecvStep, SendOperation, StubError};

#[test]
fn send_operation_frames_and_resumes() {
    let msg = Message::with_header_and_body(vec![7], vec![8, 9]);
    let mut op = SendOperation::new(&msg);
    assert_eq!(vec![1, 0, 0, 0, 0, 0, 0, 0, 3, 7, 8, 9], op.remaining());
    assert!(!op.advance(5));
    assert_eq!(vec![0, 0, 0, 3, 7, 8, 9], op.remaining());
    assert_eq!(7, op.remaining_len());
    assert!(op.advance(7));
}

#[test]
fn recv_operation_completes_in_steps() {
    let op = RecvOperation::new(1000);
    assert_eq!(9, op.wanted());
    let op = match op.run(&[1, 0, 0, 0, 0]).unwrap() {
        RecvStep::Pending(op) => op,
        other => panic!("unexpected {:?}", other),
    };
    assert_eq!(4, op.wanted());
    let op = match op.run(&[0, 0, 1, 2]).unwrap() {
        RecvStep::Pending(op) => op,
        other => panic!("unexpected {:?}", other),
    };
    assert_eq!(258, op.wanted());
}

#[test]
fn recv_operation_rejects_oversized_frame() {
    let op = RecvOperation::new(2);
    let r = op.run(&[1, 0, 0, 0, 0, 0, 0, 0, 3]);
    assert_eq!(StubError::MessageTooLarge, r.unwrap_err());
}

#[test]
fn recv_operation_rejects_unknown_frame_type() {
    let op = RecvOperation::new(2);
    let r = op.run(&[2, 0, 0, 0, 0, 0, 0, 0, 1]);
    assert_eq!(StubError::BadFrame, r.unwrap_err());
}

#[test]
fn stub_round_trip_through_frames() {
    let mut sender = IpcPipeStub::new_client(64);
    let mut receiver = IpcPipeStub::new_server(64);
    assert!(!sender.is_server());
    assert!(receiver.is_server());
    let msg = Message::with_header_and_body(vec![1, 2], vec![3]);
    sender.start_send(&msg).unwrap();
    assert!(sender.has_pending_send());
    let bytes = sender.pending_send_bytes();
    assert_eq!(Ok(false), sender.resume_send(4));
    assert_eq!(Ok(true), sender.resume_send(bytes.len() - 4));
    assert!(!sender.has_pending_send());

    receiver.start_recv().unwrap();
    assert_eq!(9, receiver.recv_wanted());
    assert_eq!(Ok(None), receiver.resume_recv(&bytes[..9]));
    assert_eq!(3, receiver.recv_wanted());
    let got = receiver.resume_recv(&bytes[9..]).unwrap();
    assert_eq!(Some(Message::from_body(vec![1, 2, 3])), got);
    assert!(!receiver.has_pending_recv());
}

#[test]
fn second_operation_is_refused_while_pending() {
    let mut stub = IpcPipeStub::new_client(8);
    stub.start_send(&Message::from_body(vec![1])).unwrap();
    assert_eq!(Err(StubError::OperationInProgress), stub.start_send(&Message::from_body(vec![2])));
    stub.start_recv().unwrap();
    assert_eq!(Err(StubError::OperationInProgress), stub.start_recv());
}

#[test]
fn resume_without_pending_operation_fails() {
    let mut stub = IpcPipeStub::new_server(8);
    assert_eq!(Err(StubError::NoPendingOperation), stub.resume_send(0));
    assert_eq!(Err(StubError::NoPendingOperation), stub.resume_recv(&[]));
    assert_eq!(0, stub.recv_wanted());
    assert!(stub.pending_send_bytes().is_empty());
}

#[test]
fn oversized_frame_ends_the_receive() {
    let mut stub = IpcPipeStub::new_server(1);
    stub.start_recv().unwrap();
    assert_eq!(Err(StubError::MessageTooLarge), stub.resume_recv(&[1, 0, 0, 0, 0, 0, 0, 0, 2]));
    assert!(!stub.has_pending_recv());
}

#[test]
fn handshake_bytes_and_check() {
    assert_eq!(vec![0, 83, 80, 0, 0x70, 0x10, 0, 0], handshake_bytes(0x7010));
    let stub = IpcPipeStub::new_client(8);
    let mine = stub.send_handshake((16, 17));
    assert_eq!(vec![0, 83, 80, 0, 0, 16, 0, 0], mine);
    assert_eq!(Ok(()), stub.recv_handshake(&[0, 83, 80, 0, 0, 17, 0, 0], (16, 17)));
    assert_eq!(Err(StubError::BadHandshake), stub.recv_handshake(&mine, (16, 17)));
    assert_eq!(Err(StubError::BadHandshake), check_handshake(&[0, 83, 80], 17));
}
