use vstd::prelude::*;
use crate::message::Message;
use crate::codec::{be64_bytes, be64_value, read_be64, write_be64, lemma_be64_round_trip};

verus! {

/// Type byte that opens the frame of a message on a stream pipe.
pub const MSG_FRAME_TYPE: u8 = 1;

/// Bytes before a frame's payload: the type byte and the 64-bit length.
pub const FRAME_PREFIX_LEN: usize = 9;

/// Bytes of a protocol handshake.
pub const HANDSHAKE_LEN: usize = 8;

#[derive(Clone, Copy, PartialEq, Eq, Structural, Debug)]
pub enum StubError {
    /// A send or a receive was started while another was pending.
    OperationInProgress,
    /// A send or a receive was resumed while none was pending.
    NoPendingOperation,
    /// A frame announced more bytes than the pipe accepts.
    MessageTooLarge,
    /// A frame did not open with the message type byte.
    BadFrame,
    /// The peer announced another protocol than the one expected.
    BadHandshake,
}

/// The frame of a message on a stream pipe: the type byte, the big-endian
/// length of header and body together, then header and body.
pub open spec fn frame(m: (Seq<u8>, Seq<u8>)) -> Seq<u8> {
    seq![MSG_FRAME_TYPE] + be64_bytes((m.0.len() + m.1.len()) as u64) + m.0 + m.1
}

/// The handshake announcing protocol `id`.
pub open spec fn handshake(id: u16) -> Seq<u8> {
    seq![0u8, 0x53u8, 0x50u8, 0u8, (id >> 8u16) as u8, id as u8, 0u8, 0u8]
}

/// The payload length announced by a received frame prefix.
pub open spec fn announced(r: Seq<u8>) -> u64 {
    be64_value(r.subrange(1, 9))
}

/// What the bytes received so far make of a receive.
pub enum RecvStatus {
    Pending,
    Done(Seq<u8>),
    TooLarge,
    BadFrame,
}

pub open spec fn recv_status(max_size: u64, r: Seq<u8>) -> RecvStatus {
    if r.len() < 9 {
        RecvStatus::Pending
    } else if r[0] != MSG_FRAME_TYPE {
        RecvStatus::BadFrame
    } else if announced(r) > max_size {
        RecvStatus::TooLarge
    } else if r.len() - 9 == announced(r) {
        RecvStatus::Done(r.subrange(9, r.len() as int))
    } else {
        RecvStatus::Pending
    }
}

/// How many more bytes a pending receive may take.
pub open spec fn recv_wanted(r: Seq<u8>) -> int {
    if r.len() < 9 { 9 - r.len() } else { announced(r) - (r.len() - 9) }
}

/// A frame written by a send is read back whole by a receive that accepts
/// its size: the payload is the header followed by the body.
pub proof fn lemma_frame_round_trip(m: (Seq<u8>, Seq<u8>), max_size: u64)
    requires
        m.0.len() + m.1.len() <= max_size,
    ensures
        recv_status(max_size, frame(m)) == RecvStatus::Done(m.0 + m.1),
{
    let n = (m.0.len() + m.1.len()) as u64;
    let f = frame(m);
    lemma_be64_round_trip(n);
    assert(f.subrange(1, 9) =~= be64_bytes(n));
    assert(f.subrange(9, f.len() as int) =~= m.0 + m.1);
}

/// A send in progress: the frame of one message and how much of it the
/// channel has accepted so far.
pub struct SendOperation {
    frame: Vec<u8>,
    written: usize,
}

impl View for SendOperation {
    /// The whole frame, and the number of its bytes already written.
    type V = (Seq<u8>, int);

    closed spec fn view(&self) -> (Seq<u8>, int) {
        (self.frame@, self.written as int)
    }
}

impl SendOperation {
    pub open spec fn wf(&self) -> bool {
        0 <= self@.1 < self@.0.len()
    }

    /// Frames a message for sending.
    pub fn new(msg: &Message) -> (r: SendOperation)
        requires
            msg@.0.len() + msg@.1.len() + 9 <= usize::MAX,
        ensures
            r.wf(),
            r@ == (frame(msg@), 0int),
    {
        let len = msg.len();
        let mut buf: Vec<u8> = Vec::new();
        buf.push(MSG_FRAME_TYPE);
        let mut size = write_be64(len as u64);
        buf.append(&mut size);
        let mut i: usize = 0;
        while i < msg.header.len()
            invariant
                i <= msg.header@.len(),
                buf@ == seq![MSG_FRAME_TYPE] + be64_bytes(len as u64) + msg.header@.subrange(0, i as int),
            decreases msg.header@.len() - i,
        {
            buf.push(msg.header[i]);
            i = i + 1;
            assert(buf@ =~= seq![MSG_FRAME_TYPE] + be64_bytes(len as u64) + msg.header@.subrange(0, i as int));
        }
        let mut j: usize = 0;
        while j < msg.body.len()
            invariant
                j <= msg.body@.len(),
                i == msg.header@.len(),
                buf@ == seq![MSG_FRAME_TYPE] + be64_bytes(len as u64) + msg.header@ + msg.body@.subrange(0, j as int),
            decreases msg.body@.len() - j,
        {
            buf.push(msg.body[j]);
            j = j + 1;
            assert(buf@ =~= seq![MSG_FRAME_TYPE] + be64_bytes(len as u64) + msg.header@ + msg.body@.subrange(0, j as int));
        }
        assert(msg.header@.subrange(0, msg.header@.len() as int) == msg.header@);
        assert(msg.body@.subrange(0, msg.body@.len() as int) == msg.body@);
        SendOperation { frame: buf, written: 0 }
    }

    /// The bytes still to write.
    pub fn remaining(&self) -> (r: Vec<u8>)
        requires
            self.wf(),
        ensures
            r@ == self@.0.subrange(self@.1, self@.0.len() as int),
    {
        let mut r: Vec<u8> = Vec::new();
        let mut i: usize = self.written;
        while i < self.frame.len()
            invariant
                self.written <= i <= self.frame@.len(),
                r@ == self.frame@.subrange(self.written as int, i as int),
            decreases self.frame@.len() - i,
        {
            r.push(self.frame[i]);
            i = i + 1;
            assert(r@ =~= self.frame@.subrange(self.written as int, i as int));
        }
        r
    }

    pub fn remaining_len(&self) -> (r: usize)
        requires
            self.wf(),
        ensures
            r == self@.0.len() - self@.1,
    {
        self.frame.len() - self.written
    }

    /// Records that the channel accepted `n` more bytes; true once the whole
    /// frame is written.
    pub fn advance(&mut self, n: usize) -> (r: bool)
        requires
            old(self).wf(),
            n <= old(self)@.0.len() - old(self)@.1,
        ensures
            final(self)@ == (old(self)@.0, old(self)@.1 + n),
            r == (final(self)@.1 == final(self)@.0.len()),
            !r ==> final(self).wf(),
    {
        let total = self.frame.len();
        self.written = self.written + n;
        self.written == total
    }
}

/// A receive in progress: the bytes of the frame received so far.
#[derive(Debug)]
pub struct RecvOperation {
    max_size: u64,
    received: Vec<u8>,
}

impl View for RecvOperation {
    /// The largest payload accepted, and the bytes received so far.
    type V = (u64, Seq<u8>);

    closed spec fn view(&self) -> (u64, Seq<u8>) {
        (self.max_size, self.received@)
    }
}

/// Where a receive stands after taking more bytes.
#[derive(Debug)]
pub enum RecvStep {
    Pending(RecvOperation),
    Done(Message),
}

impl RecvOperation {
    pub open spec fn wf(&self) -> bool {
        &&& recv_status(self@.0, self@.1) is Pending
        &&& recv_wanted(self@.1) > 0
    }

    pub fn new(max_size: u64) -> (r: RecvOperation)
        ensures
            r.wf(),
            r@ == (max_size, Seq::<u8>::empty()),
    {
        RecvOperation { max_size, received: Vec::new() }
    }

    /// How many more bytes the receive may take.
    pub fn wanted(&self) -> (r: u64)
        requires
            self.wf(),
        ensures
            r == recv_wanted(self@.1),
    {
        let n = self.received.len();
        if n < FRAME_PREFIX_LEN {
            (FRAME_PREFIX_LEN - n) as u64
        } else {
            let size = read_be64(&self.received.as_slice()[1..9]);
            size - (n - FRAME_PREFIX_LEN) as u64
        }
    }

    /// Takes the bytes `input`, which the channel offered, and reports the
    /// message once its frame is complete.
    pub fn run(self, input: &[u8]) -> (r: Result<RecvStep, StubError>)
        requires
            self.wf(),
            input@.len() <= recv_wanted(self@.1),
        ensures
            ({
                let all = self@.1 + input@;
                match recv_status(self@.0, all) {
                    RecvStatus::Pending => r matches Ok(RecvStep::Pending(op)) && op.wf() && op@ == (self@.0, all),
                    RecvStatus::Done(body) => r matches Ok(RecvStep::Done(m)) && m@ == (Seq::<u8>::empty(), body),
                    RecvStatus::TooLarge => r == Err::<RecvStep, StubError>(StubError::MessageTooLarge),
                    RecvStatus::BadFrame => r == Err::<RecvStep, StubError>(StubError::BadFrame),
                }
            }),
    {
        let mut op = self;
        let ghost old_r = op.received@;
        let mut i: usize = 0;
        while i < input.len()
            invariant
                i <= input@.len(),
                op.max_size == self@.0,
                op.received@ == old_r + input@.subrange(0, i as int),
            decreases input@.len() - i,
        {
            op.received.push(input[i]);
            i = i + 1;
            assert(op.received@ =~= old_r + input@.subrange(0, i as int));
        }
        assert(input@.subrange(0, input@.len() as int) == input@);
        let n = op.received.len();
        if n < FRAME_PREFIX_LEN {
            return Ok(RecvStep::Pending(op));
        }
        if op.received[0] != MSG_FRAME_TYPE {
            return Err(StubError::BadFrame);
        }
        let size = read_be64(&op.received.as_slice()[1..9]);
        if size > op.max_size {
            return Err(StubError::MessageTooLarge);
        }
        if ((n - FRAME_PREFIX_LEN) as u64) < size {
            return Ok(RecvStep::Pending(op));
        }
        let body = op.received.split_off(FRAME_PREFIX_LEN);
        Ok(RecvStep::Done(Message::from_body(body)))
    }
}

/// The handshake bytes announcing protocol `id`.
pub fn handshake_bytes(id: u16) -> (r: Vec<u8>)
    ensures
        r@ == handshake(id),
{
    let mut r: Vec<u8> = Vec::new();
    r.push(0u8);
    r.push(0x53u8);
    r.push(0x50u8);
    r.push(0u8);
    r.push((id >> 8u16) as u8);
    r.push(id as u8);
    r.push(0u8);
    r.push(0u8);
    assert(r@ =~= handshake(id));
    r
}

/// Checks a peer's handshake against the protocol expected of it.
pub fn check_handshake(received: &[u8], peer_id: u16) -> (r: Result<(), StubError>)
    ensures
        r == if received@ == handshake(peer_id) {
            Ok::<(), StubError>(())
        } else {
            Err::<(), StubError>(StubError::BadHandshake)
        },
{
    let expected = handshake_bytes(peer_id);
    if received.len() != expected.len() {
        return Err(StubError::BadHandshake);
    }
    let mut i: usize = 0;
    while i < received.len()
        invariant
            i <= received@.len(),
            received@.len() == expected@.len(),
            expected@ == handshake(peer_id),
            forall|j: int| 0 <= j < i ==> received@[j] == expected@[j],
        decreases received@.len() - i,
    {
        if received[i] != expected[i] {
            assert(received@[i as int] != handshake(peer_id)[i as int]);
            return Err(StubError::BadHandshake);
        }
        i = i + 1;
    }
    assert(received@ =~= expected@);
    Ok(())
}

/// The inter-process transport: pipes over local stream sockets.
pub struct Ipc;

/// The logic of one inter-process pipe: at most one send and one receive
/// pending at a time, each resumable where the channel left it. The channel
/// itself is driven by the caller, which writes what a pending send has left
/// and hands over what it reads for a pending receive.
pub struct IpcPipeStub {
    server: bool,
    recv_max_size: u64,
    send_operation: Option<SendOperation>,
    recv_operation: Option<RecvOperation>,
}

/// Abstract state of a pipe stub.
pub struct StubView {
    pub server: bool,
    pub recv_max_size: u64,
    /// The pending send: its frame and how much of it is written.
    pub send: Option<(Seq<u8>, int)>,
    /// The pending receive: the bytes of its frame received so far.
    pub recv: Option<Seq<u8>>,
}

impl View for IpcPipeStub {
    type V = StubView;

    closed spec fn view(&self) -> StubView {
        StubView {
            server: self.server,
            recv_max_size: self.recv_max_size,
            send: match self.send_operation { Some(op) => Some(op@), None => None },
            recv: match self.recv_operation { Some(op) => Some(op@.1), None => None },
        }
    }
}

impl IpcPipeStub {
    pub closed spec fn wf(&self) -> bool {
        &&& (self.send_operation matches Some(op) ==> op.wf())
        &&& (self.recv_operation matches Some(op) ==> op.wf() && op@.0 == self.recv_max_size)
    }

    /// The stub of the listening end of a pipe.
    pub fn new_server(recv_max_size: u64) -> (r: IpcPipeStub)
        ensures
            r.wf(),
            r@ == (StubView { server: true, recv_max_size, send: None, recv: None }),
    {
        IpcPipeStub { server: true, recv_max_size, send_operation: None, recv_operation: None }
    }

    /// The stub of the connecting end of a pipe.
    pub fn new_client(recv_max_size: u64) -> (r: IpcPipeStub)
        ensures
            r.wf(),
            r@ == (StubView { server: false, recv_max_size, send: None, recv: None }),
    {
        IpcPipeStub { server: false, recv_max_size, send_operation: None, recv_operation: None }
    }

    /// Whether this end listens, and so must accept the peer's connection
    /// once registered with the poller.
    pub fn is_server(&self) -> (r: bool)
        ensures
            r == self@.server,
    {
        self.server
    }

    pub fn has_pending_send(&self) -> (r: bool)
        ensures
            r == self@.send is Some,
    {
        self.send_operation.is_some()
    }

    pub fn has_pending_recv(&self) -> (r: bool)
        ensures
            r == self@.recv is Some,
    {
        self.recv_operation.is_some()
    }

    /// Starts sending a message; refused while another send is pending.
    pub fn start_send(&mut self, msg: &Message) -> (r: Result<(), StubError>)
        requires
            old(self).wf(),
            msg@.0.len() + msg@.1.len() + 9 <= usize::MAX,
        ensures
            final(self).wf(),
            old(self)@.send is Some ==> r == Err::<(), StubError>(StubError::OperationInProgress)
                && final(self)@ == old(self)@,
            old(self)@.send is None ==> r == Ok::<(), StubError>(())
                && final(self)@ == (StubView { send: Some((frame(msg@), 0int)), ..old(self)@ }),
    {
        if self.send_operation.is_some() {
            return Err(StubError::OperationInProgress);
        }
        self.send_operation = Some(SendOperation::new(msg));
        Ok(())
    }

    /// The bytes the pending send has still to write; none without one.
    pub fn pending_send_bytes(&self) -> (r: Vec<u8>)
        requires
            self.wf(),
        ensures
            match self@.send {
                Some(op) => r@ == op.0.subrange(op.1, op.0.len() as int),
                None => r@ == Seq::<u8>::empty(),
            },
    {
        match &self.send_operation {
            Some(op) => op.remaining(),
            None => Vec::new(),
        }
    }

    /// Records that the channel accepted `written` more bytes of the pending
    /// send; true once the whole message is written, which ends the send.
    pub fn resume_send(&mut self, written: usize) -> (r: Result<bool, StubError>)
        requires
            old(self).wf(),
            old(self)@.send matches Some(op) ==> written <= op.0.len() - op.1,
        ensures
            final(self).wf(),
            match old(self)@.send {
                None => r == Err::<bool, StubError>(StubError::NoPendingOperation) && final(self)@ == old(self)@,
                Some(op) => if op.1 + written == op.0.len() {
                    r == Ok::<bool, StubError>(true) && final(self)@ == (StubView { send: None, ..old(self)@ })
                } else {
                    r == Ok::<bool, StubError>(false)
                        && final(self)@ == (StubView { send: Some((op.0, op.1 + written)), ..old(self)@ })
                },
            },
    {
        match self.send_operation.take() {
            None => Err(StubError::NoPendingOperation),
            Some(mut op) => {
                if op.advance(written) {
                    Ok(true)
                } else {
                    self.send_operation = Some(op);
                    Ok(false)
                }
            },
        }
    }

    /// Starts receiving a message; refused while another receive is pending.
    pub fn start_recv(&mut self) -> (r: Result<(), StubError>)
        requires
            old(self).wf(),
        ensures
            final(self).wf(),
            old(self)@.recv is Some ==> r == Err::<(), StubError>(StubError::OperationInProgress)
                && final(self)@ == old(self)@,
            old(self)@.recv is None ==> r == Ok::<(), StubError>(())
                && final(self)@ == (StubView { recv: Some(Seq::<u8>::empty()), ..old(self)@ }),
    {
        if self.recv_operation.is_some() {
            return Err(StubError::OperationInProgress);
        }
        self.recv_operation = Some(RecvOperation::new(self.recv_max_size));
        Ok(())
    }

    /// How many bytes the pending receive may take next; none without one.
    pub fn recv_wanted(&self) -> (r: u64)
        requires
            self.wf(),
        ensures
            match self@.recv {
                Some(got) => r == recv_wanted(got) && r > 0,
                None => r == 0,
            },
    {
        match &self.recv_operation {
            Some(op) => op.wanted(),
            None => 0,
        }
    }

    /// Hands the pending receive the bytes the channel offered. The message
    /// comes back once its frame is complete, which ends the receive, as does
    /// a malformed or oversized frame.
    pub fn resume_recv(&mut self, input: &[u8]) -> (r: Result<Option<Message>, StubError>)
        requires
            old(self).wf(),
            old(self)@.recv matches Some(got) ==> input@.len() <= recv_wanted(got),
        ensures
            final(self).wf(),
            match old(self)@.recv {
                None => r == Err::<Option<Message>, StubError>(StubError::NoPendingOperation)
                    && final(self)@ == old(self)@,
                Some(got) => {
                    let all = got + input@;
                    match recv_status(old(self)@.recv_max_size, all) {
                        RecvStatus::Pending => r matches Ok(None)
                            && final(self)@ == (StubView { recv: Some(all), ..old(self)@ }),
                        RecvStatus::Done(body) => r matches Ok(Some(m)) && m@ == (Seq::<u8>::empty(), body)
                            && final(self)@ == (StubView { recv: None, ..old(self)@ }),
                        RecvStatus::TooLarge => r matches Err(StubError::MessageTooLarge)
                            && final(self)@ == (StubView { recv: None, ..old(self)@ }),
                        RecvStatus::BadFrame => r matches Err(StubError::BadFrame)
                            && final(self)@ == (StubView { recv: None, ..old(self)@ }),
                    }
                },
            },
    {
        match self.recv_operation.take() {
            None => Err(StubError::NoPendingOperation),
            Some(op) => match op.run(input) {
                Ok(RecvStep::Pending(op)) => {
                    self.recv_operation = Some(op);
                    Ok(None)
                },
                Ok(RecvStep::Done(m)) => Ok(Some(m)),
                Err(e) => Err(e),
            },
        }
    }

    /// The handshake this end sends: its own protocol, the first of `pids`.
    pub fn send_handshake(&self, pids: (u16, u16)) -> (r: Vec<u8>)
        ensures
            r@ == handshake(pids.0),
    {
        handshake_bytes(pids.0)
    }

    /// Checks the peer's handshake against the peer protocol, the second of
    /// `pids`.
    pub fn recv_handshake(&self, received: &[u8], pids: (u16, u16)) -> (r: Result<(), StubError>)
        ensures
            r == if received@ == handshake(pids.1) {
                Ok::<(), StubError>(())
            } else {
                Err::<(), StubError>(StubError::BadHandshake)
            },
    {
        check_handshake(received, pids.1)
    }
}

} // verus!
