use vstd::prelude::*;
use crate::message::Message;
use crate::priolist::{PrioList, FairQueueView, lemma_wrap};
use crate::codec::{decode, encode, stamped, strip_origin, lemma_stamp_round_trip};

verus! {

/// Readiness of one pipe's channel, as the poller reports it.
#[derive(Clone, Copy, PartialEq, Eq, Structural, Debug)]
pub struct Readiness {
    pub readable: bool,
    pub writable: bool,
    pub error: bool,
    pub hup: bool,
}

/// The kinds of socket of the protocol family.
#[derive(Clone, Copy, PartialEq, Eq, Structural, Debug)]
pub enum SocketType {
    Push,
    Pull,
    Pair,
    Req,
    Rep,
    Pub,
    Sub,
    Bus,
    Surveyor,
    Respondent,
}

/// Where the bus engine stands with respect to the user's receive request.
/// A timeout is the id of the timer the reactor armed for the request.
#[derive(Clone, Copy, PartialEq, Eq, Structural, Debug)]
pub enum State {
    Idle,
    Receiving(usize, Option<u64>),
    RecvOnHold(Option<u64>),
}

#[derive(Clone, Copy, PartialEq, Eq, Structural, Debug)]
pub enum BusError {
    /// A pipe was already registered under the token.
    DuplicatePipe,
}

/// What the engine asks its surroundings to do, in order.
#[derive(Debug, PartialEq, Eq)]
pub enum Command {
    /// Begin the handshake of a newly added pipe.
    OpenPipe(usize),
    /// Tell a pipe that its handshake was acknowledged.
    AckPipeOpened(usize),
    /// Send a copy of the message on each listed pipe, each independently.
    Broadcast(Message, Vec<usize>),
    /// Start receiving one message on a pipe.
    StartRecv(usize),
    /// Abandon the receive outstanding on a pipe.
    CancelRecv(usize),
    /// Let a pipe perform the I/O its readiness allows.
    ProcessReady(usize, Readiness),
    /// Cancel a timer.
    ClearTimeout(u64),
    /// Tell the socket that its send completed.
    NotifySent,
    /// Hand a received message to the socket.
    NotifyRecv(Message),
    /// Close a pipe.
    ClosePipe(usize),
}

pub enum CommandView {
    OpenPipe(usize),
    AckPipeOpened(usize),
    Broadcast((Seq<u8>, Seq<u8>), Seq<usize>),
    StartRecv(usize),
    CancelRecv(usize),
    ProcessReady(usize, Readiness),
    ClearTimeout(u64),
    NotifySent,
    NotifyRecv((Seq<u8>, Seq<u8>)),
    ClosePipe(usize),
}

impl View for Command {
    type V = CommandView;

    open spec fn view(&self) -> CommandView {
        match self {
            Command::OpenPipe(t) => CommandView::OpenPipe(*t),
            Command::AckPipeOpened(t) => CommandView::AckPipeOpened(*t),
            Command::Broadcast(m, ts) => CommandView::Broadcast(m@, ts@),
            Command::StartRecv(t) => CommandView::StartRecv(*t),
            Command::CancelRecv(t) => CommandView::CancelRecv(*t),
            Command::ProcessReady(t, e) => CommandView::ProcessReady(*t, *e),
            Command::ClearTimeout(h) => CommandView::ClearTimeout(*h),
            Command::NotifySent => CommandView::NotifySent,
            Command::NotifyRecv(m) => CommandView::NotifyRecv(m@),
            Command::ClosePipe(t) => CommandView::ClosePipe(*t),
        }
    }
}

pub open spec fn views(cmds: Seq<Command>) -> Seq<CommandView> {
    cmds.map_values(|c: Command| c@)
}

/// The commands that cancel a timer, if there is one.
pub open spec fn clear(timeout: Option<u64>) -> Seq<CommandView> {
    match timeout {
        Some(h) => seq![CommandView::ClearTimeout(h)],
        None => Seq::empty(),
    }
}

/// The tokens of `s` in order, but the excluded origin's.
pub open spec fn all_but(s: Seq<usize>, origin: Option<u32>) -> Seq<usize>
    decreases s.len(),
{
    if s.len() == 0 {
        s
    } else {
        let rest = all_but(s.drop_last(), origin);
        if origin == Some(s.last() as u32) && s.last() <= u32::MAX {
            rest
        } else {
            rest.push(s.last())
        }
    }
}

pub proof fn lemma_all_but_members(s: Seq<usize>, origin: Option<u32>)
    ensures
        forall|x: usize| all_but(s, origin).contains(x) <==>
            (s.contains(x) && !(x <= u32::MAX && origin == Some(x as u32))),
    decreases s.len(),
{
    if s.len() > 0 {
        lemma_all_but_members(s.drop_last(), origin);
        assert forall|x: usize| s.contains(x) <==> (s.drop_last().contains(x) || x == s.last()) by {
            if s.contains(x) {
                let i = choose|i: int| 0 <= i < s.len() && s[i] == x;
                if i < s.len() - 1 {
                    assert(s.drop_last()[i] == x);
                }
            }
            if s.drop_last().contains(x) {
                let i = choose|i: int| 0 <= i < s.len() - 1 && s.drop_last()[i] == x;
                assert(s[i] == x);
            }
        }
        let rest = all_but(s.drop_last(), origin);
        assert forall|x: usize| rest.push(s.last()).contains(x) <==> (rest.contains(x) || x == s.last()) by {
            if rest.push(s.last()).contains(x) {
                let i = choose|i: int| 0 <= i < rest.len() + 1 && rest.push(s.last())[i] == x;
                if i < rest.len() {
                    assert(rest[i] == x);
                }
            }
            if rest.contains(x) {
                let i = choose|i: int| 0 <= i < rest.len() && rest[i] == x;
                assert(rest.push(s.last())[i] == x);
            }
            if x == s.last() {
                assert(rest.push(s.last())[rest.len() as int] == x);
            }
        }
        assert forall|x: usize| all_but(s, origin).contains(x) <==>
            (s.contains(x) && !(x <= u32::MAX && origin == Some(x as u32))) by {
            assert(rest.contains(x) <==> (s.drop_last().contains(x) && !(x <= u32::MAX && origin == Some(x as u32))));
            assert(s.contains(x) <==> (s.drop_last().contains(x) || x == s.last()));
            assert(rest.push(s.last()).contains(x) <==> (rest.contains(x) || x == s.last()));
            if origin == Some(s.last() as u32) && s.last() <= u32::MAX {
                assert(all_but(s, origin) == rest);
            } else {
                assert(all_but(s, origin) == rest.push(s.last()));
            }
        }
    }
}

pub open spec fn close_cmd(t: usize) -> CommandView {
    CommandView::ClosePipe(t)
}

/// Abstract state of the bus engine.
pub struct BusView {
    pub fq: FairQueueView,
    pub state: State,
}

impl BusView {
    /// Issues a receive on the next eligible pipe, or parks the request.
    pub open spec fn dispatch(fq: FairQueueView, timeout: Option<u64>) -> (BusView, Seq<CommandView>) {
        let (fq2, next) = fq.pop();
        match next {
            Some(p) => (BusView { fq: fq2, state: State::Receiving(p, timeout) }, seq![CommandView::StartRecv(p)]),
            None => (BusView { fq: fq2, state: State::RecvOnHold(timeout) }, Seq::empty()),
        }
    }

    /// Retries a parked receive; any other state is left as it is.
    pub open spec fn retry_held(self) -> (BusView, Seq<CommandView>) {
        match self.state {
            State::RecvOnHold(t) => BusView::dispatch(self.fq, t),
            _ => (self, Seq::empty()),
        }
    }

    pub open spec fn add_pipe(self, tok: usize) -> (BusView, Result<(), BusError>) {
        if self.fq.contains(tok) {
            (self, Err(BusError::DuplicatePipe))
        } else {
            (BusView { fq: self.fq.insert(tok), ..self }, Ok(()))
        }
    }

    pub open spec fn remove_pipe(self, tok: usize) -> (BusView, bool) {
        if !self.fq.contains(tok) {
            (self, false)
        } else {
            let state = match self.state {
                State::Receiving(p, t) => if p == tok { State::RecvOnHold(t) } else { self.state },
                _ => self.state,
            };
            (BusView { fq: self.fq.remove(tok), state }, true)
        }
    }

    pub open spec fn open_pipe(self, tok: usize) -> Seq<CommandView> {
        if self.fq.contains(tok) { seq![CommandView::OpenPipe(tok)] } else { Seq::empty() }
    }

    pub open spec fn on_pipe_opened(self, tok: usize) -> (BusView, Seq<CommandView>) {
        let ack = if self.fq.contains(tok) { seq![CommandView::AckPipeOpened(tok)] } else { Seq::empty() };
        let next = BusView { fq: self.fq.set_active(tok, true), ..self }.retry_held();
        (next.0, ack + next.1)
    }

    pub open spec fn send(self, msg: (Seq<u8>, Seq<u8>), timeout: Option<u64>) -> (BusView, Seq<CommandView>) {
        let (raw, origin) = strip_origin(msg);
        (
            BusView { fq: self.fq, state: State::Idle },
            seq![CommandView::Broadcast(raw, all_but(self.fq.tokens, origin)), CommandView::NotifySent] + clear(timeout),
        )
    }

    pub open spec fn recv(self, timeout: Option<u64>) -> (BusView, Seq<CommandView>) {
        BusView::dispatch(self.fq, timeout)
    }

    pub open spec fn on_recv_done(self, tok: usize, raw: (Seq<u8>, Seq<u8>)) -> (BusView, Seq<CommandView>) {
        let fq = self.fq.set_active(tok, true);
        match self.state {
            State::Receiving(p, t) => if p == tok {
                (BusView { fq, state: State::Idle }, seq![CommandView::NotifyRecv(stamped(raw, tok))] + clear(t))
            } else {
                (BusView { fq, state: self.state }, Seq::empty())
            },
            _ => (BusView { fq, state: self.state }, Seq::empty()),
        }
    }

    pub open spec fn on_recv_timeout(self) -> (BusView, Seq<CommandView>) {
        match self.state {
            State::Receiving(p, _) => (BusView { fq: self.fq.set_active(p, true), state: State::Idle }, seq![CommandView::CancelRecv(p)]),
            _ => (BusView { fq: self.fq, state: State::Idle }, Seq::empty()),
        }
    }

    pub open spec fn ready(self, tok: usize, events: Readiness) -> (BusView, Seq<CommandView>) {
        let first = if self.fq.contains(tok) { seq![CommandView::ProcessReady(tok, events)] } else { Seq::empty() };
        let next = self.retry_held();
        (next.0, first + next.1)
    }

    pub open spec fn destroy(self) -> (BusView, Seq<CommandView>) {
        (
            BusView { fq: FairQueueView { tokens: Seq::empty(), active: Seq::empty(), cursor: 0 }, state: self.state },
            self.fq.tokens.map_values(|t: usize| close_cmd(t)),
        )
    }
}

/// The bus protocol engine of one socket: every message sent goes to all
/// pipes but the one it came from, and receives rotate fairly over the pipes.
pub struct Bus {
    id: usize,
    fq: PrioList,
    state: State,
}

impl View for Bus {
    type V = BusView;

    closed spec fn view(&self) -> BusView {
        BusView { fq: self.fq@, state: self.state }
    }
}

fn clear_timeout(cmds: &mut Vec<Command>, timeout: Option<u64>)
    ensures
        views(final(cmds)@) == views(old(cmds)@) + clear(timeout),
{
    let ghost before = views(cmds@);
    if let Some(h) = timeout {
        cmds.push(Command::ClearTimeout(h));
        assert(views(cmds@) =~= before + clear(timeout));
    } else {
        assert(views(cmds@) =~= before + clear(timeout));
    }
}

impl Bus {
    pub closed spec fn wf(&self) -> bool {
        self.fq.wf()
    }

    pub closed spec fn socket_id(&self) -> usize {
        self.id
    }

    pub fn new(socket_id: usize) -> (r: Bus)
        ensures
            r.wf(),
            r.socket_id() == socket_id,
            r@.fq.tokens == Seq::<usize>::empty(),
            r@.state == State::Idle,
    {
        Bus { id: socket_id, fq: PrioList::new(), state: State::Idle }
    }

    pub fn get_id(&self) -> (r: usize)
        ensures
            r == self.socket_id(),
    {
        self.id
    }

    pub fn get_type(&self) -> (r: SocketType)
        ensures
            r == SocketType::Bus,
    {
        SocketType::Bus
    }

    pub fn state(&self) -> (r: State)
        ensures
            r == self@.state,
    {
        self.state
    }

    /// The registered pipes, in rotation order.
    pub fn pipes(&self) -> (r: &Vec<usize>)
        requires
            self.wf(),
        ensures
            r@ == self@.fq.tokens,
    {
        self.fq.tokens()
    }

    fn dispatch(&mut self, timeout: Option<u64>) -> (r: Vec<Command>)
        requires
            old(self).wf(),
        ensures
            final(self).wf(),
            final(self).socket_id() == old(self).socket_id(),
            (final(self)@, views(r@)) == BusView::dispatch(old(self)@.fq, timeout),
    {
        let mut cmds: Vec<Command> = Vec::new();
        match self.fq.pop() {
            Some(p) => {
                self.state = State::Receiving(p, timeout);
                cmds.push(Command::StartRecv(p));
            },
            None => {
                self.state = State::RecvOnHold(timeout);
            },
        }
        assert(views(cmds@) =~= BusView::dispatch(old(self)@.fq, timeout).1);
        cmds
    }

    fn retry_held(&mut self) -> (r: Vec<Command>)
        requires
            old(self).wf(),
        ensures
            final(self).wf(),
            final(self).socket_id() == old(self).socket_id(),
            (final(self)@, views(r@)) == old(self)@.retry_held(),
    {
        match self.state {
            State::RecvOnHold(t) => self.dispatch(t),
            _ => {
                let cmds: Vec<Command> = Vec::new();
                assert(views(cmds@) =~= Seq::<CommandView>::empty());
                cmds
            },
        }
    }

    /// Registers a pipe; a token already registered is refused.
    pub fn add_pipe(&mut self, tok: usize) -> (r: Result<(), BusError>)
        requires
            old(self).wf(),
        ensures
            final(self).wf(),
            final(self).socket_id() == old(self).socket_id(),
            (final(self)@, r) == old(self)@.add_pipe(tok),
    {
        if self.fq.contains(tok) {
            return Err(BusError::DuplicatePipe);
        }
        self.fq.insert(tok);
        Ok(())
    }

    /// Unregisters a pipe, telling whether it was registered. A receive the
    /// pipe was serving is parked again, with its timeout.
    pub fn remove_pipe(&mut self, tok: usize) -> (r: bool)
        requires
            old(self).wf(),
        ensures
            final(self).wf(),
            final(self).socket_id() == old(self).socket_id(),
            (final(self)@, r) == old(self)@.remove_pipe(tok),
    {
        if !self.fq.contains(tok) {
            return false;
        }
        self.fq.remove(tok);
        if let State::Receiving(p, t) = self.state {
            if p == tok {
                self.state = State::RecvOnHold(t);
            }
        }
        true
    }

    /// Asks a registered pipe to begin its handshake.
    pub fn open_pipe(&self, tok: usize) -> (r: Vec<Command>)
        requires
            self.wf(),
        ensures
            views(r@) == self@.open_pipe(tok),
    {
        let mut cmds: Vec<Command> = Vec::new();
        if self.fq.contains(tok) {
            cmds.push(Command::OpenPipe(tok));
        }
        assert(views(cmds@) =~= self@.open_pipe(tok));
        cmds
    }

    /// A pipe finished its handshake: it becomes eligible for receiving, and
    /// a parked receive is retried.
    pub fn on_pipe_opened(&mut self, tok: usize) -> (r: Vec<Command>)
        requires
            old(self).wf(),
        ensures
            final(self).wf(),
            final(self).socket_id() == old(self).socket_id(),
            (final(self)@, views(r@)) == old(self)@.on_pipe_opened(tok),
    {
        let mut cmds: Vec<Command> = Vec::new();
        if self.fq.contains(tok) {
            cmds.push(Command::AckPipeOpened(tok));
        }
        let ghost ack = views(cmds@);
        self.fq.activate(tok);
        let mut more = self.retry_held();
        cmds.append(&mut more);
        assert(views(cmds@) =~= old(self)@.on_pipe_opened(tok).1);
        cmds
    }

    /// Broadcasts a message to every pipe, but to the one named by an origin
    /// stamp heading it, and returns to rest.
    pub fn send(&mut self, msg: Message, timeout: Option<u64>) -> (r: Vec<Command>)
        requires
            old(self).wf(),
        ensures
            final(self).wf(),
            final(self).socket_id() == old(self).socket_id(),
            (final(self)@, views(r@)) == old(self)@.send(msg@, timeout),
    {
        let (raw_msg, origin) = encode(msg);
        let tokens = self.fq.tokens();
        let mut targets: Vec<usize> = Vec::new();
        let mut i: usize = 0;
        while i < tokens.len()
            invariant
                i <= tokens@.len(),
                targets@ == all_but(tokens@.subrange(0, i as int), origin),
            decreases tokens@.len() - i,
        {
            let t = tokens[i];
            assert(tokens@.subrange(0, i + 1).drop_last() == tokens@.subrange(0, i as int));
            let excluded = match origin {
                Some(o) => t <= 0xffff_ffffusize && o == t as u32,
                None => false,
            };
            if !excluded {
                targets.push(t);
            }
            i = i + 1;
        }
        assert(tokens@.subrange(0, tokens@.len() as int) == tokens@);
        let mut cmds: Vec<Command> = Vec::new();
        cmds.push(Command::Broadcast(raw_msg, targets));
        cmds.push(Command::NotifySent);
        clear_timeout(&mut cmds, timeout);
        self.state = State::Idle;
        cmds
    }

    /// A pipe's send completed; the engine keeps no record of it.
    pub fn on_send_done(&mut self, tok: usize)
        ensures
            *final(self) == *old(self),
    {
    }

    /// The send timer fired; sends are not tracked by the engine.
    pub fn on_send_timeout(&mut self)
        ensures
            *final(self) == *old(self),
    {
    }

    /// Sends never stay pending in the engine.
    pub fn has_pending_send(&self) -> (r: bool)
        ensures
            r == false,
    {
        false
    }

    /// Issues a receive on the next eligible pipe in rotation, or parks it.
    pub fn recv(&mut self, timeout: Option<u64>) -> (r: Vec<Command>)
        requires
            old(self).wf(),
        ensures
            final(self).wf(),
            final(self).socket_id() == old(self).socket_id(),
            (final(self)@, views(r@)) == old(self)@.recv(timeout),
    {
        self.dispatch(timeout)
    }

    /// A pipe delivered a message. If it is the pipe serving the receive,
    /// the message, stamped with its origin, goes to the socket and the
    /// receive timer is cancelled; any other delivery is late and dropped.
    pub fn on_recv_done(&mut self, tok: usize, raw_msg: Message) -> (r: Vec<Command>)
        requires
            old(self).wf(),
        ensures
            final(self).wf(),
            final(self).socket_id() == old(self).socket_id(),
            (final(self)@, views(r@)) == old(self)@.on_recv_done(tok, raw_msg@),
    {
        let msg = decode(raw_msg, tok);
        self.fq.activate(tok);
        let mut cmds: Vec<Command> = Vec::new();
        match self.state {
            State::Receiving(p, t) => {
                if p == tok {
                    cmds.push(Command::NotifyRecv(msg));
                    clear_timeout(&mut cmds, t);
                    self.state = State::Idle;
                }
            },
            _ => {},
        }
        assert(views(cmds@) =~= old(self)@.on_recv_done(tok, raw_msg@).1);
        cmds
    }

    /// The receive timer fired: a receive outstanding on a pipe is cancelled
    /// and the engine returns to rest.
    pub fn on_recv_timeout(&mut self) -> (r: Vec<Command>)
        requires
            old(self).wf(),
        ensures
            final(self).wf(),
            final(self).socket_id() == old(self).socket_id(),
            (final(self)@, views(r@)) == old(self)@.on_recv_timeout(),
    {
        let mut cmds: Vec<Command> = Vec::new();
        if let State::Receiving(p, _) = self.state {
            self.fq.activate(p);
            cmds.push(Command::CancelRecv(p));
        }
        self.state = State::Idle;
        assert(views(cmds@) =~= old(self)@.on_recv_timeout().1);
        cmds
    }

    /// Readiness of a pipe's channel: the pipe does its I/O, then a parked
    /// receive is retried.
    pub fn ready(&mut self, tok: usize, events: Readiness) -> (r: Vec<Command>)
        requires
            old(self).wf(),
        ensures
            final(self).wf(),
            final(self).socket_id() == old(self).socket_id(),
            (final(self)@, views(r@)) == old(self)@.ready(tok, events),
    {
        let mut cmds: Vec<Command> = Vec::new();
        if self.fq.contains(tok) {
            cmds.push(Command::ProcessReady(tok, events));
        }
        let ghost first = views(cmds@);
        let mut more = self.retry_held();
        cmds.append(&mut more);
        assert(views(cmds@) =~= old(self)@.ready(tok, events).1);
        cmds
    }

    /// Closes every pipe and forgets them all.
    pub fn destroy(&mut self) -> (r: Vec<Command>)
        requires
            old(self).wf(),
        ensures
            final(self).wf(),
            final(self).socket_id() == old(self).socket_id(),
            (final(self)@, views(r@)) == old(self)@.destroy(),
    {
        let tokens = self.fq.tokens();
        let mut cmds: Vec<Command> = Vec::new();
        let mut i: usize = 0;
        while i < tokens.len()
            invariant
                i <= tokens@.len(),
                cmds@.len() == i,
                forall|j: int| 0 <= j < i ==> #[trigger] cmds@[j]@ == close_cmd(tokens@[j]),
            decreases tokens@.len() - i,
        {
            cmds.push(Command::ClosePipe(tokens[i]));
            i = i + 1;
        }
        assert(views(cmds@) =~= tokens@.map_values(|t: usize| close_cmd(t)));
        self.fq.clear();
        assert(self.fq@.active =~= Seq::<bool>::empty());
        assert(self.fq@.tokens =~= Seq::<usize>::empty());
        cmds
    }
}

/// No command of `cmds` hands a message to the socket.
pub open spec fn delivers_nothing(cmds: Seq<CommandView>) -> bool {
    forall|i: int| 0 <= i < cmds.len() ==> !(#[trigger] cmds[i] is NotifyRecv)
}

/// Echo suppression: a message that came from pipe `a` with an empty header,
/// stamped with `a` and handed back unchanged for sending, is broadcast as it
/// came, to every registered pipe but `a`, and never to `a`.
pub proof fn lemma_echo_suppression(v: BusView, a: usize, raw: (Seq<u8>, Seq<u8>), timeout: Option<u64>)
    requires
        raw.0.len() == 0,
        a <= u32::MAX,
    ensures
        ({
            let out = v.send(stamped(raw, a), timeout);
            let targets = all_but(v.fq.tokens, Some(a as u32));
            &&& out.1[0] == CommandView::Broadcast(raw, targets)
            &&& out.0.state == State::Idle
            &&& forall|x: usize| #[trigger] targets.contains(x) <==> (v.fq.tokens.contains(x) && x != a)
        }),
{
    lemma_stamp_round_trip(raw, a);
    lemma_all_but_members(v.fq.tokens, Some(a as u32));
    let targets = all_but(v.fq.tokens, Some(a as u32));
    assert forall|x: usize| #[trigger] targets.contains(x) <==> (v.fq.tokens.contains(x) && x != a) by {
        assert(targets.contains(x) <==> (v.fq.tokens.contains(x) && !(x <= u32::MAX && Some(a as u32) == Some(x as u32))));
        if x <= u32::MAX {
            assert((x as u32) == x);
            assert((a as u32) == a);
        }
    }
}

/// Stale completions are harmless: when the pipe serving a receive is
/// removed and its receive completes anyway, nothing is delivered and the
/// engine stays exactly as the removal left it.
pub proof fn lemma_stale_completion(v: BusView, a: usize, timeout: Option<u64>, raw: (Seq<u8>, Seq<u8>))
    requires
        v.fq.wf(),
        v.fq.contains(a),
        v.state == State::Receiving(a, timeout),
    ensures
        ({
            let removed = v.remove_pipe(a).0;
            let late = removed.on_recv_done(a, raw);
            &&& removed.state == State::RecvOnHold(timeout)
            &&& late.0 == removed
            &&& late.1 == Seq::<CommandView>::empty()
        }),
{
    let s = v.fq.tokens;
    let i = s.index_of(a);
    s.index_of_first_ensures(a);
    let rest = s.remove(i);
    assert(!rest.contains(a)) by {
        if rest.contains(a) {
            let j = choose|j: int| 0 <= j < rest.len() && rest[j] == a;
            if j < i {
                assert(s[j] == a);
            } else {
                assert(s[j + 1] == a);
            }
        }
    }
}

/// Hold and retry: a receive issued with no pipe is parked; adding and opening
/// one pipe starts the receive on it, and its message completes the request,
/// exactly once, with no second receive issued.
pub proof fn lemma_hold_and_retry(v: BusView, p: usize, timeout: Option<u64>, raw: (Seq<u8>, Seq<u8>))
    requires
        v.fq.wf(),
        v.fq.tokens.len() == 0,
    ensures
        ({
            let held = v.recv(timeout);
            let added = held.0.add_pipe(p);
            let opened = added.0.on_pipe_opened(p);
            let done = opened.0.on_recv_done(p, raw);
            &&& held.0.state == State::RecvOnHold(timeout)
            &&& held.1 == Seq::<CommandView>::empty()
            &&& added.1 == Ok::<(), BusError>(())
            &&& opened.1 == seq![CommandView::AckPipeOpened(p), CommandView::StartRecv(p)]
            &&& opened.0.state == State::Receiving(p, timeout)
            &&& done.1 == seq![CommandView::NotifyRecv(stamped(raw, p))] + clear(timeout)
            &&& done.0.state == State::Idle
        }),
{
    let held = v.recv(timeout);
    assert(v.fq.first_active(0) == None::<nat>);
    let fq1 = held.0.fq.insert(p);
    assert(fq1.tokens =~= seq![p]);
    assert(fq1.tokens.index_of(p) == 0) by {
        fq1.tokens.index_of_first_ensures(p);
    }
    let fq2 = fq1.set_active(p, true);
    assert(fq2.slot(0) == 0);
    assert(fq2.first_active(0) == Some(0nat));
    let opened = held.0.add_pipe(p).0.on_pipe_opened(p);
    assert(opened.1 =~= seq![CommandView::AckPipeOpened(p), CommandView::StartRecv(p)]);
}

/// A receive with a timer ends in exactly one way: when its message arrives
/// first, the message is delivered and the timer cancelled, and neither a
/// later completion nor the timer delivers anything more; when the timer
/// fires first, nothing is delivered, and neither is anything later.
pub proof fn lemma_recv_outcome_exclusive(
    v: BusView,
    p: usize,
    h: u64,
    raw: (Seq<u8>, Seq<u8>),
    tok: usize,
    raw2: (Seq<u8>, Seq<u8>),
)
    requires
        v.state == State::Receiving(p, Some(h)),
    ensures
        ({
            let done = v.on_recv_done(p, raw);
            &&& done.1 == seq![CommandView::NotifyRecv(stamped(raw, p)), CommandView::ClearTimeout(h)]
            &&& done.0.state == State::Idle
            &&& delivers_nothing(done.0.on_recv_done(tok, raw2).1)
            &&& delivers_nothing(done.0.on_recv_timeout().1)
        }),
        ({
            let expired = v.on_recv_timeout();
            &&& delivers_nothing(expired.1)
            &&& expired.0.state == State::Idle
            &&& delivers_nothing(expired.0.on_recv_done(tok, raw2).1)
        }),
{
    let done = v.on_recv_done(p, raw);
    assert(done.1 =~= seq![CommandView::NotifyRecv(stamped(raw, p)), CommandView::ClearTimeout(h)]);
}

/// One receive cycle without a timer: a receive is issued and the pipe that
/// serves it delivers the message it offers. Gives the new state, the pipe
/// that served, and what its completion produced.
pub open spec fn receive_cycle(v: BusView, offer: spec_fn(usize) -> (Seq<u8>, Seq<u8>)) -> (BusView, Option<usize>, Seq<CommandView>) {
    let issued = v.recv(None).0;
    match issued.state {
        State::Receiving(p, _) => {
            let done = issued.on_recv_done(p, offer(p));
            (done.0, Some(p), done.1)
        },
        _ => (issued, None, Seq::empty()),
    }
}

/// `k` successive receive cycles: the pipes that served, and all their
/// completions' commands in order.
pub open spec fn receive_cycles(v: BusView, offer: spec_fn(usize) -> (Seq<u8>, Seq<u8>), k: nat) -> (BusView, Seq<usize>, Seq<CommandView>)
    decreases k,
{
    if k == 0 {
        (v, Seq::empty(), Seq::empty())
    } else {
        let prev = receive_cycles(v, offer, (k - 1) as nat);
        let step = receive_cycle(prev.0, offer);
        (step.0, match step.1 { Some(p) => prev.1.push(p), None => prev.1 }, prev.2 + step.2)
    }
}

proof fn lemma_receive_cycles_step(v: BusView, offer: spec_fn(usize) -> (Seq<u8>, Seq<u8>), k: nat)
    requires
        v.fq.wf(),
        v.fq.all_active(),
        v.fq.tokens.len() > 0,
        k <= v.fq.tokens.len(),
    ensures
        ({
            let n = v.fq.tokens.len() as int;
            let r = receive_cycles(v, offer, k);
            &&& r.0.fq.tokens == v.fq.tokens
            &&& r.0.fq.active.len() == n
            &&& r.0.fq.all_active()
            &&& r.0.fq.cursor == (v.fq.cursor + k) % n
            &&& r.0.state == State::Idle || k == 0
            &&& r.1 == Seq::new(k, |j: int| v.fq.tokens[(v.fq.cursor + j) % n])
            &&& r.2 == Seq::new(k, |j: int| CommandView::NotifyRecv(
                stamped(offer(v.fq.tokens[(v.fq.cursor + j) % n]), v.fq.tokens[(v.fq.cursor + j) % n])))
        }),
    decreases k,
{
    let n = v.fq.tokens.len() as int;
    let c = v.fq.cursor;
    if k == 0 {
        vstd::arithmetic::div_mod::lemma_small_mod(c as nat, n as nat);
        assert(receive_cycles(v, offer, 0).1 =~= Seq::new(0, |j: int| v.fq.tokens[(c + j) % n]));
        assert(receive_cycles(v, offer, 0).2 =~= Seq::new(0, |j: int| CommandView::NotifyRecv(
            stamped(offer(v.fq.tokens[(c + j) % n]), v.fq.tokens[(c + j) % n]))));
    } else {
        let k1 = (k - 1) as nat;
        lemma_receive_cycles_step(v, offer, k1);
        let prev = receive_cycles(v, offer, k1);
        let fq = prev.0.fq;
        lemma_wrap(c, k1 as int, n);
        lemma_wrap(c, k as int, n);
        let i = fq.cursor;
        assert(fq.slot(0) == i) by {
            vstd::arithmetic::div_mod::lemma_small_mod(i as nat, n as nat);
        }
        assert(fq.first_active(0) == Some(0nat));
        let p = fq.tokens[i];
        let issued = prev.0.recv(None).0;
        assert(issued.state == State::Receiving(p, None));
        assert(fq.tokens.index_of(p) == i) by {
            fq.tokens.index_of_first_ensures(p);
            assert(fq.tokens.contains(p));
        }
        let done = issued.on_recv_done(p, offer(p));
        assert(done.0.fq.active =~= fq.active);
        assert(done.1 =~= seq![CommandView::NotifyRecv(stamped(offer(p), p))]);
        assert(done.0.fq.cursor == (c + k) % n) by {
            lemma_wrap(i, 1, n);
        }
        let r = receive_cycles(v, offer, k);
        assert(r.1 =~= Seq::new(k, |j: int| v.fq.tokens[(c + j) % n]));
        assert(r.2 =~= Seq::new(k, |j: int| CommandView::NotifyRecv(
            stamped(offer(v.fq.tokens[(c + j) % n]), v.fq.tokens[(c + j) % n]))));
    }
}

/// Fairness: with every one of the `n` registered pipes eligible and each
/// offering a message, `n` receive cycles are served by each pipe exactly
/// once, in rotation order from the cursor whatever order the pipes were
/// added in, and deliver each pipe's message, stamped with its token.
pub proof fn lemma_fair_receive_cycles(v: BusView, offer: spec_fn(usize) -> (Seq<u8>, Seq<u8>))
    requires
        v.fq.wf(),
        v.fq.all_active(),
    ensures
        ({
            let s = v.fq.tokens;
            let rot = s.subrange(v.fq.cursor, s.len() as int) + s.subrange(0, v.fq.cursor);
            let r = receive_cycles(v, offer, s.len());
            &&& r.1 == rot
            &&& r.1.to_multiset() == s.to_multiset()
            &&& r.2 == rot.map_values(|t: usize| CommandView::NotifyRecv(stamped(offer(t), t)))
        }),
{
    let s = v.fq.tokens;
    let n = s.len() as int;
    let c = v.fq.cursor;
    let rot = s.subrange(c, n) + s.subrange(0, c);
    if n == 0 {
        assert(receive_cycles(v, offer, 0).1 =~= rot);
        assert(receive_cycles(v, offer, 0).2 =~= rot.map_values(|t: usize| CommandView::NotifyRecv(stamped(offer(t), t))));
    } else {
        lemma_receive_cycles_step(v, offer, n as nat);
        assert forall|j: int| 0 <= j < n implies receive_cycles(v, offer, n as nat).1[j] == rot[j] by {
            lemma_wrap(c, j, n);
        }
        assert(receive_cycles(v, offer, n as nat).1 =~= rot);
        assert(receive_cycles(v, offer, n as nat).2 =~= rot.map_values(|t: usize| CommandView::NotifyRecv(stamped(offer(t), t))));
    }
    vstd::seq_lib::lemma_multiset_commutative(s.subrange(c, n), s.subrange(0, c));
    vstd::seq_lib::lemma_multiset_commutative(s.subrange(0, c), s.subrange(c, n));
    assert(s.subrange(0, c) + s.subrange(c, n) =~= s);
}

} // verus!
