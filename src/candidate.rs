//! The per-socket tie-break handshake. A candidate owns one raw socket racing to
//! become the connection to a peer. It decides; the caller's reactor loop does
//! the socket and registration work each step asks for and reports back.

use vstd::prelude::*;

use crate::peer_id::{key_less, lemma_key_order_total, PeerId};
use crate::registry::{
    active_of, after_begin, after_end, after_set_active, handshaking_of, ConnectionId, ConnectionMap,
};

verus! {

/// The reactor's name for a registered socket.
#[derive(Clone, Copy, Debug, PartialEq, Eq, Structural)]
pub struct Token(pub usize);

/// The key under which the owner stores a candidate's state.
#[derive(Clone, Copy, Debug, PartialEq, Eq, Structural)]
pub struct Context(pub usize);

/// Readiness reported by the reactor, or interest registered with it.
#[derive(Clone, Copy, Debug, PartialEq, Eq, Structural)]
pub struct Readiness {
    pub readable: bool,
    pub writable: bool,
    pub error: bool,
    pub hup: bool,
}

/// Which side of a socket pair speaks first.
#[derive(Clone, Copy, Debug, PartialEq, Eq, Structural)]
pub enum Role {
    /// Our identity is the greater one: register for writing and send first.
    Initiator,
    /// Our identity is the smaller one: register for reading and wait.
    Responder,
}

/// The role a side takes, from the two identities alone.
pub open spec fn role_for(our: Seq<u8>, their: Seq<u8>) -> Role {
    if key_less(their, our) {
        Role::Initiator
    } else {
        Role::Responder
    }
}

/// The interest a side of the given role registers first.
pub open spec fn interest_for(role: Role) -> Readiness {
    match role {
        Role::Initiator => Readiness { readable: false, writable: true, error: true, hup: true },
        Role::Responder => Readiness { readable: true, writable: false, error: true, hup: true },
    }
}

/// Picks the role for our side of a socket to the peer `their_id`.
pub fn choose_role(our_id: &PeerId, their_id: &PeerId) -> (r: Role)
    ensures
        r == role_for(our_id@, their_id@),
{
    if our_id.is_greater_than(their_id) {
        Role::Initiator
    } else {
        Role::Responder
    }
}

impl Role {
    /// The readiness to register the socket for when the candidate starts.
    pub fn interest(&self) -> (r: Readiness)
        ensures
            r == interest_for(*self),
    {
        match self {
            Role::Initiator => Readiness { readable: false, writable: true, error: true, hup: true },
            Role::Responder => Readiness { readable: true, writable: false, error: true, hup: true },
        }
    }
}

/// The one message of the handshake.
#[derive(Clone, Copy, Debug, PartialEq, Eq, Structural)]
pub enum Message {
    /// "This socket is the one": the handshake-acceptance marker.
    ChooseConnection,
}

/// Priority with which the marker is queued.
pub const HANDSHAKE_PRIORITY: u8 = 0;

/// What one non-blocking read of a framed message gave.
#[derive(Clone, Copy, Debug, PartialEq, Eq, Structural)]
pub enum ReadOutcome {
    /// The acceptance marker.
    Marker,
    /// Some other, well-formed message.
    Unexpected,
    /// Bytes that do not decode, or a failed read.
    Error,
    /// No complete message yet.
    Incomplete,
}

/// What one non-blocking write of the marker gave.
#[derive(Clone, Copy, Debug, PartialEq, Eq, Structural)]
pub enum WriteOutcome {
    /// The whole frame went out.
    Complete,
    /// Part of it is still queued; the next writable readiness asks to resume it.
    WouldBlock,
    /// The write failed.
    Error,
}

/// Where a candidate is in its life.
#[derive(Clone, Copy, Debug, PartialEq, Eq, Structural)]
pub enum Phase {
    Negotiating,
    /// The socket won and was handed back.
    Done,
    /// The candidate failed or was shut down.
    Terminated,
}

/// The kind of a step, without what it carries.
#[derive(Clone, Copy, Debug, PartialEq, Eq, Structural)]
pub enum StepKind {
    Wait,
    Read,
    /// A write that carries the marker.
    Write,
    /// A write that carries no message: it resumes what the socket still queues.
    Resume,
    Done,
    Failed,
}

/// What the caller is to do after a step of the candidate.
pub enum Step<S> {
    /// Nothing now: wait for the next readiness.
    Wait,
    /// Read one framed message from the socket and report it with `read_finished`.
    Read,
    /// Write to the socket and report it with `write_finished`: the message with
    /// its priority, or, with none, what the socket still queues of an earlier frame.
    Write(Option<(Message, u8)>),
    /// The socket won: remove the token and the context from the owner's tables
    /// and hand the socket and its token to the completion.
    Done { context: Context, token: Token, socket: S },
    /// The candidate failed: remove the token and the context from the owner's
    /// tables, deregister and drop the socket, and call the completion with nothing.
    Failed { context: Context, token: Token, socket: S },
}

impl<S> Step<S> {
    pub open spec fn kind(&self) -> StepKind {
        match self {
            Step::Wait => StepKind::Wait,
            Step::Read => StepKind::Read,
            Step::Write(Some(_)) => StepKind::Write,
            Step::Write(None) => StepKind::Resume,
            Step::Done { .. } => StepKind::Done,
            Step::Failed { .. } => StepKind::Failed,
        }
    }

    /// A finishing step hands over exactly this socket, context and token, and a
    /// write step carries the marker at the handshake's priority.
    pub open spec fn hands_over(&self, socket: S, context: Context, token: Token) -> bool {
        match self {
            Step::Done { context: c, token: t, socket: s } => *s == socket && *c == context && *t
                == token,
            Step::Failed { context: c, token: t, socket: s } => *s == socket && *c == context && *t
                == token,
            Step::Write(Some((m, p))) => *m == Message::ChooseConnection && *p == HANDSHAKE_PRIORITY,
            _ => true,
        }
    }
}

/// Everything about a candidate but its socket.
#[derive(Clone, Copy, Debug)]
pub struct CandidateState {
    pub phase: Phase,
    pub role: Role,
    pub peer: PeerId,
    pub token: Token,
    pub context: Context,
    /// The marker is still queued for writing.
    pub pending: bool,
    /// A readiness that was also writable is waiting on the read it asked for.
    pub write_after_read: bool,
}

/// A registry of connections to any kind of connection, as the models see it.
pub type Table<C> = Map<Seq<u8>, ConnectionId<C>>;

/// Failing, or shutting down: a negotiating candidate ends its handshake in the
/// registry and terminates; any other is left as it is.
pub open spec fn terminate_model<C>(c: CandidateState, m: Table<C>) -> (CandidateState, Table<C>, StepKind) {
    if c.phase == Phase::Negotiating {
        (CandidateState { phase: Phase::Terminated, ..c }, after_end(m, c.peer@), StepKind::Failed)
    } else {
        (c, m, StepKind::Wait)
    }
}

/// Success: the candidate ends its handshake in the registry and is done. Making
/// the socket the active connection is up to the completion.
pub open spec fn done_model<C>(c: CandidateState, m: Table<C>) -> (CandidateState, Table<C>, StepKind) {
    (CandidateState { phase: Phase::Done, ..c }, after_end(m, c.peer@), StepKind::Done)
}

/// A writable socket. Every time, the registry is looked at first: where a winner
/// is already recorded for the peer, the candidate fails without writing.
/// Otherwise the marker is taken out of the queue, at most once, and written;
/// once it is gone, the write resumes what the socket still queues.
pub open spec fn write_model<C>(c: CandidateState, m: Table<C>) -> (CandidateState, Table<C>, StepKind) {
    if active_of(m, c.peer@).is_some() {
        terminate_model(CandidateState { pending: false, ..c }, m)
    } else if c.pending {
        (CandidateState { pending: false, ..c }, m, StepKind::Write)
    } else {
        (c, m, StepKind::Resume)
    }
}

/// A readiness event from the reactor.
pub open spec fn ready_model<C>(c: CandidateState, m: Table<C>, ev: Readiness) -> (
    CandidateState,
    Table<C>,
    StepKind,
) {
    if c.phase != Phase::Negotiating {
        (c, m, StepKind::Wait)
    } else if ev.error || ev.hup {
        terminate_model(c, m)
    } else if ev.readable {
        (CandidateState { write_after_read: ev.writable, ..c }, m, StepKind::Read)
    } else if ev.writable {
        write_model(c, m)
    } else {
        (c, m, StepKind::Wait)
    }
}

/// The result of the read that a step asked for.
pub open spec fn read_model<C>(c: CandidateState, m: Table<C>, o: ReadOutcome) -> (
    CandidateState,
    Table<C>,
    StepKind,
) {
    if c.phase != Phase::Negotiating {
        (c, m, StepKind::Wait)
    } else {
        let c2 = CandidateState { write_after_read: false, ..c };
        match o {
            ReadOutcome::Marker => done_model(c2, m),
            ReadOutcome::Unexpected => terminate_model(c2, m),
            ReadOutcome::Error => terminate_model(c2, m),
            ReadOutcome::Incomplete => if c.write_after_read {
                write_model(c2, m)
            } else {
                (c2, m, StepKind::Wait)
            },
        }
    }
}

/// The result of the write that a step asked for.
pub open spec fn written_model<C>(c: CandidateState, m: Table<C>, o: WriteOutcome) -> (
    CandidateState,
    Table<C>,
    StepKind,
) {
    if c.phase != Phase::Negotiating {
        (c, m, StepKind::Wait)
    } else {
        match o {
            WriteOutcome::Complete => done_model(c, m),
            WriteOutcome::WouldBlock => (c, m, StepKind::Wait),
            WriteOutcome::Error => terminate_model(c, m),
        }
    }
}

/// One socket racing to become the connection to a peer.
pub struct ConnectionCandidate<S> {
    state: CandidateState,
    socket: Option<S>,
}

impl<S> View for ConnectionCandidate<S> {
    type V = CandidateState;

    closed spec fn view(&self) -> CandidateState {
        self.state
    }
}

impl<S> ConnectionCandidate<S> {
    /// The socket is held exactly while the candidate negotiates.
    pub closed spec fn wf(&self) -> bool {
        (self.state.phase == Phase::Negotiating) == self.socket.is_some()
    }

    /// The socket, while the candidate holds it.
    pub closed spec fn socket(&self) -> Option<S> {
        self.socket
    }

    /// A well-formed candidate holds its socket exactly while it negotiates.
    pub proof fn lemma_holds_socket(&self)
        requires
            self.wf(),
        ensures
            self.socket() is Some <==> self@.phase == Phase::Negotiating,
    {
    }

    /// Starts negotiating over `socket` for the peer `their_id`, and counts the
    /// handshake in the registry. The marker is queued; the role, and with it the
    /// interest to register, comes from the two identities alone.
    pub fn start<C>(
        token: Token,
        context: Context,
        socket: S,
        cm: &mut ConnectionMap<C>,
        our_id: &PeerId,
        their_id: PeerId,
    ) -> (r: ConnectionCandidate<S>)
        requires
            old(cm).wf(),
            handshaking_of(old(cm)@, their_id@) < u64::MAX,
        ensures
            r.wf(),
            r.socket() == Some(socket),
            r@ == (CandidateState {
                phase: Phase::Negotiating,
                role: role_for(our_id@, their_id@),
                peer: their_id,
                token,
                context,
                pending: true,
                write_after_read: false,
            }),
            final(cm).wf(),
            final(cm)@ == after_begin(old(cm)@, their_id@),
    {
        let role = choose_role(our_id, &their_id);
        cm.begin_handshake(their_id);
        ConnectionCandidate {
            state: CandidateState {
                phase: Phase::Negotiating,
                role,
                peer: their_id,
                token,
                context,
                pending: true,
                write_after_read: false,
            },
            socket: Some(socket),
        }
    }

    /// The role taken at the start.
    pub fn role(&self) -> (r: Role)
        ensures
            r == self@.role,
    {
        self.state.role
    }

    /// Where the candidate is in its life.
    pub fn phase(&self) -> (r: Phase)
        ensures
            r == self@.phase,
    {
        self.state.phase
    }

    /// The reactor token of the socket.
    pub fn token(&self) -> (r: Token)
        ensures
            r == self@.token,
    {
        self.state.token
    }

    /// The context the owner keeps this candidate under.
    pub fn context(&self) -> (r: Context)
        ensures
            r == self@.context,
    {
        self.state.context
    }

    /// The peer raced for.
    pub fn their_id(&self) -> (r: PeerId)
        ensures
            r == self@.peer,
    {
        self.state.peer
    }

    /// Whether the marker is still queued.
    pub fn has_pending(&self) -> (r: bool)
        ensures
            r == self@.pending,
    {
        self.state.pending
    }

    /// The socket, while the candidate negotiates.
    pub fn socket_ref(&self) -> (r: Option<&S>)
        requires
            self.wf(),
        ensures
            match r {
                Some(s) => self.socket() == Some(*s),
                None => self.socket().is_none(),
            },
    {
        self.socket.as_ref()
    }

    /// Ends the handshake as failed: the registry counts it out, and the socket
    /// leaves the candidate to be deregistered.
    fn handle_error<C>(&mut self, cm: &mut ConnectionMap<C>) -> (r: Step<S>)
        requires
            old(self).wf(),
            old(self)@.phase == Phase::Negotiating,
            old(cm).wf(),
        ensures
            final(self).wf(),
            final(cm).wf(),
            (final(self)@, final(cm)@, r.kind()) == terminate_model(old(self)@, old(cm)@),
            r.hands_over(old(self).socket().unwrap(), old(self)@.context, old(self)@.token),
            final(self).socket() is Some <==> final(self)@.phase == Phase::Negotiating,
            final(self).socket() is Some ==> final(self).socket() == old(self).socket(),
    {
        self.state.phase = Phase::Terminated;
        cm.end_handshake(&self.state.peer);
        let socket = self.socket.take().unwrap();
        Step::Failed { context: self.state.context, token: self.state.token, socket }
    }

    /// Ends the handshake as won: the registry counts it out, and the socket
    /// leaves the candidate for the completion.
    fn done<C>(&mut self, cm: &mut ConnectionMap<C>) -> (r: Step<S>)
        requires
            old(self).wf(),
            old(self)@.phase == Phase::Negotiating,
            old(cm).wf(),
        ensures
            final(self).wf(),
            final(cm).wf(),
            (final(self)@, final(cm)@, r.kind()) == done_model(old(self)@, old(cm)@),
            r.hands_over(old(self).socket().unwrap(), old(self)@.context, old(self)@.token),
            final(self).socket() is Some <==> final(self)@.phase == Phase::Negotiating,
            final(self).socket() is Some ==> final(self).socket() == old(self).socket(),
    {
        self.state.phase = Phase::Done;
        cm.end_handshake(&self.state.peer);
        let socket = self.socket.take().unwrap();
        Step::Done { context: self.state.context, token: self.state.token, socket }
    }

    /// Serves a writable socket. The registry is read on every writable event,
    /// not at creation: another candidate may have won meanwhile.
    fn write<C>(&mut self, cm: &mut ConnectionMap<C>) -> (r: Step<S>)
        requires
            old(self).wf(),
            old(self)@.phase == Phase::Negotiating,
            old(cm).wf(),
        ensures
            final(self).wf(),
            final(cm).wf(),
            (final(self)@, final(cm)@, r.kind()) == write_model(old(self)@, old(cm)@),
            r.hands_over(old(self).socket().unwrap(), old(self)@.context, old(self)@.token),
            final(self).socket() is Some <==> final(self)@.phase == Phase::Negotiating,
            final(self).socket() is Some ==> final(self).socket() == old(self).socket(),
    {
        if cm.has_active(&self.state.peer) {
            self.state.pending = false;
            return self.handle_error(cm);
        }
        if self.state.pending {
            self.state.pending = false;
            Step::Write(Some((Message::ChooseConnection, HANDSHAKE_PRIORITY)))
        } else {
            Step::Write(None)
        }
    }

    /// Handles a readiness event for the socket. Error or hang-up fail the
    /// candidate; a readable socket is read first, and a writable one is written
    /// to unless a winner is already recorded. A candidate that is no longer
    /// negotiating ignores the event.
    pub fn ready<C>(&mut self, cm: &mut ConnectionMap<C>, events: Readiness) -> (r: Step<S>)
        requires
            old(self).wf(),
            old(cm).wf(),
        ensures
            final(self).wf(),
            final(cm).wf(),
            (final(self)@, final(cm)@, r.kind()) == ready_model(old(self)@, old(cm)@, events),
            final(self).socket() is Some <==> final(self)@.phase == Phase::Negotiating,
            final(self).socket() is Some ==> final(self).socket() == old(self).socket(),
            old(self).socket() is Some ==> r.hands_over(
                old(self).socket().unwrap(),
                old(self)@.context,
                old(self)@.token,
            ),
    {
        if self.state.phase != Phase::Negotiating {
            return Step::Wait;
        }
        if events.error || events.hup {
            return self.handle_error(cm);
        }
        if events.readable {
            self.state.write_after_read = events.writable;
            return Step::Read;
        }
        if events.writable {
            return self.write(cm);
        }
        Step::Wait
    }

    /// Reports the read a step asked for. The marker wins; any other message or
    /// a failed decode fails the candidate; with nothing complete yet, a pending
    /// writable readiness is served next.
    pub fn read_finished<C>(&mut self, cm: &mut ConnectionMap<C>, outcome: ReadOutcome) -> (r: Step<S>)
        requires
            old(self).wf(),
            old(cm).wf(),
        ensures
            final(self).wf(),
            final(cm).wf(),
            (final(self)@, final(cm)@, r.kind()) == read_model(old(self)@, old(cm)@, outcome),
            final(self).socket() is Some <==> final(self)@.phase == Phase::Negotiating,
            final(self).socket() is Some ==> final(self).socket() == old(self).socket(),
            old(self).socket() is Some ==> r.hands_over(
                old(self).socket().unwrap(),
                old(self)@.context,
                old(self)@.token,
            ),
    {
        if self.state.phase != Phase::Negotiating {
            return Step::Wait;
        }
        let write_after_read = self.state.write_after_read;
        self.state.write_after_read = false;
        match outcome {
            ReadOutcome::Marker => self.done(cm),
            ReadOutcome::Unexpected => self.handle_error(cm),
            ReadOutcome::Error => self.handle_error(cm),
            ReadOutcome::Incomplete => {
                if write_after_read {
                    self.write(cm)
                } else {
                    Step::Wait
                }
            },
        }
    }

    /// Reports the write a step asked for. A complete write wins; a partial one
    /// leaves the rest queued in the socket, to be resumed on the next writable
    /// event, and the marker is not queued again.
    pub fn write_finished<C>(&mut self, cm: &mut ConnectionMap<C>, outcome: WriteOutcome) -> (r: Step<S>)
        requires
            old(self).wf(),
            old(cm).wf(),
        ensures
            final(self).wf(),
            final(cm).wf(),
            (final(self)@, final(cm)@, r.kind()) == written_model(old(self)@, old(cm)@, outcome),
            final(self).socket() is Some <==> final(self)@.phase == Phase::Negotiating,
            final(self).socket() is Some ==> final(self).socket() == old(self).socket(),
            old(self).socket() is Some ==> r.hands_over(
                old(self).socket().unwrap(),
                old(self)@.context,
                old(self)@.token,
            ),
    {
        if self.state.phase != Phase::Negotiating {
            return Step::Wait;
        }
        match outcome {
            WriteOutcome::Complete => self.done(cm),
            WriteOutcome::WouldBlock => Step::Wait,
            WriteOutcome::Error => self.handle_error(cm),
        }
    }

    /// Shuts the candidate down. The first call on a negotiating candidate fails
    /// it; any later call finds nothing to do and changes nothing.
    pub fn terminate<C>(&mut self, cm: &mut ConnectionMap<C>) -> (r: Step<S>)
        requires
            old(self).wf(),
            old(cm).wf(),
        ensures
            final(self).wf(),
            final(cm).wf(),
            (final(self)@, final(cm)@, r.kind()) == terminate_model(old(self)@, old(cm)@),
            final(self).socket() is Some <==> final(self)@.phase == Phase::Negotiating,
            final(self).socket() is Some ==> final(self).socket() == old(self).socket(),
            old(self).socket() is Some ==> r.hands_over(
                old(self).socket().unwrap(),
                old(self)@.context,
                old(self)@.token,
            ),
    {
        if self.state.phase != Phase::Negotiating {
            return Step::Wait;
        }
        self.handle_error(cm)
    }
}

/// Of two peers with distinct identities, the greater one speaks first on the
/// socket between them and the smaller one listens first, whichever side starts
/// its candidate first: the roles depend on the identities alone.
pub proof fn lemma_roles_complementary(a: PeerId, b: PeerId)
    requires
        key_less(b@, a@),
    ensures
        role_for(a@, b@) == Role::Initiator,
        role_for(b@, a@) == Role::Responder,
        interest_for(role_for(a@, b@)).writable && !interest_for(role_for(a@, b@)).readable,
        interest_for(role_for(b@, a@)).readable && !interest_for(role_for(b@, a@)).writable,
{
    if a@ == b@ {
        let i = choose|i: int|
            0 <= i < b@.len() && i < a@.len() && b@[i] < a@[i] && (forall|j: int|
                0 <= j < i ==> b@[j] == a@[j]);
        assert(b@[i] == a@[i]);
    }
    lemma_key_order_total(a@, b@);
}

/// Terminating twice leaves the candidate and the registry as terminating once
/// did: the second call counts nothing out and hands nothing over.
pub proof fn lemma_terminate_idempotent<C>(c: CandidateState, m: Table<C>)
    ensures
        ({
            let (c1, m1, _k1) = terminate_model(c, m);
            let (c2, m2, k2) = terminate_model(c1, m1);
            c2 == c1 && m2 == m1 && k2 == StepKind::Wait
        }),
{
}

/// Readiness with only the writable bit.
pub open spec fn writable_only() -> Readiness {
    Readiness { readable: false, writable: true, error: false, hup: false }
}

/// One event of a race between candidates for one peer, naming the candidate it
/// goes to by its place in the list.
#[derive(Clone, Copy, Debug)]
pub enum RaceEvent {
    /// A writable readiness, with the outcome of the write it asks for, if any.
    Writable(usize, WriteOutcome),
    /// An error or hang-up on the socket.
    Broken(usize),
    /// Shutdown by the owner.
    Shutdown(usize),
}

/// Readiness with only the error bit.
pub open spec fn error_only() -> Readiness {
    Readiness { readable: false, writable: false, error: true, hup: false }
}

/// One event applied to the candidates and the table; a candidate that wins has
/// its completion record `conn` as the active connection. The count is the
/// number of winners so far.
pub open spec fn race_step<C>(
    cs: Seq<CandidateState>,
    m: Table<C>,
    won: nat,
    e: RaceEvent,
    peer: Seq<u8>,
    conn: C,
) -> (Seq<CandidateState>, Table<C>, nat) {
    match e {
        RaceEvent::Writable(i, o) => if i < cs.len() {
            let (c1, m1, k1) = ready_model(cs[i as int], m, writable_only());
            if k1 == StepKind::Write || k1 == StepKind::Resume {
                let (c2, m2, k2) = written_model(c1, m1, o);
                if k2 == StepKind::Done {
                    (cs.update(i as int, c2), after_set_active(m2, peer, conn), won + 1)
                } else {
                    (cs.update(i as int, c2), m2, won)
                }
            } else {
                (cs.update(i as int, c1), m1, won)
            }
        } else {
            (cs, m, won)
        },
        RaceEvent::Broken(i) => if i < cs.len() {
            let (c1, m1, _k1) = ready_model(cs[i as int], m, error_only());
            (cs.update(i as int, c1), m1, won)
        } else {
            (cs, m, won)
        },
        RaceEvent::Shutdown(i) => if i < cs.len() {
            let (c1, m1, _k1) = terminate_model(cs[i as int], m);
            (cs.update(i as int, c1), m1, won)
        } else {
            (cs, m, won)
        },
    }
}

/// A whole sequence of race events, in order.
pub open spec fn run_race<C>(
    cs: Seq<CandidateState>,
    m: Table<C>,
    won: nat,
    es: Seq<RaceEvent>,
    peer: Seq<u8>,
    conn: C,
) -> (Seq<CandidateState>, Table<C>, nat)
    decreases es.len(),
{
    if es.len() == 0 {
        (cs, m, won)
    } else {
        let (cs1, m1, w1) = race_step(cs, m, won, es[0], peer, conn);
        run_race(cs1, m1, w1, es.drop_first(), peer, conn)
    }
}

proof fn lemma_end_keeps_active<C>(m: Table<C>, p: Seq<u8>, q: Seq<u8>)
    ensures
        active_of(after_end(m, p), q) == active_of(m, q),
{
}

/// The winners so far match what the table records: none and no active
/// connection, or one and an active connection.
pub open spec fn race_consistent<C>(cs: Seq<CandidateState>, m: Table<C>, won: nat, peer: Seq<u8>) -> bool {
    &&& forall|i: int| 0 <= i < cs.len() ==> (#[trigger] cs[i]).peer@ == peer
    &&& (won == 0 && active_of(m, peer).is_none()) || (won == 1 && active_of(m, peer).is_some())
}

proof fn lemma_race_step<C>(
    cs: Seq<CandidateState>,
    m: Table<C>,
    won: nat,
    e: RaceEvent,
    peer: Seq<u8>,
    conn: C,
)
    requires
        race_consistent(cs, m, won, peer),
    ensures
        ({
            let (cs1, m1, w1) = race_step(cs, m, won, e, peer, conn);
            race_consistent(cs1, m1, w1, peer)
        }),
{
    let (cs1, m1, w1) = race_step(cs, m, won, e, peer, conn);
    match e {
        RaceEvent::Writable(i, o) => {
            if i < cs.len() {
                let c = cs[i as int];
                lemma_end_keeps_active(m, c.peer@, peer);
                let (c1, mm1, k1) = ready_model(c, m, writable_only());
                lemma_end_keeps_active(mm1, c1.peer@, peer);
            }
        },
        RaceEvent::Broken(i) => {
            if i < cs.len() {
                lemma_end_keeps_active(m, cs[i as int].peer@, peer);
            }
        },
        RaceEvent::Shutdown(i) => {
            if i < cs.len() {
                lemma_end_keeps_active(m, cs[i as int].peer@, peer);
            }
        },
    }
    assert forall|j: int| 0 <= j < cs1.len() implies (#[trigger] cs1[j]).peer@ == peer by {
        assert(cs[j].peer@ == peer);
    }
}

/// Candidates racing for one peer, driven by any interleaving of writable
/// events (each with the write it asks for, complete, partial or failed),
/// errors, hang-ups and shutdowns, where the completion of a winner records it
/// as the active connection: at most one candidate wins, and the registry ends
/// with an active connection exactly when one did. A winner found at write time
/// fails every later candidate without writing.
pub proof fn lemma_single_winner<C>(
    cs: Seq<CandidateState>,
    m: Table<C>,
    es: Seq<RaceEvent>,
    peer: Seq<u8>,
    conn: C,
)
    requires
        forall|i: int| 0 <= i < cs.len() ==> (#[trigger] cs[i]).peer@ == peer,
        active_of(m, peer).is_none(),
    ensures
        ({
            let (_cs2, m2, won) = run_race(cs, m, 0, es, peer, conn);
            won <= 1 && (active_of(m2, peer).is_some() <==> won == 1)
        }),
{
    lemma_run_race(cs, m, 0, es, peer, conn);
}

proof fn lemma_run_race<C>(
    cs: Seq<CandidateState>,
    m: Table<C>,
    won: nat,
    es: Seq<RaceEvent>,
    peer: Seq<u8>,
    conn: C,
)
    requires
        race_consistent(cs, m, won, peer),
    ensures
        ({
            let (cs2, m2, w2) = run_race(cs, m, won, es, peer, conn);
            race_consistent(cs2, m2, w2, peer)
        }),
    decreases es.len(),
{
    if es.len() > 0 {
        lemma_race_step(cs, m, won, es[0], peer, conn);
        let (cs1, m1, w1) = race_step(cs, m, won, es[0], peer, conn);
        lemma_run_race(cs1, m1, w1, es.drop_first(), peer, conn);
    }
}

} // verus!
