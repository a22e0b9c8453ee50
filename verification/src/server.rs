//! The event loop: tokens, connections and what to do about an event.
use crate::gateway::Rustgi;
use crate::io::{after_accept, Attempt, Next};
use std::collections::HashMap;
use vstd::prelude::*;

verus! {

broadcast use vstd::std_specs::hash::group_hash_axioms;

/// The token of the listener.
pub const SERVER: usize = 0;

/// The most events that are taken at once.
pub const N_EVENTS: usize = 1024;

/// The token after a token: the next number, leaving out that of the listener.
pub open spec fn next_token(token: usize) -> usize {
    if token == usize::MAX {
        1
    } else {
        (token + 1) as usize
    }
}

/// The token after `n` more tokens.
pub open spec fn nth_token(token: usize, n: nat) -> usize
    decreases n,
{
    if n == 0 {
        token
    } else {
        next_token(nth_token(token, (n - 1) as nat))
    }
}

/// A token for a new connection.
pub fn get_unique_token(identity_token: &mut usize) -> (token: usize)
    ensures
        token == next_token(*old(identity_token)),
        *final(identity_token) == token,
        token != SERVER,
{
    *identity_token = identity_token.wrapping_add(1);
    if *identity_token == SERVER {
        *identity_token = identity_token.wrapping_add(1);
    }
    *identity_token
}

proof fn nth_token_form(token: usize, n: nat)
    requires
        token >= 1,
    ensures
        nth_token(token, n) == (token - 1 + n) % (usize::MAX as int) + 1,
    decreases n,
{
    let m = usize::MAX as int;
    if n == 0 {
        assert((token - 1) % m == token - 1) by (nonlinear_arith)
            requires
                0 <= token - 1 < m,
        ;
    } else {
        nth_token_form(token, (n - 1) as nat);
        let a = token - 1 + n - 1;
        vstd::arithmetic::div_mod::lemma_add_mod_noop(a, 1, m);
        if a % m == m - 1 {
            assert((m - 1 + 1) % m == 0) by (nonlinear_arith)
                requires
                    m > 0,
            ;
            assert(1int % m == 1) by (nonlinear_arith)
                requires
                    m > 1,
            ;
        } else {
            assert(1int % m == 1) by (nonlinear_arith)
                requires
                    m > 1,
            ;
            assert((a % m + 1) % m == a % m + 1) by (nonlinear_arith)
                requires
                    0 <= a % m + 1 < m,
            ;
        }
    }
}

/// Tokens differ, and none is that of the listener, as long as fewer tokens are given
/// out in between than there are.
pub proof fn tokens_differ(token: usize, i: nat, j: nat)
    requires
        1 <= i < j,
        j - i < usize::MAX,
    ensures
        nth_token(token, i) != nth_token(token, j),
        nth_token(token, i) != SERVER,
{
    let m = usize::MAX as int;
    let start: usize = next_token(token);
    nth_token_shift(token, (i - 1) as nat);
    nth_token_shift(token, (j - 1) as nat);
    nth_token_form(start, (i - 1) as nat);
    nth_token_form(start, (j - 1) as nat);
    let a = start - 1 + (i - 1);
    let b = start - 1 + (j - 1);
    if a % m == b % m {
        vstd::arithmetic::div_mod::lemma_fundamental_div_mod(a, m);
        vstd::arithmetic::div_mod::lemma_fundamental_div_mod(b, m);
        assert(false) by (nonlinear_arith)
            requires
                a == m * (a / m) + a % m,
                b == m * (b / m) + b % m,
                a % m == b % m,
                0 < b - a < m,
        ;
    }
    vstd::arithmetic::div_mod::lemma_mod_bound(a, m);
}

proof fn nth_token_shift(token: usize, n: nat)
    ensures
        nth_token(token, n + 1) == nth_token(next_token(token), n),
    decreases n,
{
    reveal_with_fuel(nth_token, 2);
    if n > 0 {
        nth_token_shift(token, (n - 1) as nat);
    }
}

/// What a connection is ready for.
#[derive(Clone, Copy, PartialEq, Eq, Structural, Debug)]
pub struct Readiness {
    pub readable: bool,
    pub writable: bool,
}

/// What the event loop does about an event.
pub enum EventStep {
    /// Accept connections.
    Accept,
    /// Poll the connection, once all events are taken.
    Queued,
    /// Nothing: the connection is gone.
    Ignored,
}

/// Whether an operation on a connection can be tried.
#[derive(Clone, Copy, PartialEq, Eq, Structural, Debug)]
pub enum Gate {
    /// There is no such connection.
    NotFound,
    /// The connection is not ready for it.
    Pending,
    /// It can be tried.
    Proceed,
}

/// What the event loop knows of connections: for each token the last event, if there
/// was one.
pub struct ServerRef {
    identity_token: usize,
    connections: HashMap<usize, Option<Readiness>>,
}

impl View for ServerRef {
    type V = (usize, Map<usize, Option<Readiness>>);

    /// The token that was given out last, and the connections.
    closed spec fn view(&self) -> (usize, Map<usize, Option<Readiness>>) {
        (self.identity_token, self.connections@)
    }
}

/// Whether reading from a connection can be tried.
pub open spec fn read_gate(
    connections: Map<usize, Option<Readiness>>,
    token: usize,
) -> Gate {
    if !connections.contains_key(token) {
        Gate::NotFound
    } else {
        match connections[token] {
            Some(event) => if event.readable {
                Gate::Proceed
            } else {
                Gate::Pending
            },
            None => Gate::Pending,
        }
    }
}

/// Whether writing to a connection can be tried.
pub open spec fn write_gate(
    connections: Map<usize, Option<Readiness>>,
    token: usize,
) -> Gate {
    if !connections.contains_key(token) {
        Gate::NotFound
    } else {
        match connections[token] {
            Some(event) => if event.writable {
                Gate::Proceed
            } else {
                Gate::Pending
            },
            None => Gate::Pending,
        }
    }
}

impl ServerRef {
    /// No connection, and no token given out.
    pub fn new() -> (server: Self)
        ensures
            server@ == (SERVER, Map::<usize, Option<Readiness>>::empty()),
    {
        ServerRef { identity_token: SERVER, connections: HashMap::new() }
    }

    /// Forgets all connections and begins with tokens anew.
    pub fn reset(&mut self)
        ensures
            final(self)@ == (SERVER, Map::<usize, Option<Readiness>>::empty()),
    {
        self.identity_token = SERVER;
        self.connections.clear();
    }

    /// A token for a connection that was accepted.
    pub fn accept(&mut self) -> (token: usize)
        ensures
            token == next_token(old(self)@.0),
            token != SERVER,
            final(self)@ == (token, old(self)@.1),
    {
        get_unique_token(&mut self.identity_token)
    }

    /// Enters a connection, on which no event has come yet.
    pub fn insert(&mut self, token: usize)
        ensures
            final(self)@ == (old(self)@.0, old(self)@.1.insert(token, None)),
    {
        self.connections.insert(token, None);
    }

    /// Takes an event. That of a connection is kept, and its token queued.
    pub fn on_event(&mut self, token: usize, event: Readiness, queue: &mut Vec<usize>) -> (step:
        EventStep)
        requires
            old(queue)@.len() < N_EVENTS,
        ensures
            final(self)@.0 == old(self)@.0,
            match step {
                EventStep::Accept => token == SERVER && final(self)@ == old(self)@ && final(queue)@
                    == old(queue)@,
                EventStep::Queued => token != SERVER && old(self)@.1.contains_key(token) && final(
                    self)@.1 == old(self)@.1.insert(token, Some(event)) && final(queue)@ == old(
                    queue)@.push(token),
                EventStep::Ignored => token != SERVER && !old(self)@.1.contains_key(token)
                    && final(self)@ == old(self)@ && final(queue)@ == old(queue)@,
            },
    {
        if token == SERVER {
            return EventStep::Accept;
        }
        if self.connections.contains_key(&token) {
            self.connections.insert(token, Some(event));
            queue.push(token);
            EventStep::Queued
        } else {
            EventStep::Ignored
        }
    }

    /// Takes the outcome of polling a connection: one that is done is forgotten.
    pub fn on_polled(&mut self, token: usize, done: bool)
        ensures
            final(self)@ == (
                old(self)@.0,
                if done {
                    old(self)@.1.remove(token)
                } else {
                    old(self)@.1
                },
            ),
    {
        if done {
            self.connections.remove(&token);
        }
    }

    /// Whether reading from a connection can be tried.
    pub fn poll_read(&self, token: usize) -> (gate: Gate)
        ensures
            gate == read_gate(self@.1, token),
    {
        match self.connections.get(&token) {
            None => Gate::NotFound,
            Some(None) => Gate::Pending,
            Some(Some(event)) => if event.readable {
                Gate::Proceed
            } else {
                Gate::Pending
            },
        }
    }

    /// Whether writing to a connection can be tried.
    pub fn poll_write(&self, token: usize) -> (gate: Gate)
        ensures
            gate == write_gate(self@.1, token),
    {
        match self.connections.get(&token) {
            None => Gate::NotFound,
            Some(None) => Gate::Pending,
            Some(Some(event)) => if event.writable {
                Gate::Proceed
            } else {
                Gate::Pending
            },
        }
    }

    /// Whether there is a connection to shut down.
    pub fn poll_shutdown(&self, token: usize) -> (found: bool)
        ensures
            found == self@.1.contains_key(token),
    {
        self.connections.contains_key(&token)
    }
}

/// A server that runs in the event loop.
pub struct Server<A> {
    rustgi: Rustgi<A>,
}

impl<A> View for Server<A> {
    type V = Rustgi<A>;

    closed spec fn view(&self) -> Rustgi<A> {
        self.rustgi
    }
}

impl<A> Server<A> {
    /// A server. What the event loop of the thread still knows of an earlier one is
    /// forgotten.
    pub fn new(rustgi: Rustgi<A>, server_ref: &mut Option<ServerRef>) -> (server: Self)
        ensures
            server@ == rustgi,
            *final(server_ref) is Some,
            (*final(server_ref))->Some_0@ == (SERVER, Map::<usize, Option<Readiness>>::empty()),
    {
        match server_ref.take() {
            Some(mut some_ref) => {
                some_ref.reset();
                *server_ref = Some(some_ref);
            },
            None => {
                *server_ref = Some(ServerRef::new());
            },
        }
        Server { rustgi }
    }
}

/// A connection is not read from or written to before an event came for it, is read
/// from once an event says that it is readable, and is gone once it is done.
pub proof fn connection_life(
    connections: Map<usize, Option<Readiness>>,
    token: usize,
    event: Readiness,
)
    ensures
        read_gate(connections.insert(token, None), token) == Gate::Pending,
        write_gate(connections.insert(token, None), token) == Gate::Pending,
        read_gate(connections.insert(token, Some(event)), token) == (if event.readable {
            Gate::Proceed
        } else {
            Gate::Pending
        }),
        write_gate(connections.insert(token, Some(event)), token) == (if event.writable {
            Gate::Proceed
        } else {
            Gate::Pending
        }),
        read_gate(connections.remove(token), token) == Gate::NotFound,
        write_gate(connections.remove(token), token) == Gate::NotFound,
{
}

/// An event for one connection, or the end of one, leaves every other connection as
/// it was.
pub proof fn connections_are_independent(
    connections: Map<usize, Option<Readiness>>,
    token: usize,
    other: usize,
    event: Option<Readiness>,
)
    requires
        token != other,
    ensures
        read_gate(connections.insert(token, event), other) == read_gate(connections, other),
        write_gate(connections.insert(token, event), other) == write_gate(connections, other),
        read_gate(connections.remove(token), other) == read_gate(connections, other),
        write_gate(connections.remove(token), other) == write_gate(connections, other),
{
}

/// How often a server asks for events before it lets other tasks run.
pub const N_ROUNDS: usize = 16;

/// What a server waits for in the middle of its work.
#[derive(Clone, Copy, PartialEq, Eq, Structural, Debug)]
pub enum Stage {
    /// The events of a round.
    Asking,
    /// A connection from the listener.
    Accepting,
    /// The registration of an accepted connection.
    Registering(usize),
    /// The progress of a connection.
    Polling,
    /// The end of the registration of a connection that is done.
    Deregistering,
    /// Nothing.
    Over,
}

/// What a server is to do.
pub enum LoopAction<E> {
    /// Ask for events, without waiting for them.
    Ask,
    /// Accept a connection.
    Accept,
    /// Register the accepted connection under this token.
    Register(usize),
    /// Poll the connection with this token.
    Poll(usize),
    /// End the registration of the connection with this token, and drop it.
    Deregister(usize),
    /// Let other tasks run.
    Wait,
    /// End with this error.
    Fail(E),
}

/// What came of what a server has done.
pub enum LoopEvent<E> {
    Asked(Attempt<Vec<(usize, Readiness)>, E>),
    Accepted(Attempt<(), E>),
    Registered(Result<(), E>),
    /// Whether the connection is done.
    Polled(bool),
    Deregistered(Result<(), E>),
}

/// The work of a server between two waits.
pub struct PollRun {
    rounds: usize,
    events: Vec<(usize, Readiness)>,
    queue: Vec<usize>,
    at: usize,
    stage: Stage,
}

/// The work of a server between two waits.
pub struct RunView {
    /// The rounds to come, the one at hand among them.
    pub rounds: int,
    /// The events of the round.
    pub events: Seq<(usize, Readiness)>,
    /// The connections to poll in the round.
    pub queue: Seq<usize>,
    /// How far the server is with the events, or with the connections to poll.
    pub at: int,
    pub stage: Stage,
}

impl View for PollRun {
    type V = RunView;

    closed spec fn view(&self) -> RunView {
        RunView {
            rounds: self.rounds as int,
            events: self.events@,
            queue: self.queue@,
            at: self.at as int,
            stage: self.stage,
        }
    }
}

/// Whether a server is where it can be, and `event` is what it waits for.
pub open spec fn fits<E>(run: RunView, event: LoopEvent<E>) -> bool {
    &&& 1 <= run.rounds <= N_ROUNDS
    &&& run.events.len() <= N_EVENTS
    &&& match (run.stage, event) {
        (Stage::Asking, LoopEvent::Asked(Attempt::Done(events))) => events@.len() <= N_EVENTS,
        (Stage::Asking, LoopEvent::Asked(_)) => true,
        (Stage::Accepting, LoopEvent::Accepted(_)) => run.queue.len() <= run.at
            < run.events.len(),
        (Stage::Registering(_), LoopEvent::Registered(_)) => run.queue.len() <= run.at
            < run.events.len(),
        (Stage::Polling, LoopEvent::Polled(_)) => 0 <= run.at < run.queue.len() <= N_EVENTS,
        (Stage::Deregistering, LoopEvent::Deregistered(_)) => 0 <= run.at < run.queue.len()
            <= N_EVENTS,
        _ => false,
    }
}

/// The connections and the queue after the events from `at` on, up to the next one of
/// the listener, and where that is.
pub open spec fn noted(
    connections: Map<usize, Option<Readiness>>,
    events: Seq<(usize, Readiness)>,
    at: int,
    queue: Seq<usize>,
) -> (Map<usize, Option<Readiness>>, int, Seq<usize>)
    decreases events.len() - at,
{
    if at >= events.len() || events[at].0 == SERVER {
        (connections, at, queue)
    } else if connections.contains_key(events[at].0) {
        noted(
            connections.insert(events[at].0, Some(events[at].1)),
            events,
            at + 1,
            queue.push(events[at].0),
        )
    } else {
        noted(connections, events, at + 1, queue)
    }
}

/// What a server does next in the queue: polls the next connection, or begins another
/// round, or waits after the last round.
pub open spec fn next_poll<E>(run: RunView) -> (RunView, LoopAction<E>) {
    if run.at < run.queue.len() {
        (RunView { stage: Stage::Polling, ..run }, LoopAction::Poll(run.queue[run.at]))
    } else if run.rounds > 1 {
        (RunView { rounds: run.rounds - 1, stage: Stage::Asking, ..run }, LoopAction::Ask)
    } else {
        (RunView { rounds: 0, stage: Stage::Over, ..run }, LoopAction::Wait)
    }
}

/// What a server does next with the events: notes those of connections, up to one of
/// the listener, and then accepts; after the last event turns to the queue.
pub open spec fn next_event<E>(
    run: RunView,
    connections: Map<usize, Option<Readiness>>,
) -> (RunView, Map<usize, Option<Readiness>>, LoopAction<E>) {
    let (connections, at, queue) = noted(connections, run.events, run.at, run.queue);
    if at < run.events.len() {
        (RunView { at, queue, stage: Stage::Accepting, ..run }, connections, LoopAction::Accept)
    } else {
        let (next, action) = next_poll::<E>(RunView { at: 0, queue, ..run });
        (next, connections, action)
    }
}

/// The end of the work of a server.
pub open spec fn failed<E>(
    run: RunView,
    server: (usize, Map<usize, Option<Readiness>>),
    err: E,
) -> (RunView, (usize, Map<usize, Option<Readiness>>), LoopAction<E>) {
    (RunView { stage: Stage::Over, ..run }, server, LoopAction::Fail(err))
}

/// The work of a server and what it knows of connections, after `event`, and what it
/// is to do.
pub open spec fn stepped<E>(
    run: RunView,
    server: (usize, Map<usize, Option<Readiness>>),
    event: LoopEvent<E>,
) -> (RunView, (usize, Map<usize, Option<Readiness>>), LoopAction<E>) {
    match event {
        LoopEvent::Asked(Attempt::Done(events)) => {
            let (next, connections, action) = next_event(
                RunView { events: events@, queue: Seq::empty(), at: 0, ..run },
                server.1,
            );
            (next, (server.0, connections), action)
        },
        LoopEvent::Asked(Attempt::Interrupted(_)) => {
            let (next, action) = next_poll(
                RunView { events: Seq::empty(), queue: Seq::empty(), at: 0, ..run },
            );
            (next, server, action)
        },
        LoopEvent::Asked(Attempt::WouldBlock(err)) => failed(run, server, err),
        LoopEvent::Asked(Attempt::Failed(err)) => failed(run, server, err),
        LoopEvent::Accepted(Attempt::Done(_)) => {
            let token = next_token(server.0);
            (
                RunView { stage: Stage::Registering(token), ..run },
                (token, server.1),
                LoopAction::Register(token),
            )
        },
        LoopEvent::Accepted(Attempt::WouldBlock(_)) => {
            let (next, connections, action) = next_event(
                RunView { at: run.at + 1, ..run },
                server.1,
            );
            (next, (server.0, connections), action)
        },
        LoopEvent::Accepted(Attempt::Interrupted(err)) => failed(run, server, err),
        LoopEvent::Accepted(Attempt::Failed(err)) => failed(run, server, err),
        LoopEvent::Registered(Ok(_)) => match run.stage {
            Stage::Registering(token) => (
                RunView { stage: Stage::Accepting, ..run },
                (server.0, server.1.insert(token, None)),
                LoopAction::Accept,
            ),
            _ => (run, server, LoopAction::Accept),
        },
        LoopEvent::Registered(Err(err)) => failed(run, server, err),
        LoopEvent::Polled(done) => if done {
            (
                RunView { stage: Stage::Deregistering, ..run },
                server,
                LoopAction::Deregister(run.queue[run.at]),
            )
        } else {
            let (next, action) = next_poll(RunView { at: run.at + 1, ..run });
            (next, server, action)
        },
        LoopEvent::Deregistered(Ok(_)) => {
            let (next, action) = next_poll(RunView { at: run.at + 1, ..run });
            (next, (server.0, server.1.remove(run.queue[run.at])), action)
        },
        LoopEvent::Deregistered(Err(err)) => failed(run, server, err),
    }
}

impl PollRun {
    /// The beginning of the work between two waits, which is to ask for events.
    pub fn new() -> (run: Self)
        ensures
            run@ == (RunView {
                rounds: N_ROUNDS as int,
                events: Seq::empty(),
                queue: Seq::empty(),
                at: 0,
                stage: Stage::Asking,
            }),
    {
        PollRun {
            rounds: N_ROUNDS,
            events: Vec::new(),
            queue: Vec::new(),
            at: 0,
            stage: Stage::Asking,
        }
    }

    /// Goes on with the queue.
    fn next_queued<E>(&mut self) -> (action: LoopAction<E>)
        requires
            1 <= old(self)@.rounds,
        ensures
            (final(self)@, action) == next_poll::<E>(old(self)@),
    {
        if self.at < self.queue.len() {
            self.stage = Stage::Polling;
            LoopAction::Poll(self.queue[self.at])
        } else if self.rounds > 1 {
            self.rounds = self.rounds - 1;
            self.stage = Stage::Asking;
            LoopAction::Ask
        } else {
            self.rounds = 0;
            self.stage = Stage::Over;
            LoopAction::Wait
        }
    }

    /// Goes on with the events.
    fn next_noted<E>(&mut self, server: &mut ServerRef) -> (action: LoopAction<E>)
        requires
            1 <= old(self)@.rounds,
            old(self)@.queue.len() <= old(self)@.at <= old(self)@.events.len() <= N_EVENTS,
        ensures
            final(server)@.0 == old(server)@.0,
            (final(self)@, final(server)@.1, action) == next_event::<E>(
                old(self)@,
                old(server)@.1,
            ),
    {
        while self.at < self.events.len()
            invariant_except_break
                self.queue@.len() <= self.at <= self.events@.len() <= N_EVENTS,
                self.rounds == old(self).rounds,
                self.events == old(self).events,
                self.stage == old(self).stage,
                server@.0 == old(server)@.0,
                noted(server@.1, self.events@, self.at as int, self.queue@) == noted(
                    old(server)@.1,
                    old(self)@.events,
                    old(self)@.at,
                    old(self)@.queue,
                ),
            ensures
                self.rounds == old(self).rounds,
                self.events == old(self).events,
                self.stage == old(self).stage,
                server@.0 == old(server)@.0,
                (server@.1, self.at as int, self.queue@) == noted(
                    old(server)@.1,
                    old(self)@.events,
                    old(self)@.at,
                    old(self)@.queue,
                ),
            decreases self.events@.len() - self.at,
        {
            let (token, event) = self.events[self.at];
            match server.on_event(token, event, &mut self.queue) {
                EventStep::Accept => {
                    break;
                },
                EventStep::Queued => {},
                EventStep::Ignored => {},
            }
            self.at = self.at + 1;
        }
        if self.at < self.events.len() {
            self.stage = Stage::Accepting;
            return LoopAction::Accept;
        }
        self.at = 0;
        self.next_queued()
    }

    fn fail<E>(&mut self, err: E) -> (action: LoopAction<E>)
        ensures
            final(self)@ == (RunView { stage: Stage::Over, ..old(self)@ }),
            action == LoopAction::Fail(err),
    {
        self.stage = Stage::Over;
        LoopAction::Fail(err)
    }
}

impl<A> Server<A> {
    /// Goes on after `event`. Each round takes all events that are there: the listener
    /// accepts until no connection is waiting, and then each connection with an event
    /// is polled once.
    pub fn poll<E>(
        &self,
        run: &mut PollRun,
        server: &mut ServerRef,
        event: LoopEvent<E>,
    ) -> (action: LoopAction<E>)
        requires
            fits(old(run)@, event),
        ensures
            (final(run)@, final(server)@, action) == stepped(old(run)@, old(server)@, event),
    {
        match event {
            LoopEvent::Asked(Attempt::Done(events)) => {
                run.events = events;
                run.queue = Vec::new();
                run.at = 0;
                run.next_noted(server)
            },
            LoopEvent::Asked(Attempt::Interrupted(_)) => {
                run.events = Vec::new();
                run.queue = Vec::new();
                run.at = 0;
                run.next_queued()
            },
            LoopEvent::Asked(Attempt::WouldBlock(err)) => run.fail(err),
            LoopEvent::Asked(Attempt::Failed(err)) => run.fail(err),
            LoopEvent::Accepted(attempt) => match after_accept(attempt) {
                Next::Ready(()) => {
                    let token: usize = server.accept();
                    run.stage = Stage::Registering(token);
                    LoopAction::Register(token)
                },
                Next::Failed(err) => run.fail(err),
                _ => {
                    run.at = run.at + 1;
                    run.next_noted(server)
                },
            },
            LoopEvent::Registered(Ok(())) => {
                if let Stage::Registering(token) = run.stage {
                    server.insert(token);
                    run.stage = Stage::Accepting;
                }
                LoopAction::Accept
            },
            LoopEvent::Registered(Err(err)) => run.fail(err),
            LoopEvent::Polled(done) => {
                if done {
                    run.stage = Stage::Deregistering;
                    return LoopAction::Deregister(run.queue[run.at]);
                }
                run.at = run.at + 1;
                run.next_queued()
            },
            LoopEvent::Deregistered(Ok(())) => {
                server.on_polled(run.queue[run.at], true);
                run.at = run.at + 1;
                run.next_queued()
            },
            LoopEvent::Deregistered(Err(err)) => run.fail(err),
        }
    }
}

/// Whether `event` can come of `action`.
pub open spec fn answers<E>(action: LoopAction<E>, event: LoopEvent<E>) -> bool {
    match (action, event) {
        (LoopAction::Ask, LoopEvent::Asked(Attempt::Done(events))) => events@.len() <= N_EVENTS,
        (LoopAction::Ask, LoopEvent::Asked(_)) => true,
        (LoopAction::Accept, LoopEvent::Accepted(_)) => true,
        (LoopAction::Register(_), LoopEvent::Registered(_)) => true,
        (LoopAction::Poll(_), LoopEvent::Polled(_)) => true,
        (LoopAction::Deregister(_), LoopEvent::Deregistered(_)) => true,
        _ => false,
    }
}

proof fn noted_bounds(
    connections: Map<usize, Option<Readiness>>,
    events: Seq<(usize, Readiness)>,
    at: int,
    queue: Seq<usize>,
)
    requires
        queue.len() <= at <= events.len(),
    ensures
        ({
            let (_, end, noted_queue) = noted(connections, events, at, queue);
            &&& noted_queue.len() <= end <= events.len()
            &&& at <= end
        }),
    decreases events.len() - at,
{
    if at >= events.len() || events[at].0 == SERVER {
    } else if connections.contains_key(events[at].0) {
        noted_bounds(
            connections.insert(events[at].0, Some(events[at].1)),
            events,
            at + 1,
            queue.push(events[at].0),
        );
    } else {
        noted_bounds(connections, events, at + 1, queue);
    }
}

/// A server can always go on with what comes of what it does.
pub proof fn server_goes_on<E>(
    run: RunView,
    server: (usize, Map<usize, Option<Readiness>>),
    event: LoopEvent<E>,
    answer: LoopEvent<E>,
)
    requires
        fits(run, event),
        answers(stepped(run, server, event).2, answer),
    ensures
        fits(stepped(run, server, event).0, answer),
{
    match event {
        LoopEvent::Asked(Attempt::Done(events)) => noted_bounds(
            server.1,
            events@,
            0,
            Seq::empty(),
        ),
        LoopEvent::Accepted(Attempt::WouldBlock(_)) => noted_bounds(
            server.1,
            run.events,
            run.at + 1,
            run.queue,
        ),
        _ => {},
    }
}

/// Whether events are of different connections, as far as they are to come.
pub open spec fn distinct_events(events: Seq<(usize, Readiness)>, at: int) -> bool {
    forall|i: int, j: int|
        at <= i < j < events.len() ==> (#[trigger] events[i]).0 != (#[trigger] events[j]).0
}

/// Whether every connection in the queue from `at` on is known, and none is in it
/// twice.
pub open spec fn queue_is_known(
    connections: Map<usize, Option<Readiness>>,
    queue: Seq<usize>,
    at: int,
) -> bool {
    &&& queue.no_duplicates()
    &&& forall|i: int|
        at <= i < queue.len() ==> connections.contains_key(#[trigger] queue[i])
}

/// Whether events that are to come are of connections that are not in the queue.
pub open spec fn events_are_new(
    events: Seq<(usize, Readiness)>,
    at: int,
    queue: Seq<usize>,
) -> bool {
    forall|i: int, j: int|
        at <= i < events.len() && 0 <= j < queue.len() ==> (#[trigger] events[i]).0
            != #[trigger] queue[j]
}

/// Whether a server in the middle of its work polls known connections only.
pub open spec fn run_is_known(
    run: RunView,
    connections: Map<usize, Option<Readiness>>,
) -> bool {
    match run.stage {
        Stage::Accepting | Stage::Registering(_) => {
            &&& distinct_events(run.events, run.at + 1)
            &&& events_are_new(run.events, run.at + 1, run.queue)
            &&& queue_is_known(connections, run.queue, 0)
        },
        Stage::Polling | Stage::Deregistering => queue_is_known(
            connections,
            run.queue,
            run.at,
        ),
        _ => true,
    }
}

proof fn noted_is_known(
    connections: Map<usize, Option<Readiness>>,
    events: Seq<(usize, Readiness)>,
    at: int,
    queue: Seq<usize>,
)
    requires
        0 <= at <= events.len(),
        distinct_events(events, at),
        events_are_new(events, at, queue),
        queue_is_known(connections, queue, 0),
    ensures
        ({
            let (known, end, noted_queue) = noted(connections, events, at, queue);
            &&& distinct_events(events, end)
            &&& events_are_new(events, end, noted_queue)
            &&& queue_is_known(known, noted_queue, 0)
        }),
    decreases events.len() - at,
{
    if at >= events.len() || events[at].0 == SERVER {
    } else if connections.contains_key(events[at].0) {
        let next = queue.push(events[at].0);
        let known = connections.insert(events[at].0, Some(events[at].1));
        assert forall|i: int, j: int|
            at + 1 <= i < events.len() && 0 <= j < next.len() implies (#[trigger] events[i]).0
            != #[trigger] next[j] by {
            if j < queue.len() {
                assert(next[j] == queue[j]);
            } else {
                assert(next[j] == events[at].0);
            }
        }
        assert forall|i: int, j: int|
            0 <= i < next.len() && 0 <= j < next.len() && i != j implies next[i] != next[j] by {
            if i == queue.len() {
                assert(next[j] == queue[j]);
            } else if j == queue.len() {
                assert(next[i] == queue[i]);
            }
        }
        assert forall|i: int| 0 <= i < next.len() implies known.contains_key(
            #[trigger] next[i],
        ) by {
            if i < queue.len() {
                assert(next[i] == queue[i]);
            }
        }
        noted_is_known(known, events, at + 1, next);
    } else {
        noted_is_known(connections, events, at + 1, queue);
    }
}

/// Every connection that a server polls, or ends, is one that it knows, as long as no
/// two events of a round are of one connection.
pub proof fn polled_connections_are_known<E>(
    run: RunView,
    server: (usize, Map<usize, Option<Readiness>>),
    event: LoopEvent<E>,
)
    requires
        fits(run, event),
        run_is_known(run, server.1),
        event matches LoopEvent::Asked(Attempt::Done(events)) ==> distinct_events(events@, 0),
    ensures
        run_is_known(stepped(run, server, event).0, (stepped(run, server, event).1).1),
        match stepped(run, server, event).2 {
            LoopAction::Poll(token) => (stepped(run, server, event).1).1.contains_key(token),
            LoopAction::Deregister(token) => (stepped(run, server, event).1).1.contains_key(token),
            _ => true,
        },
{
    match event {
        LoopEvent::Asked(Attempt::Done(events)) => {
            noted_bounds(server.1, events@, 0, Seq::empty());
            noted_is_known(server.1, events@, 0, Seq::empty());
        },
        LoopEvent::Accepted(Attempt::WouldBlock(_)) => {
            noted_bounds(server.1, run.events, run.at + 1, run.queue);
            noted_is_known(server.1, run.events, run.at + 1, run.queue);
        },
        _ => {},
    }
}

/// Tokens are counted up from the last one, and after the largest one from one on.
pub proof fn tokens_count_up(token: usize)
    ensures
        token < usize::MAX ==> next_token(token) == token + 1,
        token == usize::MAX ==> next_token(token) == 1,
{
}

/// A connection can be read from, or written to, exactly where it is known and its last
/// event says so.
pub proof fn gates_follow_the_last_event(
    connections: Map<usize, Option<Readiness>>,
    token: usize,
)
    ensures
        read_gate(connections, token) is NotFound <==> !connections.dom().contains(token),
        write_gate(connections, token) is NotFound <==> !connections.dom().contains(token),
        connections.dom().contains(token) ==> (read_gate(connections, token) is Proceed
            <==> connections[token] is Some && connections[token]->Some_0.readable),
        connections.dom().contains(token) ==> (write_gate(connections, token) is Proceed
            <==> connections[token] is Some && connections[token]->Some_0.writable),
{
}

/// All events up to the next one of the listener are noted. The connections that are
/// known stay known, and those of them with an event are queued in the order of events.
pub proof fn events_are_queued_in_order(
    connections: Map<usize, Option<Readiness>>,
    events: Seq<(usize, Readiness)>,
    at: int,
    queue: Seq<usize>,
)
    requires
        0 <= at <= events.len(),
    ensures
        ({
            let (known, end, noted_queue) = noted(connections, events, at, queue);
            &&& at <= end <= events.len()
            &&& end < events.len() ==> events[end].0 == SERVER
            &&& forall|i: int| at <= i < end ==> (#[trigger] events[i]).0 != SERVER
            &&& known.dom() == connections.dom()
            &&& noted_queue == queue + events.subrange(at, end).filter(
                |e: (usize, Readiness)| connections.dom().contains(e.0),
            ).map_values(|e: (usize, Readiness)| e.0)
        }),
    decreases events.len() - at,
{
    reveal(Seq::filter);
    let is_known = |e: (usize, Readiness)| connections.dom().contains(e.0);
    let token = |e: (usize, Readiness)| e.0;
    let (known, end, noted_queue) = noted(connections, events, at, queue);
    if at >= events.len() || events[at].0 == SERVER {
        assert(events.subrange(at, end) =~= Seq::<(usize, Readiness)>::empty());
        assert(noted_queue =~= queue + events.subrange(at, end).filter(is_known).map_values(token));
    } else {
        let e = events[at];
        let one = seq![e];
        let (next, next_queue) = if connections.contains_key(e.0) {
            (connections.insert(e.0, Some(e.1)), queue.push(e.0))
        } else {
            (connections, queue)
        };
        assert(next.dom() =~= connections.dom());
        events_are_queued_in_order(next, events, at + 1, next_queue);
        let rest = events.subrange(at + 1, end);
        assert(events.subrange(at, end) =~= one + rest);
        Seq::filter_distributes_over_add(one, rest, is_known);
        assert(one.drop_last() =~= Seq::<(usize, Readiness)>::empty());
        assert(one.drop_last().filter(is_known) =~= Seq::<(usize, Readiness)>::empty());
        assert(one.filter(is_known) =~= (if is_known(e) {
            one
        } else {
            Seq::empty()
        }));
        assert(noted_queue =~= queue + events.subrange(at, end).filter(is_known).map_values(token));
    }
}

/// A known connection has its last event after the events were noted, or the one that it
/// had where none was for it.
pub proof fn last_event_is_noted(
    connections: Map<usize, Option<Readiness>>,
    events: Seq<(usize, Readiness)>,
    at: int,
    queue: Seq<usize>,
    token: usize,
)
    requires
        0 <= at <= events.len(),
        connections.dom().contains(token),
    ensures
        ({
            let (known, end, _) = noted(connections, events, at, queue);
            &&& (forall|i: int| at <= i < end ==> (#[trigger] events[i]).0 != token)
                ==> known[token] == connections[token]
            &&& forall|i: int|
                #![trigger events[i]]
                at <= i < end && events[i].0 == token && (forall|j: int|
                    i < j < end ==> (#[trigger] events[j]).0 != token) ==> known[token] == Some(
                    events[i].1,
                )
        }),
    decreases events.len() - at,
{
    if at >= events.len() || events[at].0 == SERVER {
    } else {
        let e = events[at];
        let (next, next_queue) = if connections.contains_key(e.0) {
            (connections.insert(e.0, Some(e.1)), queue.push(e.0))
        } else {
            (connections, queue)
        };
        events_are_queued_in_order(next, events, at + 1, next_queue);
        last_event_is_noted(next, events, at + 1, next_queue, token);
    }
}

/// After the events the queue is polled in order, each connection once. Then the next
/// round begins, or after the last round the server waits.
pub proof fn queue_is_polled_in_order<E>(run: RunView)
    requires
        0 <= run.at <= run.queue.len(),
        1 <= run.rounds,
    ensures
        ({
            let (next, action) = next_poll::<E>(run);
            &&& next.queue == run.queue && next.at == run.at && next.events == run.events
            &&& run.at < run.queue.len() ==> action == LoopAction::<E>::Poll(run.queue[run.at])
                && next.stage == Stage::Polling && next.rounds == run.rounds
            &&& run.at == run.queue.len() && run.rounds > 1 ==> action == LoopAction::<E>::Ask
                && next.stage == Stage::Asking && next.rounds == run.rounds - 1
            &&& run.at == run.queue.len() && run.rounds == 1 ==> action == LoopAction::<E>::Wait
                && next.stage == Stage::Over
        }),
{
}

/// The events of a round are noted before any connection is polled: the server accepts
/// where one is of the listener, and turns to the beginning of the queue behind the last.
pub proof fn events_come_before_polls<E>(
    run: RunView,
    connections: Map<usize, Option<Readiness>>,
)
    requires
        0 <= run.at <= run.events.len(),
        1 <= run.rounds,
    ensures
        ({
            let (next, known, action) = next_event::<E>(run, connections);
            let listener = exists|i: int|
                run.at <= i < run.events.len() && (#[trigger] run.events[i]).0 == SERVER;
            &&& known.dom() == connections.dom()
            &&& listener <==> action is Accept
            &&& listener ==> run.at <= next.at < run.events.len() && run.events[next.at].0
                == SERVER && next.stage == Stage::Accepting
            &&& !listener ==> next.at == 0 && next.queue == run.queue + run.events.skip(
                run.at,
            ).filter(|e: (usize, Readiness)| connections.dom().contains(e.0)).map_values(
                |e: (usize, Readiness)| e.0,
            )
            &&& !listener && next.queue.len() > 0 ==> action == LoopAction::<E>::Poll(next.queue[0])
        }),
{
    events_are_queued_in_order(connections, run.events, run.at, run.queue);
    let (known, end, queue) = noted(connections, run.events, run.at, run.queue);
    if end < run.events.len() {
        assert(run.events[end].0 == SERVER);
    } else {
        assert(run.events.subrange(run.at, end) =~= run.events.skip(run.at));
    }
}

/// An accepted connection is registered under a token of its own and known from then on,
/// a connection that is done is deregistered and forgotten, and no other connection is
/// touched. The server ends with the error of what failed, and with no other.
pub proof fn connections_come_and_go<E>(
    run: RunView,
    server: (usize, Map<usize, Option<Readiness>>),
    event: LoopEvent<E>,
)
    requires
        fits(run, event),
    ensures
        ({
            let (next, (token, known), action) = stepped(run, server, event);
            &&& event matches LoopEvent::Accepted(Attempt::Done(_)) ==> action
                == LoopAction::<E>::Register(token) && next.stage == Stage::Registering(token)
                && token != SERVER && token != server.0 && known == server.1
            &&& !(event matches LoopEvent::Accepted(Attempt::Done(_))) ==> token == server.0
            &&& event matches LoopEvent::Registered(Ok(_)) ==> action == LoopAction::<E>::Accept
                && (run.stage matches Stage::Registering(new) ==> known == server.1.insert(
                new,
                None,
            )) && next.at == run.at && next.queue == run.queue && next.events == run.events
            &&& event == LoopEvent::<E>::Polled(true) ==> action == LoopAction::<E>::Deregister(
                run.queue[run.at],
            ) && known == server.1
            &&& event == LoopEvent::<E>::Polled(false) ==> known == server.1 && next.at == run.at
                + 1
            &&& event matches LoopEvent::Deregistered(Ok(_)) ==> known == server.1.remove(
                run.queue[run.at],
            ) && next.at == run.at + 1
            &&& event is Polled || event is Deregistered ==> next.queue == run.queue
            &&& action matches LoopAction::Fail(err) ==> known == server.1 && next.stage
                == Stage::Over && (event == LoopEvent::<E>::Asked(Attempt::WouldBlock(err))
                || event == LoopEvent::<E>::Asked(Attempt::Failed(err)) || event == LoopEvent::<
                E,
            >::Accepted(Attempt::Interrupted(err)) || event == LoopEvent::<E>::Accepted(
                Attempt::Failed(err),
            ) || event == LoopEvent::<E>::Registered(Err(err)) || event == LoopEvent::<
                E,
            >::Deregistered(Err(err)))
            &&& event matches LoopEvent::Asked(Attempt::WouldBlock(err)) ==> action
                == LoopAction::Fail(err)
            &&& event matches LoopEvent::Asked(Attempt::Failed(err)) ==> action
                == LoopAction::Fail(err)
            &&& event matches LoopEvent::Accepted(Attempt::Interrupted(err)) ==> action
                == LoopAction::Fail(err)
            &&& event matches LoopEvent::Accepted(Attempt::Failed(err)) ==> action
                == LoopAction::Fail(err)
            &&& event matches LoopEvent::Registered(Err(err)) ==> action == LoopAction::Fail(err)
            &&& event matches LoopEvent::Deregistered(Err(err)) ==> action == LoopAction::Fail(
                err,
            )
        }),
{
}

/// The events that are asked for are taken from the first one on, with an empty queue.
/// Where asking was interrupted there are none. Where no connection is waiting any more,
/// the events behind that of the listener are taken.
pub proof fn rounds_take_all_events<E>(
    run: RunView,
    server: (usize, Map<usize, Option<Readiness>>),
    event: LoopEvent<E>,
)
    requires
        fits(run, event),
    ensures
        event matches LoopEvent::Asked(Attempt::Done(events)) ==> ({
            let fresh = RunView { events: events@, queue: Seq::empty(), at: 0, ..run };
            let (next, known, action) = next_event::<E>(fresh, server.1);
            stepped(run, server, event) == (next, (server.0, known), action)
        }),
        event matches LoopEvent::Asked(Attempt::Interrupted(_)) ==> ({
            let (next, known, action) = stepped(run, server, event);
            &&& known == server
            &&& next.queue.len() == 0
            &&& run.rounds > 1 ==> action == LoopAction::<E>::Ask && next.rounds == run.rounds - 1
            &&& run.rounds == 1 ==> action == LoopAction::<E>::Wait
        }),
        event matches LoopEvent::Accepted(Attempt::WouldBlock(_)) ==> ({
            let (next, known, action) = next_event::<E>(RunView { at: run.at + 1, ..run }, server.1);
            stepped(run, server, event) == (next, (server.0, known), action)
        }),
{
}

}
