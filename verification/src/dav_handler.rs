//! The request server: a listener that accepts connections without bound,
//! and per connection a read, admit, handle, respond cycle in which only the
//! handling is gated by the admission controller.

use crate::admission::{
    abandon_spec, acquire_spec, gate_wf, release_spec, successor, AdmissionController,
    AdmissionTicket, Gate,
};
use crate::admission_laws::lemma_abandon_members;
use dav_server::fakels::FakeLs;
use dav_server::localfs::LocalFs;
use dav_server::DavHandler;
use vstd::prelude::*;

verus! {

/// `String::push` of the standard library appends the character to the end
/// of the string and changes nothing else.
pub assume_specification[ String::push ](s: &mut String, ch: char)
    ensures
        final(s)@ == old(s)@.push(ch),
;

/// The protocol handler of `dav_server`. Nothing is known of what it holds.
#[verifier::external_type_specification]
#[verifier::external_body]
#[verifier::reject_recursive_types(C)]
pub struct ExDavHandler<C>(dav_server::DavHandler<C>);

/// The protocol handler that `dav_server` builds for the volume at a path:
/// over a local file system rooted there that is not public, is case
/// sensitive and makes no allowance for one client's habits, with a lock
/// system that grants every lock, and with every other setting at its
/// default. It depends on the path and on nothing else.
pub uninterp spec fn volume_handler_of(root: Seq<char>) -> DavHandler;

/// Builds the protocol handler of `dav_server` for the volume at `root`,
/// with `DavHandler::builder` and `build_handler`: over `LocalFs::new`, a
/// local file system that is not public, is case sensitive and makes no
/// allowance for one client's habits, and with `FakeLs::new`, a lock system
/// that grants every lock. Building keeps the path and touches nothing on
/// the volume. What comes back is made of the path alone, and is named
/// after it.
#[verifier::external_body]
fn volume_handler(root: &str) -> (handler: DavHandler)
    ensures
        handler == volume_handler_of(root@),
{
    DavHandler::builder()
        .filesystem(LocalFs::new(root, false, false, false))
        .locksystem(FakeLs::new())
        .build_handler()
}

/// What the listener is doing.
#[derive(Clone, Copy, Debug, PartialEq, Eq, Structural)]
pub enum Listener {
    /// The endpoint is not bound yet.
    Unbound,
    /// The endpoint is bound and connections are accepted.
    Listening,
    /// Binding or accepting failed: the listener is done for good.
    Stopped,
}

/// Where a live connection stands in its cycle.
#[derive(Clone, Copy, Debug, PartialEq, Eq, Structural)]
pub enum Phase {
    /// Between requests: a response is being written or a request awaited.
    Reading,
    /// A request is read and waits for an admission ticket.
    Waiting,
    /// A ticket is held and the request is with the protocol handler.
    Handling,
}

/// What the transport or the protocol handler reported for a connection.
#[derive(Clone, Copy, Debug, PartialEq, Eq, Structural)]
pub enum ConnEvent {
    /// A whole request was read from the connection.
    RequestRead,
    /// The protocol handler returned the response.
    HandlerDone,
    /// The peer closed the connection.
    PeerClosed,
    /// Reading or writing failed.
    TransportError,
}

/// What to do with the connection an event was reported for.
#[derive(Clone, Copy, Debug, PartialEq, Eq, Structural)]
pub enum Directive {
    /// Hand the request to the protocol handler: a ticket is held.
    Forward,
    /// Hold the request back until a ticket is handed over.
    Park,
    /// Write the response, then read the next request: the ticket is back.
    Respond,
    /// End this connection's work; nothing of it is left in the server.
    Close,
    /// The event does not fit the connection: nothing was changed.
    Ignore,
}

/// The answer to an event: what to do with the connection it came from, and
/// the parked connection, if any, whose request may now be forwarded.
#[derive(Clone, Copy, Debug, PartialEq, Eq, Structural)]
pub struct Outcome {
    pub directive: Directive,
    pub admitted: Option<u64>,
}

#[derive(Clone, Copy, Debug, PartialEq, Eq, Structural)]
pub enum ServerError {
    /// The endpoint could not be bound; carries the transport's code.
    BindFailed(i32),
    /// Accepting failed; carries the transport's code.
    AcceptFailed(i32),
    /// The listener is not in the stage the call needs.
    NotListening,
}

/// The server as a mathematical value. A connection is known by the number
/// of its slot in the table of connections; a slot is taken while its
/// connection is live.
pub struct Server {
    pub root: Seq<char>,
    pub handler: DavHandler,
    pub port: u32,
    pub listener: Listener,
    pub gate: Gate,
    pub slots: Seq<bool>,
}

/// The slot of the connection exists and is taken.
pub open spec fn taken(slots: Seq<bool>, conn: u64) -> bool {
    conn < slots.len() && slots[conn as int]
}

/// The connection is accepted and has not ended.
pub open spec fn is_live(s: Server, conn: u64) -> bool {
    taken(s.slots, conn)
}

/// The connections whose slots are taken.
pub open spec fn live_of(slots: Seq<bool>) -> Set<u64> {
    Set::new(|c: u64| taken(slots, c))
}

/// Whoever holds a ticket or waits for one has a taken slot.
pub open spec fn members_taken(g: Gate, slots: Seq<bool>) -> bool {
    &&& forall|c: u64| #[trigger] g.holders.contains(c) ==> taken(slots, c)
    &&& forall|i: int| 0 <= i < g.waiters.len() ==> taken(slots, #[trigger] g.waiters[i])
}

/// What holds of every server a `RequestServer` can be in: the admission
/// controller is well formed, only live connections hold a ticket or wait
/// for one, and the protocol handler is the one built for the root.
pub open spec fn server_wf(s: Server) -> bool {
    &&& gate_wf(s.gate)
    &&& members_taken(s.gate, s.slots)
    &&& s.handler == volume_handler_of(s.root)
}

/// The phase of a connection, if it is live. A connection is handled exactly
/// while it holds a ticket.
pub open spec fn phase_of(s: Server, conn: u64) -> Option<Phase> {
    if !is_live(s, conn) {
        None
    } else if s.gate.holders.contains(conn) {
        Some(Phase::Handling)
    } else if s.gate.waiters.contains(conn) {
        Some(Phase::Waiting)
    } else {
        Some(Phase::Reading)
    }
}

/// The event ends the connection.
pub open spec fn closes(event: ConnEvent) -> bool {
    event == ConnEvent::PeerClosed || event == ConnEvent::TransportError
}

/// The server after an event on a connection. A request is taken only
/// between requests, a response only from a connection that is handled; the
/// end of a connection is taken in every phase, frees its slot and returns
/// what it held.
pub open spec fn react(s: Server, conn: u64, event: ConnEvent) -> Server {
    match phase_of(s, conn) {
        None => s,
        Some(phase) => {
            if closes(event) {
                Server {
                    gate: abandon_spec(s.gate, conn),
                    slots: s.slots.update(conn as int, false),
                    ..s
                }
            } else if event == ConnEvent::RequestRead && phase == Phase::Reading {
                Server { gate: acquire_spec(s.gate, conn), ..s }
            } else if event == ConnEvent::HandlerDone && phase == Phase::Handling {
                Server { gate: release_spec(s.gate, conn), ..s }
            } else {
                s
            }
        },
    }
}

/// What the server asks for in answer to an event.
pub open spec fn directive_for(s: Server, conn: u64, event: ConnEvent) -> Directive {
    match phase_of(s, conn) {
        None => Directive::Ignore,
        Some(phase) => {
            if closes(event) {
                Directive::Close
            } else if event == ConnEvent::RequestRead && phase == Phase::Reading {
                if s.gate.holders.len() < s.gate.limit {
                    Directive::Forward
                } else {
                    Directive::Park
                }
            } else if event == ConnEvent::HandlerDone && phase == Phase::Handling {
                Directive::Respond
            } else {
                Directive::Ignore
            }
        },
    }
}

/// The parked connection an event hands a ticket to.
pub open spec fn admitted_by(s: Server, conn: u64, event: ConnEvent) -> Option<u64> {
    if is_live(s, conn) && event != ConnEvent::RequestRead {
        successor(s.gate, conn)
    } else {
        None
    }
}

/// The first slot that is free, or the length of the table if none is.
pub open spec fn first_free(slots: Seq<bool>) -> nat
    decreases slots.len(),
{
    if slots.len() == 0 || !slots[0] {
        0
    } else {
        1 + first_free(slots.drop_first())
    }
}

/// The table with slot `i` taken: an existing slot is marked, a slot past
/// the end is added.
pub open spec fn occupy(slots: Seq<bool>, i: nat) -> Seq<bool> {
    if i < slots.len() {
        slots.update(i as int, true)
    } else {
        slots.push(true)
    }
}

/// What accepting returns: the new connection's identifier, which is the
/// first free slot, or why there is none.
pub open spec fn accept_result(s: Server, incoming: Result<(), i32>) -> Result<u64, ServerError> {
    if s.listener != Listener::Listening {
        Err(ServerError::NotListening)
    } else {
        match incoming {
            Err(code) => Err(ServerError::AcceptFailed(code)),
            Ok(_) => Ok(first_free(s.slots) as u64),
        }
    }
}

/// The server after accepting was reported.
pub open spec fn accept_spec(s: Server, incoming: Result<(), i32>) -> Server {
    if s.listener != Listener::Listening {
        s
    } else {
        match incoming {
            Err(_) => Server { listener: Listener::Stopped, ..s },
            Ok(_) => Server { slots: occupy(s.slots, first_free(s.slots)), ..s },
        }
    }
}

/// The decimal digit `d` as a character.
pub open spec fn digit(d: int) -> char {
    if d == 0 {
        '0'
    } else if d == 1 {
        '1'
    } else if d == 2 {
        '2'
    } else if d == 3 {
        '3'
    } else if d == 4 {
        '4'
    } else if d == 5 {
        '5'
    } else if d == 6 {
        '6'
    } else if d == 7 {
        '7'
    } else if d == 8 {
        '8'
    } else {
        '9'
    }
}

/// The decimal numeral of `n`, without leading zeros.
pub open spec fn decimal(n: nat) -> Seq<char>
    decreases n,
{
    if n < 10 {
        seq![digit(n as int)]
    } else {
        decimal(n / 10).push(digit((n % 10) as int))
    }
}

/// The address the listener binds: every interface, at the given port.
pub open spec fn bind_address_of(port: u32) -> Seq<char> {
    seq!['0', '.', '0', '.', '0', '.', '0', ':'] + decimal(port as nat)
}

fn digit_char(d: u32) -> (c: char)
    requires
        d < 10,
    ensures
        c == digit(d as int),
{
    if d == 0 {
        '0'
    } else if d == 1 {
        '1'
    } else if d == 2 {
        '2'
    } else if d == 3 {
        '3'
    } else if d == 4 {
        '4'
    } else if d == 5 {
        '5'
    } else if d == 6 {
        '6'
    } else if d == 7 {
        '7'
    } else if d == 8 {
        '8'
    } else {
        '9'
    }
}

/// Appends the decimal numeral of `n` to `out`.
fn push_decimal(out: &mut String, n: u32)
    ensures
        final(out)@ == old(out)@ + decimal(n as nat),
    decreases n,
{
    if n >= 10 {
        push_decimal(out, n / 10);
    }
    out.push(digit_char(n % 10));
    proof {
        if n >= 10 {
            assert(out@ =~= old(out)@ + decimal(n as nat));
        } else {
            assert(out@ =~= old(out)@ + decimal(n as nat));
        }
    }
}

/// The address to bind for a port: `0.0.0.0:` and the port in decimal.
pub fn bind_address(port: u32) -> (addr: String)
    ensures
        addr@ == bind_address_of(port),
{
    let mut addr = String::new();
    addr.push('0');
    addr.push('.');
    addr.push('0');
    addr.push('.');
    addr.push('0');
    addr.push('.');
    addr.push('0');
    addr.push(':');
    assert(addr@ =~= seq!['0', '.', '0', '.', '0', '.', '0', ':']);
    push_decimal(&mut addr, port);
    addr
}

/// The first free slot is the one that all taken slots precede.
proof fn lemma_first_free(slots: Seq<bool>, i: int)
    requires
        0 <= i <= slots.len(),
        forall|j: int| 0 <= j < i ==> slots[j],
        i == slots.len() || !slots[i],
    ensures
        first_free(slots) == i,
    decreases i,
{
    if i > 0 {
        let rest = slots.drop_first();
        assert(slots[0]);
        assert forall|j: int| 0 <= j < i - 1 implies rest[j] by {
            assert(slots[j + 1]);
        }
        lemma_first_free(rest, i - 1);
    }
}

/// A table has finitely many live connections, no more than it has slots.
proof fn lemma_live_count(slots: Seq<bool>)
    requires
        slots.len() <= usize::MAX,
    ensures
        live_of(slots).finite(),
        live_of(slots).len() <= slots.len(),
    decreases slots.len(),
{
    if slots.len() == 0 {
        assert(live_of(slots) =~= Set::<u64>::empty());
    } else {
        let pre = slots.drop_last();
        lemma_live_count(pre);
        let last = pre.len() as u64;
        if slots.last() {
            assert(live_of(slots) =~= live_of(pre).insert(last));
        } else {
            assert(live_of(slots) =~= live_of(pre));
        }
    }
}

/// Taking a free slot, or adding a taken one at the end, adds its
/// connection to the live ones.
proof fn lemma_occupy(slots: Seq<bool>, i: nat)
    requires
        i <= slots.len(),
        i < slots.len() ==> !slots[i as int],
        occupy(slots, i).len() <= usize::MAX,
    ensures
        live_of(occupy(slots, i)) == live_of(slots).insert(i as u64),
        !live_of(slots).contains(i as u64),
{
    assert(live_of(occupy(slots, i)) =~= live_of(slots).insert(i as u64));
}

/// Freeing a taken slot removes its connection from the live ones.
proof fn lemma_vacate(slots: Seq<bool>, i: nat)
    requires
        i < slots.len(),
        slots.len() <= usize::MAX,
        slots[i as int],
    ensures
        live_of(slots.update(i as int, false)) == live_of(slots).remove(i as u64),
        live_of(slots).contains(i as u64),
{
    assert(live_of(slots.update(i as int, false)) =~= live_of(slots).remove(i as u64));
}

/// After a caller gave up what it held, whoever holds or waits did so
/// before: their slots are taken, and none of them is that caller.
proof fn lemma_members_stay_taken(before: Gate, slots: Seq<bool>, conn: u64)
    requires
        gate_wf(before),
        members_taken(before, slots),
        taken(slots, conn),
    ensures
        members_taken(abandon_spec(before, conn), slots),
        members_taken(abandon_spec(before, conn), slots.update(conn as int, false)),
{
    let after = abandon_spec(before, conn);
    lemma_abandon_members(before, conn);
    assert forall|c: u64| after.holders.contains(c) implies taken(slots, c) && c != conn by {
        if before.waiters.contains(c) {
            let j = choose|j: int| 0 <= j < before.waiters.len() && before.waiters[j] == c;
            assert(taken(slots, before.waiters[j]));
        }
    }
    assert forall|i: int| 0 <= i < after.waiters.len() implies taken(
        slots,
        #[trigger] after.waiters[i],
    ) && after.waiters[i] != conn by {
        let c = after.waiters[i];
        let k = choose|k: int| 0 <= k < before.waiters.len() && before.waiters[k] == c;
        assert(taken(slots, before.waiters[k]));
    }
    let freed = slots.update(conn as int, false);
    assert forall|c: u64| after.holders.contains(c) implies taken(freed, c) by {
        assert(taken(slots, c) && c != conn);
    }
    assert forall|i: int| 0 <= i < after.waiters.len() implies taken(
        freed,
        #[trigger] after.waiters[i],
    ) by {
        assert(taken(slots, after.waiters[i]) && after.waiters[i] != conn);
    }
}

/// The request server.
pub struct RequestServer {
    root: String,
    handler: DavHandler,
    port: u32,
    listener: Listener,
    gate: AdmissionController,
    slots: Vec<bool>,
    live: usize,
}

impl View for RequestServer {
    type V = Server;

    closed spec fn view(&self) -> Server {
        Server {
            root: self.root@,
            handler: self.handler,
            port: self.port,
            listener: self.listener,
            gate: self.gate@,
            slots: self.slots@,
        }
    }
}

/// A server for the volume mounted at `srv_root`, to listen at `port`, that
/// lets at most `limit` requests be with the protocol handler at once.
/// Nothing is bound yet and no connection is live.
pub fn hyper_server(srv_root: &str, port: u32, limit: usize) -> (server: RequestServer)
    ensures
        server.wf(),
        server@ == (Server {
            root: srv_root@,
            handler: volume_handler_of(srv_root@),
            port,
            listener: Listener::Unbound,
            gate: Gate { limit: limit as nat, holders: Set::empty(), waiters: Seq::empty() },
            slots: Seq::empty(),
        }),
        server_wf(server@),
{
    let server = RequestServer {
        root: srv_root.to_owned(),
        handler: volume_handler(srv_root),
        port,
        listener: Listener::Unbound,
        gate: AdmissionController::new(limit),
        slots: Vec::new(),
        live: 0,
    };
    proof {
        assert(live_of(server.slots@) =~= Set::<u64>::empty());
    }
    server
}

impl RequestServer {
    /// The representation is sound. `hyper_server` establishes this and
    /// every method keeps it.
    pub closed spec fn wf(&self) -> bool {
        &&& self.gate.wf()
        &&& self.handler == volume_handler_of(self.root@)
        &&& self.slots@.len() <= usize::MAX
        &&& self.live == live_of(self.slots@).len()
        &&& members_taken(self.gate@, self.slots@)
    }

    /// A sound representation stands for a well-formed server.
    pub proof fn lemma_wf(&self)
        requires
            self.wf(),
        ensures
            server_wf(self@),
    {
        self.gate.lemma_wf();
    }

    /// The path of the mounted volume the server answers from.
    pub fn root(&self) -> (root: &str)
        ensures
            root@ == self@.root,
    {
        self.root.as_str()
    }

    /// The protocol handler that answers requests from the mounted volume:
    /// the one the server was made with, built for its root.
    pub fn handler(&self) -> (handler: &DavHandler)
        ensures
            *handler == self@.handler,
    {
        &self.handler
    }

    pub fn port(&self) -> (port: u32)
        ensures
            port == self@.port,
    {
        self.port
    }

    /// The address to bind: every interface, at the server's port.
    pub fn bind_address(&self) -> (addr: String)
        ensures
            addr@ == bind_address_of(self@.port),
    {
        bind_address(self.port)
    }

    pub fn listener(&self) -> (listener: Listener)
        ensures
            listener == self@.listener,
    {
        self.listener
    }

    /// The number of live connections.
    pub fn connections(&self) -> (n: usize)
        requires
            self.wf(),
        ensures
            n == live_of(self@.slots).len(),
    {
        self.live
    }

    /// The number of requests with the protocol handler.
    pub fn in_flight(&self) -> (n: usize)
        requires
            self.wf(),
        ensures
            n == self@.gate.holders.len(),
            n <= self@.gate.limit,
    {
        self.gate.outstanding()
    }

    /// The number of requests the protocol handler could take right now.
    pub fn capacity(&self) -> (n: usize)
        requires
            self.wf(),
        ensures
            n == crate::admission::available(self@.gate),
    {
        self.gate.available()
    }

    /// The number of requests parked for want of a ticket.
    pub fn parked(&self) -> (n: usize)
        ensures
            n == self@.gate.waiters.len(),
    {
        self.gate.waiting()
    }

    /// Whether the connection's slot is taken.
    fn slot_taken(&self, conn: u64) -> (taken: bool)
        ensures
            taken == is_live(self@, conn),
    {
        let n = self.slots.len();
        if conn < n as u64 {
            self.slots[conn as usize]
        } else {
            false
        }
    }

    /// The phase of a connection, or `None` if it is not live.
    pub fn phase(&self, conn: u64) -> (phase: Option<Phase>)
        ensures
            phase == phase_of(self@, conn),
    {
        if !self.slot_taken(conn) {
            None
        } else if self.gate.holds(conn) {
            Some(Phase::Handling)
        } else if self.gate.is_waiting(conn) {
            Some(Phase::Waiting)
        } else {
            Some(Phase::Reading)
        }
    }

    /// Records the transport's answer to binding the endpoint: `Ok` when it
    /// is bound, `Err` with the transport's code when it is not. A failure is
    /// final. Only an unbound listener can be bound.
    pub fn bound(&mut self, bind: Result<(), i32>) -> (res: Result<(), ServerError>)
        requires
            old(self).wf(),
        ensures
            final(self).wf(),
            old(self)@.listener != Listener::Unbound ==> res == Err::<(), ServerError>(
                ServerError::NotListening,
            ) && final(self)@ == old(self)@,
            old(self)@.listener == Listener::Unbound ==> match bind {
                Ok(_) => res == Ok::<(), ServerError>(()) && final(self)@ == (Server {
                    listener: Listener::Listening,
                    ..old(self)@
                }),
                Err(code) => res == Err::<(), ServerError>(ServerError::BindFailed(code))
                    && final(self)@ == (Server { listener: Listener::Stopped, ..old(self)@ }),
            },
    {
        match self.listener {
            Listener::Unbound => match bind {
                Ok(_) => {
                    self.listener = Listener::Listening;
                    Ok(())
                },
                Err(code) => {
                    self.listener = Listener::Stopped;
                    Err(ServerError::BindFailed(code))
                },
            },
            _ => Err(ServerError::NotListening),
        }
    }

    /// Records the transport's answer to accepting: `Ok` for a new
    /// connection, `Err` with the transport's code when accepting failed,
    /// which stops the listener for good. A new connection is taken in
    /// whatever the load: it gets the first free slot and starts between
    /// requests. No connection already live is touched.
    pub fn accept(&mut self, incoming: Result<(), i32>) -> (res: Result<u64, ServerError>)
        requires
            old(self).wf(),
        ensures
            final(self).wf(),
            server_wf(final(self)@),
            res == accept_result(old(self)@, incoming),
            final(self)@ == accept_spec(old(self)@, incoming),
    {
        proof {
            self.lemma_wf();
        }
        match self.listener {
            Listener::Listening => match incoming {
                Ok(_) => {
                    let n = self.slots.len();
                    let mut i: usize = 0;
                    while i < n && self.slots[i]
                        invariant
                            i <= n,
                            n == self.slots@.len(),
                            forall|j: int| 0 <= j < i ==> self.slots@[j],
                        decreases n - i,
                    {
                        i = i + 1;
                    }
                    proof {
                        lemma_first_free(self.slots@, i as int);
                    }
                    if i < n {
                        self.slots.set(i, true);
                    } else {
                        self.slots.push(true);
                    }
                    let slots = self.slots.len();
                    proof {
                        assert(self.slots@ =~= occupy(old(self).slots@, i as nat));
                        lemma_occupy(old(self).slots@, i as nat);
                        lemma_live_count(old(self).slots@);
                        lemma_live_count(self.slots@);
                        assert(slots <= usize::MAX);
                    }
                    self.live = self.live + 1;
                    proof {
                        assert forall|c: u64| taken(old(self).slots@, c) implies taken(
                            self.slots@,
                            c,
                        ) by {}
                        assert forall|c: u64| self.gate@.holders.contains(c) implies taken(
                            self.slots@,
                            c,
                        ) by {
                            assert(taken(old(self).slots@, c));
                        }
                        assert forall|j: int|
                            0 <= j < self.gate@.waiters.len() implies taken(
                            self.slots@,
                            #[trigger] self.gate@.waiters[j],
                        ) by {
                            assert(taken(old(self).slots@, self.gate@.waiters[j]));
                        }
                        assert(self.live == live_of(self.slots@).len());
                        self.lemma_wf();
                    }
                    Ok(i as u64)
                },
                Err(code) => {
                    self.listener = Listener::Stopped;
                    proof {
                        self.lemma_wf();
                    }
                    Err(ServerError::AcceptFailed(code))
                },
            },
            _ => Err(ServerError::NotListening),
        }
    }

    /// Applies one event reported for a connection and says what to do next.
    ///
    /// A request read between requests asks for a ticket: it is forwarded if
    /// one is free and parked otherwise. A response from the handler gives
    /// the ticket back before anything is written. The end of a connection,
    /// by the peer or by a transport error, is taken in every phase: the
    /// connection leaves the server and whatever it held, ticket or place in
    /// the queue, goes back. In both cases the first parked connection, if
    /// there is one, takes the ticket over and is named in the outcome. Any
    /// other event, and any event for a connection that is not live, changes
    /// nothing. The listener and all other connections stay as they are.
    pub fn on_event(&mut self, conn: u64, event: ConnEvent) -> (out: Outcome)
        requires
            old(self).wf(),
        ensures
            final(self).wf(),
            server_wf(final(self)@),
            final(self)@ == react(old(self)@, conn, event),
            out.directive == directive_for(old(self)@, conn, event),
            out.admitted == admitted_by(old(self)@, conn, event),
    {
        proof {
            self.lemma_wf();
            self.gate.lemma_wf();
        }
        let out = if !self.slot_taken(conn) {
            Outcome { directive: Directive::Ignore, admitted: None }
        } else {
            let holding = self.gate.holds(conn);
            let waiting = self.gate.is_waiting(conn);
            match event {
                ConnEvent::RequestRead => {
                    if holding || waiting {
                        Outcome { directive: Directive::Ignore, admitted: None }
                    } else {
                        let ticket = self.gate.acquire(conn);
                        proof {
                            assert forall|j: int|
                                0 <= j < self.gate@.waiters.len() implies taken(
                                self.slots@,
                                #[trigger] self.gate@.waiters[j],
                            ) by {
                                if j < old(self).gate@.waiters.len() {
                                    assert(self.gate@.waiters[j] == old(self).gate@.waiters[j]);
                                }
                            }
                        }
                        match ticket {
                            Some(_) => Outcome { directive: Directive::Forward, admitted: None },
                            None => Outcome { directive: Directive::Park, admitted: None },
                        }
                    }
                },
                ConnEvent::HandlerDone => {
                    if holding {
                        proof {
                            lemma_members_stay_taken(self.gate@, self.slots@, conn);
                        }
                        let next = self.gate.abandon(conn);
                        Outcome { directive: Directive::Respond, admitted: holder_of(next) }
                    } else {
                        Outcome { directive: Directive::Ignore, admitted: None }
                    }
                },
                _ => {
                    proof {
                        lemma_members_stay_taken(self.gate@, self.slots@, conn);
                        lemma_vacate(self.slots@, conn as nat);
                        lemma_live_count(self.slots@);
                    }
                    let next = self.gate.abandon(conn);
                    self.slots.set(conn as usize, false);
                    self.live = self.live - 1;
                    Outcome { directive: Directive::Close, admitted: holder_of(next) }
                },
            }
        };
        proof {
            self.lemma_wf();
        }
        out
    }
}

/// The caller a ticket belongs to.
fn holder_of(ticket: Option<AdmissionTicket>) -> (who: Option<u64>)
    ensures
        who == match ticket {
            Some(t) => Some(t@),
            None => None,
        },
{
    match ticket {
        Some(t) => Some(t.holder()),
        None => None,
    }
}

} // verus!
