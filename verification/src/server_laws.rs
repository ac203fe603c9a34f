//! What holds of the request server over whole runs of events.

use crate::admission::available;
use crate::admission_laws::{
    lemma_abandon_keeps_gate, lemma_abandon_members, lemma_acquire_keeps_gate,
    lemma_release_keeps_gate, lemma_release_once,
};
use crate::dav_handler::{
    accept_result, accept_spec, admitted_by, closes, first_free, is_live, phase_of, react,
    server_wf, taken, ConnEvent, Listener, Phase, Server, ServerError,
};
use vstd::prelude::*;

verus! {

/// An event on a connection keeps the server well formed, so that never more
/// requests are with the protocol handler than the limit allows, and leaves
/// the listener as it was: no connection can stop the server.
pub proof fn lemma_react_keeps_server(s: Server, conn: u64, event: ConnEvent)
    requires
        server_wf(s),
    ensures
        server_wf(react(s, conn, event)),
        react(s, conn, event).gate.holders.len() <= s.gate.limit,
        react(s, conn, event).gate.limit == s.gate.limit,
        react(s, conn, event).listener == s.listener,
{
    let after = react(s, conn, event);
    lemma_acquire_keeps_gate(s.gate, conn);
    lemma_release_keeps_gate(s.gate, conn);
    lemma_abandon_keeps_gate(s.gate, conn);
    lemma_abandon_members(s.gate, conn);
    if is_live(s, conn) {
        if closes(event) || (event == ConnEvent::HandlerDone && s.gate.holders.contains(conn)) {
            assert forall|c: u64| after.gate.holders.contains(c) implies taken(after.slots, c) by {
                if s.gate.waiters.contains(c) {
                    let j = choose|j: int| 0 <= j < s.gate.waiters.len() && s.gate.waiters[j] == c;
                    assert(taken(s.slots, s.gate.waiters[j]));
                }
                assert(taken(s.slots, c) && c != conn);
            }
            assert forall|i: int| 0 <= i < after.gate.waiters.len() implies taken(
                after.slots,
                #[trigger] after.gate.waiters[i],
            ) by {
                let c = after.gate.waiters[i];
                let j = choose|j: int| 0 <= j < s.gate.waiters.len() && s.gate.waiters[j] == c;
                assert(taken(s.slots, s.gate.waiters[j]));
                assert(c != conn);
            }
        } else if event == ConnEvent::RequestRead && phase_of(s, conn) == Some(Phase::Reading) {
            assert forall|i: int| 0 <= i < after.gate.waiters.len() implies taken(
                after.slots,
                #[trigger] after.gate.waiters[i],
            ) by {
                if i < s.gate.waiters.len() {
                    assert(after.gate.waiters[i] == s.gate.waiters[i]);
                }
            }
        }
    }
}

/// What happens on one connection touches no other. After any event for
/// `conn`, every other live connection is still live and in the phase it
/// was in, except the one parked connection that the event hands a ticket
/// to: it is now handled.
pub proof fn lemma_event_spares_siblings(s: Server, conn: u64, event: ConnEvent, other: u64)
    requires
        server_wf(s),
        other != conn,
        is_live(s, other),
    ensures
        admitted_by(s, conn, event) != Some(other) ==> phase_of(react(s, conn, event), other)
            == phase_of(s, other),
        admitted_by(s, conn, event) == Some(other) ==> phase_of(s, other) == Some(Phase::Waiting)
            && phase_of(react(s, conn, event), other) == Some(Phase::Handling),
{
    let after = react(s, conn, event);
    let g = s.gate;
    if is_live(s, conn) {
        if closes(event) || (event == ConnEvent::HandlerDone && g.holders.contains(conn)) {
            if g.holders.contains(conn) {
                if g.waiters.len() > 0 {
                    let first = g.waiters[0];
                    assert(g.waiters.contains(first));
                    assert(!g.holders.contains(first));
                    if other != first {
                        if g.waiters.contains(other) {
                            let j = choose|j: int|
                                0 <= j < g.waiters.len() && g.waiters[j] == other;
                            assert(after.gate.waiters[j - 1] == other);
                        }
                        if after.gate.waiters.contains(other) {
                            let j = choose|j: int|
                                0 <= j < after.gate.waiters.len() && after.gate.waiters[j]
                                    == other;
                            assert(g.waiters[j + 1] == other);
                        }
                    }
                }
            } else if g.waiters.contains(conn) {
                let k = g.waiters.index_of(conn);
                g.waiters.remove_ensures(k);
                if g.waiters.contains(other) {
                    let j = choose|j: int| 0 <= j < g.waiters.len() && g.waiters[j] == other;
                    if j < k {
                        assert(after.gate.waiters[j] == other);
                    } else {
                        assert(after.gate.waiters[j - 1] == other);
                    }
                }
                if after.gate.waiters.contains(other) {
                    let j = choose|j: int|
                        0 <= j < after.gate.waiters.len() && after.gate.waiters[j] == other;
                    if j < k {
                        assert(g.waiters[j] == other);
                    } else {
                        assert(g.waiters[j + 1] == other);
                    }
                }
            }
        } else if event == ConnEvent::RequestRead && phase_of(s, conn) == Some(Phase::Reading) {
            if g.waiters.contains(other) {
                let j = choose|j: int| 0 <= j < g.waiters.len() && g.waiters[j] == other;
                assert(after.gate.waiters[j] == other);
            }
            if after.gate.waiters.contains(other) {
                let j = choose|j: int|
                    0 <= j < after.gate.waiters.len() && after.gate.waiters[j] == other;
                if j < g.waiters.len() {
                    assert(g.waiters[j] == other);
                }
            }
        }
    }
}

/// A ticket outlives no connection. When a connection ends while its request
/// is with the handler, by its peer or by a transport error, nothing of it
/// is left in the server: if nobody is parked one more ticket is free, and
/// if the connection was the only one handled the whole limit is free again;
/// otherwise the first parked connection is handled in its place.
pub proof fn lemma_drop_returns_ticket(s: Server, conn: u64, event: ConnEvent)
    requires
        server_wf(s),
        phase_of(s, conn) == Some(Phase::Handling),
        closes(event),
    ensures
        phase_of(react(s, conn, event), conn).is_none(),
        !react(s, conn, event).gate.holders.contains(conn),
        !react(s, conn, event).gate.waiters.contains(conn),
        s.gate.waiters.len() == 0 ==> available(react(s, conn, event).gate) == available(s.gate)
            + 1,
        s.gate.waiters.len() == 0 && s.gate.holders.len() == 1 ==> available(
            react(s, conn, event).gate,
        ) == s.gate.limit,
        s.gate.waiters.len() > 0 ==> admitted_by(s, conn, event) == Some(s.gate.waiters[0])
            && phase_of(react(s, conn, event), s.gate.waiters[0]) == Some(Phase::Handling),
{
    lemma_release_once(s.gate, conn);
    if s.gate.waiters.len() > 0 {
        let first = s.gate.waiters[0];
        assert(!s.gate.holders.contains(first));
        assert(is_live(s, first));
    }
}

/// Requests on one connection are taken one at a time: while a request of
/// the connection is parked or handled, a further one changes nothing.
pub proof fn lemma_one_request_at_a_time(s: Server, conn: u64)
    requires
        phase_of(s, conn) == Some(Phase::Waiting) || phase_of(s, conn) == Some(Phase::Handling),
    ensures
        react(s, conn, ConnEvent::RequestRead) == s,
{
}

/// Accepting is not gated: a listening server takes every connection the
/// transport hands it, however many requests are handled or parked. The new
/// connection was not live before and starts between requests; every
/// connection that was live stays so, in its phase.
pub proof fn lemma_accept_is_not_gated(s: Server, other: u64)
    requires
        server_wf(s),
        s.listener == Listener::Listening,
        s.slots.len() <= usize::MAX,
    ensures
        accept_result(s, Ok(())) == Ok::<u64, ServerError>(first_free(s.slots) as u64),
        !is_live(s, first_free(s.slots) as u64),
        phase_of(accept_spec(s, Ok(())), first_free(s.slots) as u64) == Some(Phase::Reading),
        accept_spec(s, Ok(())).gate == s.gate,
        accept_spec(s, Ok(())).listener == Listener::Listening,
        is_live(s, other) ==> phase_of(accept_spec(s, Ok(())), other) == phase_of(s, other),
{
    lemma_first_free_is_free(s.slots);
    let id = first_free(s.slots) as u64;
    if s.gate.waiters.contains(id) {
        let j = choose|j: int| 0 <= j < s.gate.waiters.len() && s.gate.waiters[j] == id;
        assert(taken(s.slots, s.gate.waiters[j]));
    }
    let after = accept_spec(s, Ok(()));
    assert(id == first_free(s.slots));
    assert(after.slots[id as int]);
    assert(taken(after.slots, id));
}

/// The first free slot is within the table or just past its end, and is
/// not taken.
pub proof fn lemma_first_free_is_free(slots: Seq<bool>)
    ensures
        first_free(slots) <= slots.len(),
        first_free(slots) < slots.len() ==> !slots[first_free(slots) as int],
        forall|j: int| 0 <= j < first_free(slots) ==> slots[j],
    decreases slots.len(),
{
    if slots.len() > 0 && slots[0] {
        let rest = slots.drop_first();
        lemma_first_free_is_free(rest);
        assert forall|j: int| 0 <= j < first_free(slots) implies slots[j] by {
            if j > 0 {
                assert(rest[j - 1]);
            }
        }
    }
}

/// One thing reported to the server.
pub enum ServerEvent {
    /// The transport's answer to accepting.
    Accept(Result<(), i32>),
    /// An event on a connection.
    Conn(u64, ConnEvent),
}

pub open spec fn serve_step(s: Server, event: ServerEvent) -> Server {
    match event {
        ServerEvent::Accept(incoming) => accept_spec(s, incoming),
        ServerEvent::Conn(conn, e) => react(s, conn, e),
    }
}

/// The events applied in order.
pub open spec fn serve(s: Server, events: Seq<ServerEvent>) -> Server
    decreases events.len(),
{
    if events.len() == 0 {
        s
    } else {
        serve_step(serve(s, events.drop_last()), events.last())
    }
}

/// Whatever is accepted and whatever the connections report, in whatever
/// order: the server stays well formed, never more requests are with the
/// protocol handler than the limit allows, no request is parked while the
/// handler could take one, and the listener stops only when accepting fails.
pub proof fn lemma_serve_within_limit(s: Server, events: Seq<ServerEvent>)
    requires
        server_wf(s),
    ensures
        server_wf(serve(s, events)),
        serve(s, events).gate.limit == s.gate.limit,
        serve(s, events).gate.holders.len() <= s.gate.limit,
        serve(s, events).gate.waiters.len() > 0 ==> serve(s, events).gate.holders.len()
            == s.gate.limit,
        s.listener == Listener::Listening && (forall|i: int|
            0 <= i < events.len() ==> !(#[trigger] events[i] matches ServerEvent::Accept(Err(_))))
            ==> serve(s, events).listener == Listener::Listening,
    decreases events.len(),
{
    if events.len() > 0 {
        let pre = events.drop_last();
        lemma_serve_within_limit(s, pre);
        let before = serve(s, pre);
        assert forall|i: int| 0 <= i < pre.len() implies pre[i] == events[i] by {}
        match events.last() {
            ServerEvent::Accept(incoming) => {
                assert(events[events.len() - 1] == events.last());
                let after = accept_spec(before, incoming);
                assert forall|c: u64| taken(before.slots, c) implies taken(after.slots, c) by {}
                assert forall|i: int| 0 <= i < after.gate.waiters.len() implies taken(
                    after.slots,
                    #[trigger] after.gate.waiters[i],
                ) by {
                    assert(taken(before.slots, before.gate.waiters[i]));
                }
            },
            ServerEvent::Conn(conn, e) => {
                lemma_react_keeps_server(before, conn, e);
            },
        }
    }
}

} // verus!
