//! What holds of the connectivity supervisor over whole runs of events.

use crate::esp_wifi::{
    bump, is_running, is_steady, on_graph, progress_of, run, state_of, step, LinkEvent, Progress,
    Stage, Supervisor, WifiError,
};
use vstd::prelude::*;

verus! {

/// One event moves the connectivity state along at most one legal edge, and
/// leaves the configuration as it was. A supervisor whose driver is started
/// stays so.
pub proof fn lemma_step_on_graph(s: Supervisor, event: LinkEvent, bounded: bool)
    ensures
        on_graph(state_of(s.stage), state_of(step(s, event, bounded).stage)),
        step(s, event, bounded).retry_limit == s.retry_limit,
        step(s, event, bounded).backoff_secs == s.backoff_secs,
        is_running(step(s, event, bounded).stage) == is_running(s.stage),
{
}

/// Running two event sequences one after the other is running their
/// concatenation.
pub proof fn lemma_run_concat(
    s: Supervisor,
    first: Seq<LinkEvent>,
    second: Seq<LinkEvent>,
    bounded: bool,
)
    ensures
        run(s, first + second, bounded) == run(run(s, first, bounded), second, bounded),
    decreases second.len(),
{
    if second.len() == 0 {
        assert(first + second =~= first);
    } else {
        assert((first + second).drop_last() =~= first + second.drop_last());
        assert((first + second).last() == second.last());
        lemma_run_concat(s, first, second.drop_last(), bounded);
    }
}

/// Whatever events arrive, in whatever order, in bring-up or in steady
/// state: between any two consecutive events the connectivity state stays
/// where it is or follows one legal edge.
pub proof fn lemma_run_on_graph(s: Supervisor, events: Seq<LinkEvent>, bounded: bool, i: int)
    requires
        0 <= i < events.len(),
    ensures
        on_graph(
            state_of(run(s, events.take(i), bounded).stage),
            state_of(run(s, events.take(i + 1), bounded).stage),
        ),
{
    let next = events.take(i + 1);
    assert(next.drop_last() =~= events.take(i));
    lemma_step_on_graph(run(s, events.take(i), bounded), next.last(), bounded);
}

/// The steady loop never stops: from a steady stage every sequence of events
/// leads to a steady stage again, which always has an action to wait on and
/// is never the stage in which bring-up gives up.
pub proof fn lemma_steady_never_stops(s: Supervisor, events: Seq<LinkEvent>)
    requires
        is_steady(s.stage),
    ensures
        is_steady(run(s, events, false).stage),
        progress_of(run(s, events, false)) != Err::<Progress, WifiError>(
            WifiError::RetriesExhausted,
        ),
    decreases events.len(),
{
    if events.len() > 0 {
        lemma_steady_never_stops(s, events.drop_last());
    }
}

/// How one connection attempt ends.
pub enum Attempt {
    /// The link came up, the access point accepted, the IP layer got ready.
    Succeeds,
    /// Waiting for the link report failed.
    NoLink,
    /// The access point refused the association.
    Refused,
    /// The association stood but the IP layer did not get ready.
    NoAddress,
}

/// The events one attempt reports, a failed one up to the end of its backoff.
pub open spec fn attempt_events(attempt: Attempt) -> Seq<LinkEvent> {
    match attempt {
        Attempt::Succeeds => seq![LinkEvent::LinkUp, LinkEvent::Associated, LinkEvent::IpReady],
        Attempt::NoLink => seq![LinkEvent::LinkUnavailable, LinkEvent::BackoffElapsed],
        Attempt::Refused => seq![
            LinkEvent::LinkUp,
            LinkEvent::AssociationFailed,
            LinkEvent::BackoffElapsed,
        ],
        Attempt::NoAddress => seq![
            LinkEvent::LinkUp,
            LinkEvent::Associated,
            LinkEvent::IpFailed,
            LinkEvent::BackoffElapsed,
        ],
    }
}

/// The events of a series of attempts, one attempt after the other.
pub open spec fn script(attempts: Seq<Attempt>) -> Seq<LinkEvent>
    decreases attempts.len(),
{
    if attempts.len() == 0 {
        Seq::empty()
    } else {
        script(attempts.drop_last()) + attempt_events(attempts.last())
    }
}

/// The first `n` attempts all fail.
pub open spec fn all_fail(attempts: Seq<Attempt>, n: int) -> bool {
    forall|i: int| 0 <= i < n && i < attempts.len() ==> attempts[i] != Attempt::Succeeds
}

/// Attempt `n` is the first to succeed, and comes before the ceiling.
pub open spec fn first_success_at(attempts: Seq<Attempt>, limit: nat, n: int) -> bool {
    0 <= n < attempts.len() && n < limit && attempts[n] == Attempt::Succeeds && all_fail(
        attempts,
        n,
    )
}

proof fn lemma_run_one(s: Supervisor, event: LinkEvent, bounded: bool)
    ensures
        run(s, seq![event], bounded) == step(s, event, bounded),
{
    let es = seq![event];
    assert(es.drop_last() =~= Seq::<LinkEvent>::empty());
    assert(run(s, es.drop_last(), bounded) == s);
}

proof fn lemma_run_push(s: Supervisor, events: Seq<LinkEvent>, event: LinkEvent, bounded: bool)
    ensures
        run(s, events.push(event), bounded) == step(run(s, events, bounded), event, bounded),
{
    assert(events.push(event).drop_last() =~= events);
}

/// One attempt, run from a stage that awaits a link report.
proof fn lemma_run_attempt(s: Supervisor, attempt: Attempt)
    requires
        s.stage == Stage::Starting || s.stage == Stage::Reconnecting,
    ensures
        attempt == Attempt::Succeeds ==> run(s, attempt_events(attempt), true) == (Supervisor {
            stage: Stage::Online,
            retries: 0,
            ..s
        }),
        attempt != Attempt::Succeeds ==> run(s, attempt_events(attempt), true) == (Supervisor {
            stage: if bump(s.retries) >= s.retry_limit {
                Stage::Exhausted
            } else {
                Stage::Reconnecting
            },
            retries: bump(s.retries),
            ..s
        }),
{
    let es = attempt_events(attempt);
    match attempt {
        Attempt::Succeeds => {
            let e0 = seq![LinkEvent::LinkUp];
            let e1 = e0.push(LinkEvent::Associated);
            assert(es =~= e1.push(LinkEvent::IpReady));
            lemma_run_one(s, LinkEvent::LinkUp, true);
            lemma_run_push(s, e0, LinkEvent::Associated, true);
            lemma_run_push(s, e1, LinkEvent::IpReady, true);
        },
        Attempt::NoLink => {
            let e0 = seq![LinkEvent::LinkUnavailable];
            assert(es =~= e0.push(LinkEvent::BackoffElapsed));
            lemma_run_one(s, LinkEvent::LinkUnavailable, true);
            lemma_run_push(s, e0, LinkEvent::BackoffElapsed, true);
        },
        Attempt::Refused => {
            let e0 = seq![LinkEvent::LinkUp];
            let e1 = e0.push(LinkEvent::AssociationFailed);
            assert(es =~= e1.push(LinkEvent::BackoffElapsed));
            lemma_run_one(s, LinkEvent::LinkUp, true);
            lemma_run_push(s, e0, LinkEvent::AssociationFailed, true);
            lemma_run_push(s, e1, LinkEvent::BackoffElapsed, true);
        },
        Attempt::NoAddress => {
            let e0 = seq![LinkEvent::LinkUp];
            let e1 = e0.push(LinkEvent::Associated);
            let e2 = e1.push(LinkEvent::IpFailed);
            assert(es =~= e2.push(LinkEvent::BackoffElapsed));
            lemma_run_one(s, LinkEvent::LinkUp, true);
            lemma_run_push(s, e0, LinkEvent::Associated, true);
            lemma_run_push(s, e1, LinkEvent::IpFailed, true);
            lemma_run_push(s, e2, LinkEvent::BackoffElapsed, true);
        },
    }
}

/// Once bring-up has connected or given up, further events change nothing.
pub proof fn lemma_bring_up_settles(s: Supervisor, events: Seq<LinkEvent>)
    requires
        s.stage == Stage::Online || s.stage == Stage::Exhausted,
    ensures
        run(s, events, true) == s,
    decreases events.len(),
{
    if events.len() > 0 {
        lemma_bring_up_settles(s, events.drop_last());
    }
}

/// Where bring-up stands after a series of attempts that starts with the
/// counter at zero.
proof fn lemma_attempts_outcome(s: Supervisor, attempts: Seq<Attempt>)
    requires
        s.stage == Stage::Starting || s.stage == Stage::Reconnecting,
        s.retries == 0,
        1 <= s.retry_limit <= u32::MAX,
    ensures
        ({
            let end = run(s, script(attempts), true);
            &&& end.retry_limit == s.retry_limit
            &&& end.backoff_secs == s.backoff_secs
            &&& (exists|n: int| first_success_at(attempts, s.retry_limit, n)) ==> end.stage
                == Stage::Online && end.retries == 0
            &&& !(exists|n: int| first_success_at(attempts, s.retry_limit, n)) && attempts.len()
                >= s.retry_limit ==> end.stage == Stage::Exhausted
            &&& !(exists|n: int| first_success_at(attempts, s.retry_limit, n)) && attempts.len()
                < s.retry_limit ==> end.retries == attempts.len() && (end.stage
                == Stage::Reconnecting || (attempts.len() == 0 && end == s))
        }),
    decreases attempts.len(),
{
    let limit = s.retry_limit;
    if attempts.len() > 0 {
        let pre = attempts.drop_last();
        let last = attempts.last();
        let k = pre.len() as int;
        lemma_attempts_outcome(s, pre);
        let mid = run(s, script(pre), true);
        lemma_run_concat(s, script(pre), attempt_events(last), true);
        let end = run(s, script(attempts), true);
        assert(end == run(mid, attempt_events(last), true));
        assert forall|n: int| n < k implies (first_success_at(pre, limit, n) <==> first_success_at(
            attempts,
            limit,
            n,
        )) by {
            lemma_first_success_prefix(attempts, limit, n);
        }
        if exists|n: int| first_success_at(pre, limit, n) {
            let n = choose|n: int| first_success_at(pre, limit, n);
            assert(first_success_at(attempts, limit, n));
            lemma_bring_up_settles(mid, attempt_events(last));
        } else if pre.len() >= limit {
            lemma_bring_up_settles(mid, attempt_events(last));
            assert forall|n: int| !first_success_at(attempts, limit, n) by {
                if first_success_at(attempts, limit, n) {
                    assert(n < k);
                    assert(first_success_at(pre, limit, n));
                }
            }
        } else {
            lemma_run_attempt(mid, last);
            assert(all_fail(attempts, k)) by {
                assert forall|i: int| 0 <= i < k implies attempts[i] != Attempt::Succeeds by {
                    if attempts[i] == Attempt::Succeeds {
                        lemma_first_success_exists(pre, limit, i);
                    }
                }
            }
            if last == Attempt::Succeeds {
                assert(first_success_at(attempts, limit, k));
            } else {
                assert forall|n: int| !first_success_at(attempts, limit, n) by {
                    if first_success_at(attempts, limit, n) {
                        if n < k {
                            assert(first_success_at(pre, limit, n));
                        }
                    }
                }
            }
        }
    } else {
        assert(script(attempts) =~= Seq::<LinkEvent>::empty());
        assert forall|n: int| !first_success_at(attempts, limit, n) by {}
    }
}

/// Whether an attempt is the first success does not depend on the attempts
/// after it.
proof fn lemma_first_success_prefix(attempts: Seq<Attempt>, limit: nat, n: int)
    requires
        attempts.len() > 0,
        n < attempts.len() - 1,
    ensures
        first_success_at(attempts.drop_last(), limit, n) <==> first_success_at(attempts, limit, n),
{
    let pre = attempts.drop_last();
    if 0 <= n {
        assert(pre[n] == attempts[n]);
        if all_fail(pre, n) {
            assert forall|i: int| 0 <= i < n && i < attempts.len() implies attempts[i]
                != Attempt::Succeeds by {
                assert(pre[i] == attempts[i]);
            }
        }
        if all_fail(attempts, n) {
            assert forall|i: int| 0 <= i < n && i < pre.len() implies pre[i]
                != Attempt::Succeeds by {
                assert(pre[i] == attempts[i]);
            }
        }
    }
}

/// If some attempt before the ceiling succeeds, one of them is the first.
proof fn lemma_first_success_exists(attempts: Seq<Attempt>, limit: nat, i: int)
    requires
        0 <= i < attempts.len(),
        i < limit,
        attempts[i] == Attempt::Succeeds,
    ensures
        exists|n: int| first_success_at(attempts, limit, n),
    decreases i,
{
    if all_fail(attempts, i) {
        assert(first_success_at(attempts, limit, i));
    } else {
        let j = choose|j: int| 0 <= j < i && j < attempts.len() && attempts[j] == Attempt::Succeeds;
        lemma_first_success_exists(attempts, limit, j);
    }
}

/// Bring-up, started with the counter at zero and run over a series of
/// attempts, fails if and only if as many attempts as the ceiling allows
/// fail in a row before any succeeds. It reports the connection if and only
/// if an attempt within the ceiling succeeds after failures only, and the
/// retry counter is then back at zero.
pub proof fn lemma_initial_connect_decides(s: Supervisor, attempts: Seq<Attempt>)
    requires
        s.stage == Stage::Starting || s.stage == Stage::Reconnecting,
        s.retries == 0,
        1 <= s.retry_limit <= u32::MAX,
    ensures
        progress_of(run(s, script(attempts), true)) == Err::<Progress, WifiError>(
            WifiError::RetriesExhausted,
        ) <==> attempts.len() >= s.retry_limit && all_fail(attempts, s.retry_limit as int),
        progress_of(run(s, script(attempts), true)) == Ok::<Progress, WifiError>(
            Progress::Connected,
        ) <==> exists|n: int| first_success_at(attempts, s.retry_limit, n),
        progress_of(run(s, script(attempts), true)) == Ok::<Progress, WifiError>(
            Progress::Connected,
        ) ==> run(s, script(attempts), true).retries == 0,
{
    let limit = s.retry_limit;
    lemma_attempts_outcome(s, attempts);
    if exists|n: int| first_success_at(attempts, limit, n) {
        let n = choose|n: int| first_success_at(attempts, limit, n);
        assert(!all_fail(attempts, limit as int));
    } else {
        if attempts.len() >= limit {
            assert forall|i: int| 0 <= i < limit && i < attempts.len() implies attempts[i]
                != Attempt::Succeeds by {
                if attempts[i] == Attempt::Succeeds {
                    lemma_first_success_exists(attempts, limit, i);
                }
            }
        }
    }
}

} // verus!
