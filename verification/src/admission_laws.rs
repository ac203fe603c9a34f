//! What holds of the admission gate over whole runs of requests.

use crate::admission::{abandon_spec, acquire_spec, available, gate_wf, release_spec, Gate};
use vstd::prelude::*;
use vstd::seq_lib::seq_to_set_is_finite;

verus! {

/// Asking for a ticket keeps the controller well formed: the number of tickets out
/// stays within the limit.
pub proof fn lemma_acquire_keeps_gate(g: Gate, who: u64)
    requires
        gate_wf(g),
    ensures
        gate_wf(acquire_spec(g, who)),
        acquire_spec(g, who).limit == g.limit,
{
    let after = acquire_spec(g, who);
    if !g.holders.contains(who) && !g.waiters.contains(who) && g.holders.len() >= g.limit {
        assert forall|i: int, j: int|
            0 <= i < after.waiters.len() && 0 <= j < after.waiters.len() && i
                != j implies after.waiters[i] != after.waiters[j] by {
            if i < g.waiters.len() {
                assert(g.waiters[i] == after.waiters[i]);
            }
            if j < g.waiters.len() {
                assert(g.waiters[j] == after.waiters[j]);
            }
        }
    }
}

/// Giving a ticket back keeps the controller well formed.
pub proof fn lemma_release_keeps_gate(g: Gate, who: u64)
    requires
        gate_wf(g),
    ensures
        gate_wf(release_spec(g, who)),
        release_spec(g, who).limit == g.limit,
{
    let after = release_spec(g, who);
    if g.holders.contains(who) && g.waiters.len() > 0 {
        assert forall|i: int| 0 <= i < after.waiters.len() implies after.waiters[i]
            == g.waiters[i + 1] by {}
        assert(!g.holders.contains(g.waiters[0]));
        assert forall|i: int| 0 <= i < after.waiters.len() implies !after.holders.contains(
            #[trigger] after.waiters[i],
        ) by {
            assert(after.waiters[i] == g.waiters[i + 1]);
        }
    }
}

/// Withdrawing a caller keeps the controller well formed.
pub proof fn lemma_abandon_keeps_gate(g: Gate, who: u64)
    requires
        gate_wf(g),
    ensures
        gate_wf(abandon_spec(g, who)),
        abandon_spec(g, who).limit == g.limit,
{
    if g.holders.contains(who) {
        lemma_release_keeps_gate(g, who);
    } else if g.waiters.contains(who) {
        let k = g.waiters.index_of(who);
        let after = abandon_spec(g, who);
        g.waiters.remove_ensures(k);
        assert forall|i: int| 0 <= i < after.waiters.len() implies !after.holders.contains(
            #[trigger] after.waiters[i],
        ) by {
            if i < k {
                assert(after.waiters[i] == g.waiters[i]);
            } else {
                assert(after.waiters[i] == g.waiters[i + 1]);
            }
        }
        assert forall|i: int, j: int|
            0 <= i < after.waiters.len() && 0 <= j < after.waiters.len() && i
                != j implies after.waiters[i] != after.waiters[j] by {
            let a = if i < k { i } else { i + 1 };
            let b = if j < k { j } else { j + 1 };
            assert(after.waiters[i] == g.waiters[a]);
            assert(after.waiters[j] == g.waiters[b]);
        }
    }
}

/// One request to the controller.
pub enum GateOp {
    Acquire(u64),
    Release(u64),
    Abandon(u64),
}

pub open spec fn apply(g: Gate, op: GateOp) -> Gate {
    match op {
        GateOp::Acquire(who) => acquire_spec(g, who),
        GateOp::Release(who) => release_spec(g, who),
        GateOp::Abandon(who) => abandon_spec(g, who),
    }
}

/// The requests applied in order.
pub open spec fn apply_all(g: Gate, ops: Seq<GateOp>) -> Gate
    decreases ops.len(),
{
    if ops.len() == 0 {
        g
    } else {
        apply(apply_all(g, ops.drop_last()), ops.last())
    }
}

/// However many callers ask, give back and go away, and in whatever order:
/// at no point are more tickets out than the limit.
pub proof fn lemma_never_over_limit(g: Gate, ops: Seq<GateOp>)
    requires
        gate_wf(g),
    ensures
        gate_wf(apply_all(g, ops)),
        apply_all(g, ops).limit == g.limit,
        apply_all(g, ops).holders.len() <= g.limit,
    decreases ops.len(),
{
    if ops.len() > 0 {
        lemma_never_over_limit(g, ops.drop_last());
        let before = apply_all(g, ops.drop_last());
        match ops.last() {
            GateOp::Acquire(who) => lemma_acquire_keeps_gate(before, who),
            GateOp::Release(who) => lemma_release_keeps_gate(before, who),
            GateOp::Abandon(who) => lemma_abandon_keeps_gate(before, who),
        }
    }
}

/// A ticket counts once: giving it back a second time changes nothing, and
/// neither does withdrawing a caller twice.
pub proof fn lemma_release_once(g: Gate, who: u64)
    requires
        gate_wf(g),
    ensures
        release_spec(release_spec(g, who), who) == release_spec(g, who),
        abandon_spec(abandon_spec(g, who), who) == abandon_spec(g, who),
        !abandon_spec(g, who).holders.contains(who),
        !abandon_spec(g, who).waiters.contains(who),
{
    if g.holders.contains(who) {
        if g.waiters.len() > 0 {
            assert(!g.holders.contains(g.waiters[0]));
        }
        let after = release_spec(g, who);
        if after.waiters.contains(who) {
            let i = choose|i: int| 0 <= i < after.waiters.len() && after.waiters[i] == who;
            assert(g.waiters[i + 1] == who);
        }
    } else if g.waiters.contains(who) {
        let k = g.waiters.index_of(who);
        let after = abandon_spec(g, who);
        g.waiters.remove_ensures(k);
        if after.waiters.contains(who) {
            let i = choose|i: int| 0 <= i < after.waiters.len() && after.waiters[i] == who;
            if i < k {
                assert(g.waiters[i] == who);
            } else {
                assert(g.waiters[i + 1] == who);
            }
        }
    } else {
    }
}

/// A ticket whose holder goes away is not lost. If nobody waits, one more
/// ticket is free afterwards, so that a gate whose only holder goes away has
/// its whole limit free again; if somebody waits, the first waiter holds it.
pub proof fn lemma_abandon_returns_capacity(g: Gate, who: u64)
    requires
        gate_wf(g),
        g.holders.contains(who),
    ensures
        g.waiters.len() == 0 ==> available(abandon_spec(g, who)) == available(g) + 1,
        g.waiters.len() == 0 && g.holders.len() == 1 ==> available(abandon_spec(g, who))
            == g.limit,
        g.waiters.len() > 0 ==> abandon_spec(g, who).holders.contains(g.waiters[0])
            && abandon_spec(g, who).holders.len() == g.holders.len(),
{
    if g.waiters.len() > 0 {
        assert(!g.holders.contains(g.waiters[0]));
    }
}

/// The tickets given back one after the other, the first of `who` first.
pub open spec fn release_all(g: Gate, who: Seq<u64>) -> Gate
    decreases who.len(),
{
    if who.len() == 0 {
        g
    } else {
        release_all(release_spec(g, who[0]), who.drop_first())
    }
}

/// Each of `who`, at its turn, holds a ticket to give back.
pub open spec fn all_hold(g: Gate, who: Seq<u64>) -> bool
    decreases who.len(),
{
    who.len() == 0 || (g.holders.contains(who[0]) && all_hold(
        release_spec(g, who[0]),
        who.drop_first(),
    ))
}

/// Nobody waits forever while tickets come back: the caller at place `k` of
/// the queue holds a ticket once `k + 1` holders have given theirs back,
/// whoever they are.
pub proof fn lemma_waiter_admitted(g: Gate, releases: Seq<u64>, k: int)
    requires
        gate_wf(g),
        0 <= k < g.waiters.len(),
        releases.len() == k + 1,
        all_hold(g, releases),
    ensures
        release_all(g, releases).holders.contains(g.waiters[k]),
    decreases k,
{
    let next = release_spec(g, releases[0]);
    let rest = releases.drop_first();
    lemma_release_keeps_gate(g, releases[0]);
    if k == 0 {
        assert(rest.len() == 0);
        assert(release_all(next, rest) == next);
    } else {
        assert(next.waiters[k - 1] == g.waiters[k]);
        lemma_waiter_admitted(next, rest, k - 1);
    }
}

/// Going away takes nobody else out and lets nobody new in: whoever holds a
/// ticket afterwards held one or waited before, whoever waits afterwards
/// waited before, and the caller that went away is neither.
pub proof fn lemma_abandon_members(g: Gate, who: u64)
    requires
        gate_wf(g),
    ensures
        forall|c: u64| #[trigger]
            abandon_spec(g, who).holders.contains(c) ==> c != who && (g.holders.contains(c)
                || g.waiters.contains(c)),
        forall|i: int|
            0 <= i < abandon_spec(g, who).waiters.len() ==> g.waiters.contains(
                #[trigger] abandon_spec(g, who).waiters[i],
            ) && abandon_spec(g, who).waiters[i] != who,
{
    let after = abandon_spec(g, who);
    lemma_release_once(g, who);
    if g.holders.contains(who) {
        if g.waiters.len() > 0 {
            assert(g.waiters.contains(g.waiters[0]));
        }
        assert forall|i: int| 0 <= i < after.waiters.len() implies g.waiters.contains(
            #[trigger] after.waiters[i],
        ) && after.waiters[i] != who by {
            assert(after.waiters[i] == g.waiters[i + 1]);
            assert(after.waiters.contains(after.waiters[i]));
        }
    } else if g.waiters.contains(who) {
        let k = g.waiters.index_of(who);
        g.waiters.remove_ensures(k);
        assert forall|i: int| 0 <= i < after.waiters.len() implies g.waiters.contains(
            #[trigger] after.waiters[i],
        ) && after.waiters[i] != who by {
            if i < k {
                assert(after.waiters[i] == g.waiters[i]);
            } else {
                assert(after.waiters[i] == g.waiters[i + 1]);
            }
            assert(after.waiters.contains(after.waiters[i]));
        }
    } else {
        assert forall|i: int| 0 <= i < after.waiters.len() implies g.waiters.contains(
            #[trigger] after.waiters[i],
        ) && after.waiters[i] != who by {
            assert(g.waiters.contains(g.waiters[i]));
        }
    }
}

/// Everyone the controller knows of: who holds a ticket and who waits.
pub open spec fn members(g: Gate) -> Set<u64> {
    g.holders.union(g.waiters.to_set())
}

/// Callers come in one by one and leave one by one. Asking for a ticket
/// brings in the caller and nobody else; giving a ticket back, or going
/// away, takes out the caller and nobody else: whoever else held or waited
/// still holds or waits.
pub proof fn lemma_one_in_one_out(g: Gate, who: u64)
    requires
        gate_wf(g),
    ensures
        members(acquire_spec(g, who)) == members(g).insert(who),
        g.holders.contains(who) ==> members(release_spec(g, who)) == members(g).remove(who),
        !g.holders.contains(who) ==> members(release_spec(g, who)) == members(g),
        members(abandon_spec(g, who)) == members(g).remove(who),
{
    let asked = acquire_spec(g, who);
    assert forall|c: u64| members(asked).contains(c) <==> members(g).insert(who).contains(c) by {
        if asked.waiters.contains(c) {
            let j = choose|j: int| 0 <= j < asked.waiters.len() && asked.waiters[j] == c;
            if j < g.waiters.len() {
                assert(g.waiters[j] == c);
            }
        }
        if g.waiters.contains(c) {
            let j = choose|j: int| 0 <= j < g.waiters.len() && g.waiters[j] == c;
            assert(asked.waiters[j] == c);
        }
        if c == who && !g.holders.contains(who) && !g.waiters.contains(who) && g.holders.len()
            >= g.limit {
            assert(asked.waiters[g.waiters.len() as int] == who);
        }
    }
    assert(members(asked) =~= members(g).insert(who));
    let gone = abandon_spec(g, who);
    lemma_abandon_members(g, who);
    lemma_release_once(g, who);
    assert forall|c: u64| members(gone).contains(c) <==> members(g).remove(who).contains(c) by {
        if gone.waiters.contains(c) {
            let j = choose|j: int| 0 <= j < gone.waiters.len() && gone.waiters[j] == c;
            assert(g.waiters.contains(gone.waiters[j]));
        }
        if c != who && g.holders.contains(c) {
            assert(gone.holders.contains(c));
        }
        if c != who && g.waiters.contains(c) {
            let j = choose|j: int| 0 <= j < g.waiters.len() && g.waiters[j] == c;
            if g.holders.contains(who) {
                if j > 0 {
                    assert(gone.waiters[j - 1] == c);
                }
            } else if g.waiters.contains(who) {
                let k = g.waiters.index_of(who);
                g.waiters.remove_ensures(k);
                if j < k {
                    assert(gone.waiters[j] == c);
                } else {
                    assert(gone.waiters[j - 1] == c);
                }
            }
        }
    }
    assert(members(gone) =~= members(g).remove(who));
    if !g.holders.contains(who) {
        assert(release_spec(g, who) == g);
    }
}

/// The controller never locks up: while anybody holds or waits, and the
/// limit is not zero, somebody holds a ticket and so can give one back.
pub proof fn lemma_someone_holds(g: Gate)
    requires
        gate_wf(g),
        g.limit >= 1,
        !(members(g) =~= Set::<u64>::empty()),
    ensures
        exists|who: u64| g.holders.contains(who),
{
    if g.waiters.len() > 0 {
        assert(g.holders.len() >= 1);
    } else {
        let c = choose|c: u64| members(g).contains(c);
        assert(g.holders.contains(c));
    }
    if g.holders.len() == 0 {
        g.holders.lemma_len0_is_empty();
        assert(false);
    }
    assert(g.holders.contains(g.holders.choose()));
}

/// Everybody gets through: once as many tickets have come back as callers
/// held or waited, each from a caller that held one at its turn, nobody
/// holds or waits any more and every ticket is free.
pub proof fn lemma_all_get_through(g: Gate, releases: Seq<u64>)
    requires
        gate_wf(g),
        all_hold(g, releases),
        releases.len() == members(g).len(),
    ensures
        members(release_all(g, releases)) =~= Set::<u64>::empty(),
        release_all(g, releases).waiters.len() == 0,
        available(release_all(g, releases)) == g.limit,
    decreases releases.len(),
{
    seq_to_set_is_finite(g.waiters);
    if releases.len() == 0 {
        members(g).lemma_len0_is_empty();
        if g.waiters.len() > 0 {
            assert(members(g).contains(g.waiters[0]));
        }
        assert(g.holders =~= Set::<u64>::empty());
    } else {
        let who = releases[0];
        let next = release_spec(g, who);
        lemma_release_keeps_gate(g, who);
        lemma_one_in_one_out(g, who);
        assert(members(g).contains(who));
        lemma_all_get_through(next, releases.drop_first());
    }
}

} // verus!
