//! The admission controller: a counting gate that bounds how many file
//! operations run at once. Callers are known by an identifier; those that
//! find the controller full wait in arrival order and are handed a ticket as
//! earlier holders release theirs.

use crate::id_list::{lemma_push_to_set, lemma_remove_to_set, lemma_update_to_set, position};
use vstd::prelude::*;
use vstd::seq_lib::seq_to_set_is_finite;

verus! {

/// The controller as a mathematical value: its limit, who holds a ticket,
/// and who waits for one, first come first.
pub struct Gate {
    pub limit: nat,
    pub holders: Set<u64>,
    pub waiters: Seq<u64>,
}

/// What holds of every state an `AdmissionController` can be in: never more
/// tickets out than the limit, nobody waits twice or while holding, and
/// nobody waits while a ticket is free.
pub open spec fn gate_wf(g: Gate) -> bool {
    &&& g.holders.finite()
    &&& g.holders.len() <= g.limit
    &&& g.waiters.no_duplicates()
    &&& forall|i: int| 0 <= i < g.waiters.len() ==> !g.holders.contains(#[trigger] g.waiters[i])
    &&& (g.waiters.len() > 0 ==> g.holders.len() == g.limit)
}

/// The number of tickets that can be handed out at once without waiting.
pub open spec fn available(g: Gate) -> nat {
    (g.limit - g.holders.len()) as nat
}

/// The controller after `who` asks for a ticket: granted while one is free,
/// else queued behind those already waiting. Asking again while holding or
/// waiting changes nothing.
pub open spec fn acquire_spec(g: Gate, who: u64) -> Gate {
    if g.holders.contains(who) || g.waiters.contains(who) {
        g
    } else if g.holders.len() < g.limit {
        Gate { holders: g.holders.insert(who), ..g }
    } else {
        Gate { waiters: g.waiters.push(who), ..g }
    }
}

/// The controller after `who` gives back a ticket: the first waiter, if
/// there is one, takes it over at once. Without a ticket to give back
/// nothing changes.
pub open spec fn release_spec(g: Gate, who: u64) -> Gate {
    if !g.holders.contains(who) {
        g
    } else if g.waiters.len() > 0 {
        Gate {
            holders: g.holders.remove(who).insert(g.waiters[0]),
            waiters: g.waiters.drop_first(),
            ..g
        }
    } else {
        Gate { holders: g.holders.remove(who), ..g }
    }
}

/// The waiter a release by `who` hands the ticket to, if any.
pub open spec fn successor(g: Gate, who: u64) -> Option<u64> {
    if g.holders.contains(who) && g.waiters.len() > 0 {
        Some(g.waiters[0])
    } else {
        None
    }
}

/// The controller after `who` goes away for good: a ticket is given back as by
/// `release_spec`, a place in the queue is given up.
pub open spec fn abandon_spec(g: Gate, who: u64) -> Gate {
    if g.holders.contains(who) {
        release_spec(g, who)
    } else if g.waiters.contains(who) {
        Gate { waiters: g.waiters.remove(g.waiters.index_of(who)), ..g }
    } else {
        g
    }
}

/// Permission to run one file operation. Only the controller makes one.
#[derive(Debug)]
pub struct AdmissionTicket {
    holder: u64,
}

impl View for AdmissionTicket {
    type V = u64;

    closed spec fn view(&self) -> u64 {
        self.holder
    }
}

impl AdmissionTicket {
    /// The caller this ticket was handed to.
    pub fn holder(&self) -> (who: u64)
        ensures
            who == self@,
    {
        self.holder
    }
}

/// The admission controller. At most `limit` callers hold a ticket at any
/// time, whatever is asked of it.
pub struct AdmissionController {
    limit: usize,
    holders: Vec<u64>,
    waiters: Vec<u64>,
}

impl View for AdmissionController {
    type V = Gate;

    closed spec fn view(&self) -> Gate {
        Gate { limit: self.limit as nat, holders: self.holders@.to_set(), waiters: self.waiters@ }
    }
}

impl AdmissionController {
    /// The representation is sound. Every constructor establishes this and
    /// every method keeps it.
    pub closed spec fn wf(&self) -> bool {
        &&& self.holders@.no_duplicates()
        &&& self.waiters@.no_duplicates()
        &&& forall|i: int|
            0 <= i < self.waiters@.len() ==> !self.holders@.contains(#[trigger] self.waiters@[i])
        &&& self.holders@.len() <= self.limit
        &&& (self.waiters@.len() > 0 ==> self.holders@.len() == self.limit)
    }

    /// A sound representation stands for a well-formed controller.
    pub proof fn lemma_wf(&self)
        requires
            self.wf(),
        ensures
            gate_wf(self@),
    {
        self.lemma_count();
    }

    /// As many tickets are out as the list of holders is long.
    proof fn lemma_count(&self)
        requires
            self.wf(),
        ensures
            gate_wf(self@),
            self@.holders.len() == self.holders@.len(),
    {
        self.holders@.unique_seq_to_set();
        seq_to_set_is_finite(self.holders@);
    }

    /// A controller with `limit` tickets, all of them free.
    pub fn new(limit: usize) -> (gate: AdmissionController)
        ensures
            gate.wf(),
            gate@ == (Gate { limit: limit as nat, holders: Set::empty(), waiters: Seq::empty() }),
            gate_wf(gate@),
    {
        let gate = AdmissionController { limit, holders: Vec::new(), waiters: Vec::new() };
        proof {
            assert(gate.holders@.to_set() =~= Set::<u64>::empty());
            gate.lemma_wf();
        }
        gate
    }

    pub fn limit(&self) -> (limit: usize)
        ensures
            limit == self@.limit,
    {
        self.limit
    }

    /// The number of tickets out.
    pub fn outstanding(&self) -> (n: usize)
        requires
            self.wf(),
        ensures
            n == self@.holders.len(),
            n <= self@.limit,
            gate_wf(self@),
    {
        proof {
            self.lemma_count();
        }
        self.holders.len()
    }

    /// The number of tickets free.
    pub fn available(&self) -> (n: usize)
        requires
            self.wf(),
        ensures
            n == available(self@),
            gate_wf(self@),
    {
        proof {
            self.lemma_count();
        }
        self.limit - self.holders.len()
    }

    /// The number of callers waiting for a ticket.
    pub fn waiting(&self) -> (n: usize)
        ensures
            n == self@.waiters.len(),
    {
        self.waiters.len()
    }

    pub fn holds(&self, who: u64) -> (held: bool)
        ensures
            held == self@.holders.contains(who),
    {
        position(&self.holders, who).is_some()
    }

    pub fn is_waiting(&self, who: u64) -> (waits: bool)
        ensures
            waits == self@.waiters.contains(who),
    {
        position(&self.waiters, who).is_some()
    }

    /// Asks for a ticket on behalf of `who`. Returns the ticket if one is
    /// free, or if `who` holds one already; otherwise `who` is queued, and
    /// will be handed the ticket by the release that reaches its turn.
    pub fn acquire(&mut self, who: u64) -> (res: Option<AdmissionTicket>)
        requires
            old(self).wf(),
        ensures
            final(self).wf(),
            final(self)@ == acquire_spec(old(self)@, who),
            gate_wf(old(self)@),
            gate_wf(final(self)@),
            match res {
                Some(ticket) => ticket@ == who && final(self)@.holders.contains(who),
                None => !final(self)@.holders.contains(who) && final(self)@.waiters.contains(who),
            },
    {
        proof {
            self.lemma_count();
        }
        if position(&self.holders, who).is_some() {
            return Some(AdmissionTicket { holder: who });
        }
        if position(&self.waiters, who).is_some() {
            return None;
        }
        if self.holders.len() < self.limit {
            proof {
                lemma_push_to_set(self.holders@, who);
            }
            self.holders.push(who);
            proof {
                self.lemma_count();
            }
            Some(AdmissionTicket { holder: who })
        } else {
            proof {
                lemma_push_to_set(self.waiters@, who);
            }
            self.waiters.push(who);
            proof {
                self.lemma_count();
                assert(self.waiters@[self.waiters@.len() - 1] == who);
            }
            None
        }
    }

    /// Gives back whatever `who` has: a ticket, which the first waiter then
    /// takes over, or a place in the queue.
    fn give_up(&mut self, who: u64, queue_too: bool) -> (res: Option<AdmissionTicket>)
        requires
            old(self).wf(),
        ensures
            final(self).wf(),
            queue_too ==> final(self)@ == abandon_spec(old(self)@, who),
            !queue_too ==> final(self)@ == release_spec(old(self)@, who),
            gate_wf(old(self)@),
            gate_wf(final(self)@),
            match successor(old(self)@, who) {
                Some(next) => res.is_some() && res.unwrap()@ == next,
                None => res.is_none(),
            },
    {
        proof {
            self.lemma_count();
        }
        match position(&self.holders, who) {
            Some(i) => {
                if self.waiters.len() > 0 {
                    proof {
                        lemma_remove_to_set(self.waiters@, 0);
                        self.waiters@.remove_ensures(0);
                        lemma_update_to_set(self.holders@, i as int, self.waiters@[0]);
                        assert(self.waiters@.remove(0) =~= self.waiters@.drop_first());
                    }
                    let next = self.waiters.remove(0);
                    self.holders.set(i, next);
                    proof {
                        self.lemma_count();
                    }
                    Some(AdmissionTicket { holder: next })
                } else {
                    proof {
                        lemma_remove_to_set(self.holders@, i as int);
                    }
                    self.holders.remove(i);
                    proof {
                        self.lemma_count();
                    }
                    None
                }
            },
            None => {
                if queue_too {
                    match position(&self.waiters, who) {
                        Some(j) => {
                            proof {
                                lemma_remove_to_set(self.waiters@, j as int);
                                self.waiters@.remove_ensures(j as int);
                                let k = self.waiters@.index_of(who);
                                assert(self.waiters@[j as int] == who);
                                assert(k == j);
                            }
                            self.waiters.remove(j);
                            proof {
                                self.lemma_count();
                            }
                        },
                        None => {},
                    }
                }
                None
            },
        }
    }

    /// Gives the ticket back. If callers wait, the first of them takes it
    /// over at once and its ticket is returned, for the caller to pass on. A
    /// ticket that was given back before changes nothing.
    pub fn release(&mut self, ticket: AdmissionTicket) -> (res: Option<AdmissionTicket>)
        requires
            old(self).wf(),
        ensures
            final(self).wf(),
            final(self)@ == release_spec(old(self)@, ticket@),
            gate_wf(old(self)@),
            gate_wf(final(self)@),
            match successor(old(self)@, ticket@) {
                Some(next) => res.is_some() && res.unwrap()@ == next,
                None => res.is_none(),
            },
    {
        self.give_up(ticket.holder, false)
    }

    /// Withdraws `who` from the controller, whatever it was doing: a ticket it
    /// holds is given back as by `release`, a place in the queue is given up.
    /// This is what runs when a caller's work ends early.
    pub fn abandon(&mut self, who: u64) -> (res: Option<AdmissionTicket>)
        requires
            old(self).wf(),
        ensures
            final(self).wf(),
            final(self)@ == abandon_spec(old(self)@, who),
            gate_wf(old(self)@),
            gate_wf(final(self)@),
            match successor(old(self)@, who) {
                Some(next) => res.is_some() && res.unwrap()@ == next,
                None => res.is_none(),
            },
    {
        self.give_up(who, true)
    }
}

} // verus!
