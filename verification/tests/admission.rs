use esp_webdav::admission::AdmissionController;

#[test]
fn new_controller_has_every_ticket_free() {
    let gate = AdmissionController::new(2);
    assert_eq!(gate.limit(), 2);
    assert_eq!(gate.outstanding(), 0);
    assert_eq!(gate.available(), 2);
    assert_eq!(gate.waiting(), 0);
    assert!(!gate.holds(1));
    assert!(!gate.is_waiting(1));
}

#[test]
fn tickets_are_granted_up_to_the_limit() {
    let mut gate = AdmissionController::new(2);
    assert_eq!(gate.acquire(10).map(|t| t.holder()), Some(10));
    assert_eq!(gate.acquire(11).map(|t| t.holder()), Some(11));
    assert_eq!(gate.outstanding(), 2);
    assert_eq!(gate.available(), 0);
    assert!(gate.acquire(12).is_none());
    assert_eq!(gate.outstanding(), 2);
    assert_eq!(gate.waiting(), 1);
    assert!(gate.is_waiting(12));
    assert!(!gate.holds(12));
}

#[test]
fn release_hands_the_ticket_to_the_first_waiter() {
    let mut gate = AdmissionController::new(1);
    let ticket = gate.acquire(1).unwrap();
    assert!(gate.acquire(2).is_none());
    assert!(gate.acquire(3).is_none());
    let next = gate.release(ticket).unwrap();
    assert_eq!(next.holder(), 2);
    assert!(gate.holds(2));
    assert!(!gate.holds(1));
    assert!(gate.is_waiting(3));
    assert_eq!(gate.outstanding(), 1);
    let next = gate.release(next).unwrap();
    assert_eq!(next.holder(), 3);
    assert!(gate.release(next).is_none());
    assert_eq!(gate.outstanding(), 0);
    assert_eq!(gate.available(), 1);
}

#[test]
fn release_without_waiters_frees_a_ticket() {
    let mut gate = AdmissionController::new(3);
    let ticket = gate.acquire(7).unwrap();
    assert_eq!(gate.available(), 2);
    assert!(gate.release(ticket).is_none());
    assert_eq!(gate.available(), 3);
    assert!(!gate.holds(7));
}

#[test]
fn a_ticket_counts_once() {
    let mut gate = AdmissionController::new(2);
    let first = gate.acquire(1).unwrap();
    let again = gate.acquire(1).unwrap();
    assert_eq!(gate.outstanding(), 1);
    assert!(gate.release(first).is_none());
    assert_eq!(gate.available(), 2);
    assert!(gate.release(again).is_none());
    assert_eq!(gate.available(), 2);
    assert_eq!(gate.outstanding(), 0);
}

#[test]
fn a_stale_ticket_does_not_take_the_holder_out_of_the_queue() {
    let mut gate = AdmissionController::new(1);
    let first = gate.acquire(1).unwrap();
    let stale = gate.acquire(1).unwrap();
    assert!(gate.release(first).is_none());
    let other = gate.acquire(2).unwrap();
    assert!(gate.acquire(1).is_none());
    assert!(gate.release(stale).is_none());
    assert!(gate.is_waiting(1));
    assert_eq!(gate.release(other).map(|t| t.holder()), Some(1));
}

#[test]
fn asking_again_while_waiting_keeps_the_place() {
    let mut gate = AdmissionController::new(1);
    let ticket = gate.acquire(1).unwrap();
    assert!(gate.acquire(2).is_none());
    assert!(gate.acquire(3).is_none());
    assert!(gate.acquire(2).is_none());
    assert_eq!(gate.waiting(), 2);
    assert_eq!(gate.release(ticket).map(|t| t.holder()), Some(2));
}

#[test]
fn abandoned_ticket_returns_capacity() {
    let mut gate = AdmissionController::new(2);
    let _held = gate.acquire(1).unwrap();
    assert_eq!(gate.available(), 1);
    // The holder's work ends early: its ticket is never given back by hand.
    assert!(gate.abandon(1).is_none());
    assert_eq!(gate.available(), 2);
    assert_eq!(gate.outstanding(), 0);
    assert!(gate.abandon(1).is_none());
    assert_eq!(gate.available(), 2);
}

#[test]
fn abandoned_ticket_goes_to_the_first_waiter() {
    let mut gate = AdmissionController::new(1);
    let _held = gate.acquire(1).unwrap();
    assert!(gate.acquire(2).is_none());
    assert_eq!(gate.abandon(1).map(|t| t.holder()), Some(2));
    assert!(gate.holds(2));
    assert_eq!(gate.outstanding(), 1);
    assert_eq!(gate.waiting(), 0);
}

#[test]
fn abandoning_a_waiter_gives_up_its_place() {
    let mut gate = AdmissionController::new(1);
    let ticket = gate.acquire(1).unwrap();
    assert!(gate.acquire(2).is_none());
    assert!(gate.acquire(3).is_none());
    assert!(gate.acquire(4).is_none());
    assert!(gate.abandon(3).is_none());
    assert_eq!(gate.waiting(), 2);
    assert!(!gate.is_waiting(3));
    assert_eq!(gate.outstanding(), 1);
    let next = gate.release(ticket).unwrap();
    assert_eq!(next.holder(), 2);
    assert_eq!(gate.release(next).map(|t| t.holder()), Some(4));
}

#[test]
fn abandoning_a_stranger_changes_nothing() {
    let mut gate = AdmissionController::new(1);
    let _held = gate.acquire(1).unwrap();
    assert!(gate.acquire(2).is_none());
    assert!(gate.abandon(9).is_none());
    assert!(gate.holds(1));
    assert!(gate.is_waiting(2));
    assert_eq!(gate.outstanding(), 1);
    assert_eq!(gate.waiting(), 1);
}

#[test]
fn a_controller_without_tickets_admits_nobody() {
    let mut gate = AdmissionController::new(0);
    assert!(gate.acquire(1).is_none());
    assert!(gate.acquire(2).is_none());
    assert_eq!(gate.outstanding(), 0);
    assert_eq!(gate.available(), 0);
    assert_eq!(gate.waiting(), 2);
    assert!(gate.abandon(1).is_none());
    assert_eq!(gate.waiting(), 1);
}

#[test]
fn many_callers_never_exceed_the_limit_and_all_get_through() {
    for limit in 1usize..=4 {
        for callers in limit as u64..=9 {
            let mut gate = AdmissionController::new(limit);
            let mut holding: Vec<u64> = Vec::new();
            let mut done: Vec<u64> = Vec::new();
            for who in 0..callers {
                if let Some(ticket) = gate.acquire(who) {
                    holding.push(ticket.holder());
                }
                assert!(gate.outstanding() <= limit);
            }
            assert_eq!(gate.outstanding(), limit);
            assert_eq!(gate.waiting() as u64, callers - limit as u64);
            while let Some(who) = holding.first().copied() {
                holding.remove(0);
                // Every third caller fails after acquiring and goes away.
                let next = if who % 3 == 0 {
                    gate.abandon(who)
                } else {
                    let ticket = gate.acquire(who).unwrap();
                    gate.release(ticket)
                };
                done.push(who);
                if let Some(ticket) = next {
                    holding.push(ticket.holder());
                }
                assert!(gate.outstanding() <= limit);
                assert_eq!(gate.outstanding(), holding.len());
            }
            done.sort();
            let everyone: Vec<u64> = (0..callers).collect();
            assert_eq!(done, everyone);
            assert_eq!(gate.outstanding(), 0);
            assert_eq!(gate.waiting(), 0);
            assert_eq!(gate.available(), limit);
        }
    }
}

#[test]
fn waiter_at_place_k_is_admitted_after_k_plus_one_releases() {
    let mut gate = AdmissionController::new(2);
    let a = gate.acquire(100).unwrap();
    let b = gate.acquire(101).unwrap();
    for who in 0u64..4 {
        assert!(gate.acquire(who).is_none());
    }
    // Caller 2 stands at place 2: three releases admit it.
    let first = gate.release(a).unwrap();
    assert_eq!(first.holder(), 0);
    assert!(!gate.holds(2));
    let second = gate.release(b).unwrap();
    assert_eq!(second.holder(), 1);
    assert!(!gate.holds(2));
    let third = gate.release(first).unwrap();
    assert_eq!(third.holder(), 2);
    assert!(gate.holds(2));
}
