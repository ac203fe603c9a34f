//! Lists of identifiers without duplicates, and the sets they stand for.

use vstd::prelude::*;

verus! {

/// Where `who` stands in `v`, if it is there.
pub(crate) fn position(v: &Vec<u64>, who: u64) -> (res: Option<usize>)
    ensures
        match res {
            Some(i) => i < v@.len() && v@[i as int] == who,
            None => !v@.contains(who),
        },
{
    let mut i: usize = 0;
    while i < v.len()
        invariant
            i <= v@.len(),
            forall|j: int| 0 <= j < i ==> v@[j] != who,
        decreases v@.len() - i,
    {
        if v[i] == who {
            return Some(i);
        }
        i = i + 1;
    }
    None
}

/// Removing one entry of a sequence without duplicates removes its value
/// from the set of entries, and leaves no duplicates.
pub(crate) proof fn lemma_remove_to_set(s: Seq<u64>, i: int)
    requires
        s.no_duplicates(),
        0 <= i < s.len(),
    ensures
        s.remove(i).no_duplicates(),
        s.remove(i).to_set() == s.to_set().remove(s[i]),
        s.remove(i).len() == s.len() - 1,
{
    let r = s.remove(i);
    s.remove_ensures(i);
    assert forall|x: u64| r.to_set().contains(x) <==> s.to_set().remove(s[i]).contains(x) by {
        if r.contains(x) {
            let j = choose|j: int| 0 <= j < r.len() && r[j] == x;
            if j < i {
                assert(s[j] == x);
            } else {
                assert(s[j + 1] == x);
            }
        }
        if s.contains(x) && x != s[i] {
            let j = choose|j: int| 0 <= j < s.len() && s[j] == x;
            if j < i {
                assert(r[j] == x);
            } else {
                assert(r[j - 1] == x);
            }
        }
    }
    assert(r.to_set() =~= s.to_set().remove(s[i]));
}

/// Appending a new value to a sequence without duplicates adds it to the set
/// of entries, and leaves no duplicates.
pub(crate) proof fn lemma_push_to_set(s: Seq<u64>, x: u64)
    requires
        s.no_duplicates(),
        !s.contains(x),
    ensures
        s.push(x).no_duplicates(),
        s.push(x).to_set() == s.to_set().insert(x),
{
    let p = s.push(x);
    assert forall|y: u64| p.to_set().contains(y) <==> s.to_set().insert(x).contains(y) by {
        if p.contains(y) {
            let j = choose|j: int| 0 <= j < p.len() && p[j] == y;
            if j < s.len() {
                assert(s[j] == y);
            }
        }
        if s.contains(y) {
            let j = choose|j: int| 0 <= j < s.len() && s[j] == y;
            assert(p[j] == y);
        }
        assert(p[s.len() as int] == x);
    }
    assert(p.to_set() =~= s.to_set().insert(x));
}

/// Replacing one entry of a sequence without duplicates by a new value
/// swaps the two in the set of entries, and leaves no duplicates.
pub(crate) proof fn lemma_update_to_set(s: Seq<u64>, i: int, x: u64)
    requires
        s.no_duplicates(),
        0 <= i < s.len(),
        !s.contains(x),
    ensures
        s.update(i, x).no_duplicates(),
        s.update(i, x).to_set() == s.to_set().remove(s[i]).insert(x),
{
    let u = s.update(i, x);
    assert forall|y: u64| u.to_set().contains(y) <==> s.to_set().remove(s[i]).insert(x).contains(
        y,
    ) by {
        if u.contains(y) {
            let j = choose|j: int| 0 <= j < u.len() && u[j] == y;
            if j != i {
                assert(s[j] == y);
            }
        }
        if s.contains(y) && y != s[i] {
            let j = choose|j: int| 0 <= j < s.len() && s[j] == y;
            assert(u[j] == y);
        }
        assert(u[i] == x);
    }
    assert(u.to_set() =~= s.to_set().remove(s[i]).insert(x));
}

} // verus!
