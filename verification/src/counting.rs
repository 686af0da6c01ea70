//! Counting and list-surgery specifications used by the ledger's invariants:
//! how many leases are in a given state, how often an identifier occurs in a
//! portfolio list, and what is left of a list after an exact-match removal.

use crate::types::{LeaseStatus, LeaseView};
use vstd::prelude::*;

verus! {

/// Number of leases in the `Active` state.
pub open spec fn n_active(s: Seq<LeaseView>) -> int
    decreases s.len(),
{
    if s.len() == 0 {
        0
    } else {
        n_active(s.drop_last()) + if s.last().status == LeaseStatus::Active {
            1int
        } else {
            0int
        }
    }
}

/// Number of leases in the terminal `Completed` state.
pub open spec fn n_completed(s: Seq<LeaseView>) -> int
    decreases s.len(),
{
    if s.len() == 0 {
        0
    } else {
        n_completed(s.drop_last()) + if s.last().status == LeaseStatus::Completed {
            1int
        } else {
            0int
        }
    }
}

/// Number of leases whose dispute overlay is set.
pub open spec fn n_disputed(s: Seq<LeaseView>) -> int
    decreases s.len(),
{
    if s.len() == 0 {
        0
    } else {
        n_disputed(s.drop_last()) + if s.last().is_disputed {
            1int
        } else {
            0int
        }
    }
}

/// The three counts never leave `0 ..= s.len()`.
pub proof fn lemma_counts_bounded(s: Seq<LeaseView>)
    ensures
        0 <= n_active(s) <= s.len(),
        0 <= n_completed(s) <= s.len(),
        0 <= n_disputed(s) <= s.len(),
    decreases s.len(),
{
    if s.len() > 0 {
        lemma_counts_bounded(s.drop_last());
    }
}

/// Appending one lease changes each count by that lease's contribution.
pub proof fn lemma_counts_push(s: Seq<LeaseView>, v: LeaseView)
    ensures
        n_active(s.push(v)) == n_active(s) + if v.status == LeaseStatus::Active {
            1int
        } else {
            0int
        },
        n_completed(s.push(v)) == n_completed(s) + if v.status == LeaseStatus::Completed {
            1int
        } else {
            0int
        },
        n_disputed(s.push(v)) == n_disputed(s) + if v.is_disputed {
            1int
        } else {
            0int
        },
{
    assert(s.push(v).drop_last() =~= s);
}

/// Replacing the lease at index `i` changes each count by the difference of
/// the contributions of the old and the new entry.
pub proof fn lemma_counts_update(s: Seq<LeaseView>, i: int, v: LeaseView)
    requires
        0 <= i < s.len(),
    ensures
        n_active(s.update(i, v)) == n_active(s) + (if v.status == LeaseStatus::Active {
            1int
        } else {
            0int
        }) - (if s[i].status == LeaseStatus::Active {
            1int
        } else {
            0int
        }),
        n_completed(s.update(i, v)) == n_completed(s) + (if v.status == LeaseStatus::Completed {
            1int
        } else {
            0int
        }) - (if s[i].status == LeaseStatus::Completed {
            1int
        } else {
            0int
        }),
        n_disputed(s.update(i, v)) == n_disputed(s) + (if v.is_disputed {
            1int
        } else {
            0int
        }) - (if s[i].is_disputed {
            1int
        } else {
            0int
        }),
    decreases s.len(),
{
    if i == s.len() - 1 {
        assert(s.update(i, v).drop_last() =~= s.drop_last());
        assert(s.update(i, v).last() == v);
    } else {
        assert(s.update(i, v).drop_last() =~= s.drop_last().update(i, v));
        assert(s.update(i, v).last() == s.last());
        lemma_counts_update(s.drop_last(), i, v);
    }
}

/// A lease that is not in a given state keeps the matching count strictly
/// below the length.
pub proof fn lemma_count_witness(s: Seq<LeaseView>, i: int)
    requires
        0 <= i < s.len(),
    ensures
        s[i].status != LeaseStatus::Active ==> n_active(s) <= s.len() - 1,
        s[i].status != LeaseStatus::Completed ==> n_completed(s) <= s.len() - 1,
        !s[i].is_disputed ==> n_disputed(s) <= s.len() - 1,
    decreases s.len(),
{
    lemma_counts_bounded(s.drop_last());
    if i < s.len() - 1 {
        lemma_count_witness(s.drop_last(), i);
    }
}

/// A lease that is in a given state keeps the matching count positive.
pub proof fn lemma_count_member(s: Seq<LeaseView>, i: int)
    requires
        0 <= i < s.len(),
    ensures
        s[i].status == LeaseStatus::Active ==> n_active(s) >= 1,
        s[i].status == LeaseStatus::Completed ==> n_completed(s) >= 1,
        s[i].is_disputed ==> n_disputed(s) >= 1,
    decreases s.len(),
{
    lemma_counts_bounded(s.drop_last());
    if i < s.len() - 1 {
        lemma_count_member(s.drop_last(), i);
    }
}

/// How often `x` occurs in an identifier list.
pub open spec fn occurrences(s: Seq<u64>, x: u64) -> int
    decreases s.len(),
{
    if s.len() == 0 {
        0
    } else {
        occurrences(s.drop_last(), x) + if s.last() == x {
            1int
        } else {
            0int
        }
    }
}

/// `x` occurs in `s` exactly when its occurrence count is positive.
pub proof fn lemma_occurrences_contains(s: Seq<u64>, x: u64)
    ensures
        s.contains(x) <==> occurrences(s, x) >= 1,
        occurrences(s, x) >= 0,
    decreases s.len(),
{
    if s.len() > 0 {
        lemma_occurrences_contains(s.drop_last(), x);
        if s.last() != x && s.contains(x) {
            let i = choose|i: int| 0 <= i < s.len() && s[i] == x;
            assert(s.drop_last()[i] == x);
        }
        if s.drop_last().contains(x) {
            let i = choose|i: int| 0 <= i < s.drop_last().len() && s.drop_last()[i] == x;
            assert(s[i] == x);
        }
    }
}

/// Appending `v` raises only the count of `v`.
pub proof fn lemma_occurrences_push(s: Seq<u64>, v: u64, x: u64)
    ensures
        occurrences(s.push(v), x) == occurrences(s, x) + if v == x {
            1int
        } else {
            0int
        },
{
    assert(s.push(v).drop_last() =~= s);
}

/// Appending an element adds exactly it to the members of the list.
pub proof fn lemma_contains_push(s: Seq<u64>, v: u64, x: u64)
    ensures
        s.push(v).contains(x) <==> (s.contains(x) || x == v),
{
    if s.contains(x) {
        let i = choose|i: int| 0 <= i < s.len() && s[i] == x;
        assert(s.push(v)[i] == x);
    }
    if x == v {
        assert(s.push(v)[s.len() as int] == x);
    }
    if s.push(v).contains(x) {
        let i = choose|i: int| 0 <= i < s.push(v).len() && s.push(v)[i] == x;
        if i < s.len() {
            assert(s[i] == x);
        }
    }
}

/// What is left of `s` after removing every element equal to `x`, the
/// relative order of the rest preserved.
pub open spec fn remove_all(s: Seq<u64>, x: u64) -> Seq<u64>
    decreases s.len(),
{
    if s.len() == 0 {
        Seq::empty()
    } else {
        let rest = remove_all(s.drop_last(), x);
        if s.last() == x {
            rest
        } else {
            rest.push(s.last())
        }
    }
}

/// Removal removes exactly the occurrences of `x` and no other element.
pub proof fn lemma_remove_all(s: Seq<u64>, x: u64)
    ensures
        occurrences(remove_all(s, x), x) == 0,
        forall|y: u64| y != x ==> occurrences(remove_all(s, x), y) == occurrences(s, y),
        remove_all(s, x).len() == s.len() - occurrences(s, x),
        forall|y: u64| #[trigger] remove_all(s, x).contains(y) ==> y != x && s.contains(y),
    decreases s.len(),
{
    lemma_occurrences_contains(s, x);
    if s.len() > 0 {
        lemma_remove_all(s.drop_last(), x);
        let rest = remove_all(s.drop_last(), x);
        assert forall|y: u64| y != x implies occurrences(remove_all(s, x), y) == occurrences(
            s,
            y,
        ) by {
            assert(occurrences(rest, y) == occurrences(s.drop_last(), y));
            if s.last() != x {
                assert(remove_all(s, x) == rest.push(s.last()));
                lemma_occurrences_push(rest, s.last(), y);
            } else {
                assert(remove_all(s, x) == rest);
            }
        }
        if s.last() != x {
            lemma_occurrences_push(rest, s.last(), x);
        }
        assert forall|y: u64| #[trigger] remove_all(s, x).contains(y) implies y != x && s.contains(
            y,
        ) by {
            lemma_occurrences_contains(remove_all(s, x), y);
            lemma_occurrences_contains(s, y);
            if y != x {
                lemma_occurrences_push(s.drop_last(), s.last(), y);
                assert(s.drop_last().push(s.last()) =~= s);
            }
        }
    }
}

} // verus!
