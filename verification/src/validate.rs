use vstd::prelude::*;

use crate::actor::Client;
use crate::msg::Id;
use crate::text::claimed_by_both_msg;
use crate::text::claimed_twice_msg;
use crate::text::goal_missed_msg;
use crate::text::spec_claimed_by_both_msg;
use crate::text::spec_claimed_twice_msg;
use crate::text::spec_goal_missed_msg;

verus! {

/// No identifier occurs twice in `ids`.
pub open spec fn dup_free(ids: Seq<Id>) -> bool {
    forall|p: int, q: int| 0 <= p < q < ids.len() ==> ids[p] != ids[q]
}

/// `a` and `b` share no identifier.
pub open spec fn disjoint_ids(a: Seq<Id>, b: Seq<Id>) -> bool {
    forall|p: int, q: int| 0 <= p < a.len() && 0 <= q < b.len() ==> a[p] != b[q]
}

/// The first position at or past `j` whose identifier already appeared
/// earlier in `ids`.
pub open spec fn first_self_dup_from(ids: Seq<Id>, j: int) -> Option<int>
    decreases ids.len() - j,
{
    if j < 0 || j >= ids.len() {
        None
    } else if exists|i: int| 0 <= i < j && ids[i] == ids[j] {
        Some(j)
    } else {
        first_self_dup_from(ids, j + 1)
    }
}

/// The first position at or past `j` in `b` whose identifier appears in `a`
/// or earlier in `b`.
pub open spec fn first_cross_dup_from(a: Seq<Id>, b: Seq<Id>, j: int) -> Option<int>
    decreases b.len() - j,
{
    if j < 0 || j >= b.len() {
        None
    } else if (exists|i: int| 0 <= i < a.len() && a[i] == b[j]) || (exists|i: int|
        0 <= i < j && b[i] == b[j]) {
        Some(j)
    } else {
        first_cross_dup_from(a, b, j + 1)
    }
}

/// The verdict on one ordered pair of clients: first `a`'s own list is
/// checked for a repeat, then `b`'s list is checked against everything in
/// `a` and everything earlier in `b`. The report names the first offender.
pub open spec fn spec_pair_error(a: Client, b: Client) -> Option<Seq<char>> {
    match first_self_dup_from(a.claimed_ids@, 0) {
        Some(p) => Some(spec_claimed_twice_msg(a.addr@, a.claimed_ids@[p] as int)),
        None => match first_cross_dup_from(a.claimed_ids@, b.claimed_ids@, 0) {
            Some(q) => Some(
                spec_claimed_by_both_msg(a.addr@, b.addr@, b.claimed_ids@[q] as int),
            ),
            None => None,
        },
    }
}

/// The verdict of the duplicate sweep from pair `(i, j)` on, in the order
/// the sweep visits pairs.
pub open spec fn spec_dup_scan(cs: Seq<Client>, i: int, j: int) -> Option<Seq<char>>
    decreases cs.len() - i, cs.len() - j,
{
    if i < 0 || i >= cs.len() {
        None
    } else if j >= cs.len() {
        spec_dup_scan(cs, i + 1, i + 2)
    } else if j < 0 {
        None
    } else {
        match spec_pair_error(cs[i], cs[j]) {
            Some(m) => Some(m),
            None => spec_dup_scan(cs, i, j + 1),
        }
    }
}

/// The verdict of the duplicate sweep over every ordered pair of clients.
pub open spec fn spec_duplicate_error(cs: Seq<Client>) -> Option<Seq<char>> {
    spec_dup_scan(cs, 0, 1)
}

/// The first client that did not claim exactly `goal` identifiers.
pub open spec fn first_goal_miss(cs: Seq<Client>, goal: int, i: int) -> Option<int>
    decreases cs.len() - i,
{
    if i < 0 || i >= cs.len() {
        None
    } else if cs[i].claimed_ids@.len() != goal {
        Some(i)
    } else {
        first_goal_miss(cs, goal, i + 1)
    }
}

/// The verdict of the goal sweep: the report for the first client that
/// missed its goal, if any did.
pub open spec fn spec_goal_error(cs: Seq<Client>, goal: int) -> Option<Seq<char>> {
    match first_goal_miss(cs, goal, 0) {
        Some(i) => Some(
            spec_goal_missed_msg(cs[i].addr@, goal, cs[i].claimed_ids@.len() as int),
        ),
        None => None,
    }
}

/// Whether `x` occurs in the first `upto` entries of `ids`.
fn id_in_prefix(ids: &Vec<Id>, upto: usize, x: Id) -> (found: bool)
    requires
        upto <= ids@.len(),
    ensures
        found == exists|i: int| 0 <= i < upto && ids@[i] == x,
{
    let mut i: usize = 0;
    while i < upto
        invariant
            i <= upto <= ids@.len(),
            forall|p: int| 0 <= p < i ==> ids@[p] != x,
        decreases upto - i,
    {
        if ids[i] == x {
            return true;
        }
        i += 1;
    }
    false
}

/// The verdict on one ordered pair of clients, with the first offending
/// identifier reported exactly as `spec_pair_error` says.
fn pair_error(a: &Client, b: &Client) -> (r: Option<String>)
    ensures
        r is None <==> spec_pair_error(*a, *b) is None,
        r matches Some(m) ==> spec_pair_error(*a, *b) == Some(m@),
{
    let mut p: usize = 0;
    while p < a.claimed_ids.len()
        invariant
            p <= a.claimed_ids@.len(),
            first_self_dup_from(a.claimed_ids@, 0) == first_self_dup_from(
                a.claimed_ids@,
                p as int,
            ),
        decreases a.claimed_ids@.len() - p,
    {
        if id_in_prefix(&a.claimed_ids, p, a.claimed_ids[p]) {
            proof {
                assert(first_self_dup_from(a.claimed_ids@, p as int) == Some(p as int));
            }
            return Some(claimed_twice_msg(&a.addr, a.claimed_ids[p]));
        }
        p += 1;
    }
    proof {
        assert(first_self_dup_from(a.claimed_ids@, 0) is None);
    }
    let mut q: usize = 0;
    while q < b.claimed_ids.len()
        invariant
            q <= b.claimed_ids@.len(),
            first_self_dup_from(a.claimed_ids@, 0) is None,
            first_cross_dup_from(a.claimed_ids@, b.claimed_ids@, 0) == first_cross_dup_from(
                a.claimed_ids@,
                b.claimed_ids@,
                q as int,
            ),
        decreases b.claimed_ids@.len() - q,
    {
        let x = b.claimed_ids[q];
        let hit = if id_in_prefix(&a.claimed_ids, a.claimed_ids.len(), x) {
            true
        } else {
            id_in_prefix(&b.claimed_ids, q, x)
        };
        if hit {
            proof {
                assert(first_cross_dup_from(a.claimed_ids@, b.claimed_ids@, q as int) == Some(
                    q as int,
                ));
            }
            return Some(claimed_by_both_msg(&a.addr, &b.addr, x));
        }
        q += 1;
    }
    proof {
        assert(first_cross_dup_from(a.claimed_ids@, b.claimed_ids@, 0) is None);
    }
    None
}

/// Sweep every ordered pair of clients for a shared or repeated identifier;
/// the report matches `spec_duplicate_error`.
pub fn scan_duplicate_ids(clients: &Vec<Client>) -> (r: Result<(), String>)
    ensures
        r is Ok <==> spec_duplicate_error(clients@) is None,
        r matches Err(m) ==> spec_duplicate_error(clients@) == Some(m@),
{
    let mut i: usize = 0;
    while i < clients.len()
        invariant
            i <= clients@.len(),
            spec_duplicate_error(clients@) == spec_dup_scan(clients@, i as int, i as int + 1),
        decreases clients@.len() - i,
    {
        let mut j: usize = i + 1;
        while j < clients.len()
            invariant
                i < j,
                i < clients@.len(),
                j <= clients@.len(),
                spec_duplicate_error(clients@) == spec_dup_scan(clients@, i as int, j as int),
            decreases clients@.len() - j,
        {
            match pair_error(&clients[i], &clients[j]) {
                Some(m) => {
                    return Err(m);
                }
                None => {},
            }
            j += 1;
        }
        i += 1;
    }
    Ok(())
}

/// Sweep the clients for one that missed its claim goal; the report matches
/// `spec_goal_error`.
pub fn scan_goals(clients: &Vec<Client>, goal_per_client: u64) -> (r: Result<(), String>)
    ensures
        r is Ok <==> spec_goal_error(clients@, goal_per_client as int) is None,
        r matches Err(m) ==> spec_goal_error(clients@, goal_per_client as int) == Some(m@),
{
    let mut i: usize = 0;
    while i < clients.len()
        invariant
            i <= clients@.len(),
            first_goal_miss(clients@, goal_per_client as int, 0) == first_goal_miss(
                clients@,
                goal_per_client as int,
                i as int,
            ),
        decreases clients@.len() - i,
    {
        let got = clients[i].claimed_ids.len();
        if got as u64 != goal_per_client {
            proof {
                assert(first_goal_miss(clients@, goal_per_client as int, i as int) == Some(
                    i as int,
                ));
            }
            return Err(goal_missed_msg(&clients[i].addr, goal_per_client, got as u64));
        }
        i += 1;
    }
    proof {
        assert(first_goal_miss(clients@, goal_per_client as int, 0) is None);
    }
    Ok(())
}

/// Scanning `ids` from `j` finds nothing exactly when no identifier at or
/// past `j` repeats an earlier one.
proof fn lemma_self_dup_none(ids: Seq<Id>, j: int)
    requires
        0 <= j <= ids.len(),
    ensures
        first_self_dup_from(ids, j) is None <==> (forall|p: int, q: int|
            0 <= p < q < ids.len() && j <= q ==> ids[p] != ids[q]),
    decreases ids.len() - j,
{
    if j < ids.len() {
        lemma_self_dup_none(ids, j + 1);
    }
}

/// Scanning `b` from `j` against `a` finds nothing exactly when no entry of
/// `b` at or past `j` occurs in `a` or earlier in `b`.
proof fn lemma_cross_dup_none(a: Seq<Id>, b: Seq<Id>, j: int)
    requires
        0 <= j <= b.len(),
    ensures
        first_cross_dup_from(a, b, j) is None <==> (forall|p: int, q: int|
            0 <= p < a.len() && 0 <= q < b.len() && j <= q ==> a[p] != b[q]) && (forall|
            p: int,
            q: int,
        |
            0 <= p < q < b.len() && j <= q ==> b[p] != b[q]),
    decreases b.len() - j,
{
    if j < b.len() {
        lemma_cross_dup_none(a, b, j + 1);
    }
}

/// One pair passes exactly when both claim lists are duplicate-free and
/// share nothing.
pub proof fn lemma_pair_error_none(a: Client, b: Client)
    ensures
        spec_pair_error(a, b) is None <==> (dup_free(a.claimed_ids@) && dup_free(b.claimed_ids@)
            && disjoint_ids(a.claimed_ids@, b.claimed_ids@)),
{
    lemma_self_dup_none(a.claimed_ids@, 0);
    lemma_cross_dup_none(a.claimed_ids@, b.claimed_ids@, 0);
}

/// The sweep from `(i, j)` on passes exactly when every pair it would
/// visit passes.
proof fn lemma_dup_scan_none(cs: Seq<Client>, i: int, j: int)
    requires
        0 <= i,
        i < j,
    ensures
        spec_dup_scan(cs, i, j) is None <==> (forall|p: int, q: int|
            ((p == i && j <= q < cs.len()) || (i < p && p < q < cs.len())) ==> spec_pair_error(
                cs[p],
                cs[q],
            ) is None),
    decreases cs.len() - i, cs.len() - j,
{
    if i >= cs.len() {
    } else if j >= cs.len() {
        lemma_dup_scan_none(cs, i + 1, i + 2);
    } else {
        lemma_dup_scan_none(cs, i, j + 1);
    }
}

/// The whole duplicate sweep passes exactly when, over every ordered pair
/// of distinct clients, both claim lists are duplicate-free and disjoint.
/// With at least two clients this is precisely: no two clients share an
/// identifier, and no client claims an identifier twice.
pub proof fn lemma_duplicate_error_characterization(cs: Seq<Client>)
    ensures
        spec_duplicate_error(cs) is None <==> (forall|p: int, q: int|
            0 <= p < q < cs.len() ==> (dup_free((#[trigger] cs[p]).claimed_ids@) && dup_free(
                (#[trigger] cs[q]).claimed_ids@,
            ) && disjoint_ids(cs[p].claimed_ids@, cs[q].claimed_ids@))),
{
    lemma_dup_scan_none(cs, 0, 1);
    assert forall|p: int, q: int| 0 <= p < q < cs.len() implies (spec_pair_error(cs[p], cs[q])
        is None <==> (dup_free((#[trigger] cs[p]).claimed_ids@) && dup_free(
        (#[trigger] cs[q]).claimed_ids@,
    ) && disjoint_ids(cs[p].claimed_ids@, cs[q].claimed_ids@))) by {
        lemma_pair_error_none(cs[p], cs[q]);
    }
}

/// The goal sweep passes exactly when every client claimed exactly `goal`
/// identifiers.
pub proof fn lemma_goal_error_characterization(cs: Seq<Client>, goal: int)
    ensures
        spec_goal_error(cs, goal) is None <==> (forall|i: int|
            0 <= i < cs.len() ==> (#[trigger] cs[i]).claimed_ids@.len() == goal),
{
    lemma_goal_miss_none(cs, goal, 0);
}

/// Scanning from `i` finds no miss exactly when every client at or past
/// `i` met the goal.
proof fn lemma_goal_miss_none(cs: Seq<Client>, goal: int, i: int)
    requires
        0 <= i <= cs.len(),
    ensures
        first_goal_miss(cs, goal, i) is None <==> (forall|k: int|
            i <= k < cs.len() ==> (#[trigger] cs[k]).claimed_ids@.len() == goal),
    decreases cs.len() - i,
{
    if i < cs.len() {
        lemma_goal_miss_none(cs, goal, i + 1);
    }
}

} // verus!
