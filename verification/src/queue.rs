use vstd::prelude::*;

use crate::msg::Addr;
use crate::msg::Msg;
use crate::msg::Timestamp;

verus! {

/// A message in flight: who sent it, where it goes, what it says, and the
/// logical time at which it is delivered.
#[derive(Clone, Debug)]
pub struct Envelope {
    pub from: Addr,
    pub to: Addr,
    pub msg: Msg,
    pub time: Timestamp,
}

/// The index a pop of the queue must serve: the first position holding the
/// minimal delivery time, so that equal times leave in insertion order.
pub open spec fn first_min_index(s: Seq<Envelope>) -> int
    recommends
        s.len() > 0,
    decreases s.len(),
{
    if s.len() <= 1 {
        0
    } else {
        let rest = first_min_index(s.drop_first()) + 1;
        if s[0].time <= s[rest].time {
            0
        } else {
            rest
        }
    }
}

/// `first_min_index` is in range, picks a minimal time, and everything
/// before it is strictly later.
pub proof fn lemma_first_min_index(s: Seq<Envelope>)
    requires
        s.len() > 0,
    ensures
        0 <= first_min_index(s) < s.len(),
        forall|i: int| 0 <= i < s.len() ==> s[first_min_index(s)].time <= #[trigger] s[i].time,
        forall|i: int| 0 <= i < first_min_index(s) ==> s[first_min_index(s)].time < #[trigger] s[i].time,
    decreases s.len(),
{
    if s.len() > 1 {
        let rest = s.drop_first();
        lemma_first_min_index(rest);
        assert(forall|i: int| 0 <= i < rest.len() ==> rest[i] == s[i + 1]);
        let f1 = first_min_index(rest);
        let r = f1 + 1;
        assert(s[r] == rest[f1]);
        assert(forall|i: int| 1 <= i < s.len() ==> s[r].time <= #[trigger] s[i].time) by {
            assert(forall|i: int| 1 <= i < s.len() ==> s[i] == rest[i - 1]);
        }
        assert(forall|i: int| 1 <= i < r ==> s[r].time < #[trigger] s[i].time) by {
            assert(forall|i: int| 1 <= i < s.len() ==> s[i] == rest[i - 1]);
        }
        if s[0].time <= s[r].time {
            assert(first_min_index(s) == 0);
        } else {
            assert(first_min_index(s) == r);
        }
    }
}

/// Being in range, minimal, and strictly below everything earlier pins the
/// index down: it is exactly `first_min_index`.
pub proof fn lemma_first_min_index_unique(s: Seq<Envelope>, k: int)
    requires
        0 <= k < s.len(),
        forall|i: int| 0 <= i < s.len() ==> s[k].time <= #[trigger] s[i].time,
        forall|i: int| 0 <= i < k ==> s[k].time < #[trigger] s[i].time,
    ensures
        k == first_min_index(s),
{
    lemma_first_min_index(s);
    let f = first_min_index(s);
    assert(s[k].time == s[f].time);
}

/// The time-ordered buffer of in-flight envelopes. A pop removes the
/// envelope with the smallest delivery time; among equal times the earliest
/// inserted leaves first.
pub struct EnvelopeQueue {
    items: Vec<Envelope>,
}

impl View for EnvelopeQueue {
    type V = Seq<Envelope>;

    closed spec fn view(&self) -> Seq<Envelope> {
        self.items@
    }
}

impl EnvelopeQueue {
    pub fn new() -> (q: EnvelopeQueue)
        ensures
            q@ == Seq::<Envelope>::empty(),
    {
        EnvelopeQueue { items: Vec::new() }
    }

    pub fn len(&self) -> (n: usize)
        ensures
            n == self@.len(),
    {
        self.items.len()
    }

    /// Append an envelope; it ranks after everything already queued at the
    /// same delivery time.
    pub fn push(&mut self, e: Envelope)
        ensures
            final(self)@ == old(self)@.push(e),
    {
        self.items.push(e);
    }

    /// Remove and return the envelope with the smallest delivery time,
    /// breaking ties by insertion order.
    pub fn pop_min(&mut self) -> (e: Envelope)
        requires
            old(self)@.len() > 0,
        ensures
            e == old(self)@[first_min_index(old(self)@)],
            final(self)@ == old(self)@.remove(first_min_index(old(self)@)),
    {
        let ghost s = self.items@;
        let mut k: usize = 0;
        let mut j: usize = 1;
        while j < self.items.len()
            invariant
                self.items@ == s,
                0 < j <= s.len(),
                k < j,
                forall|i: int| 0 <= i < j ==> s[k as int].time <= #[trigger] s[i].time,
                forall|i: int| 0 <= i < k ==> s[k as int].time < #[trigger] s[i].time,
            decreases s.len() - j,
        {
            if self.items[j].time < self.items[k].time {
                k = j;
            }
            j += 1;
        }
        proof {
            lemma_first_min_index_unique(s, k as int);
        }
        self.items.remove(k)
    }
}

} // verus!
