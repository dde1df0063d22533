use vstd::prelude::*;

use crate::msg::Addr;
use crate::msg::Id;
use crate::msg::Msg;
use std::collections::HashMap;

verus! {

broadcast use vstd::std_specs::hash::group_hash_axioms;

/// An actor of the protocol: something that consumes one delivered message
/// and produces the replies to send, each paired with its destination.
pub trait Receiver: Sized {
    /// The deliveries this actor accepts. Anything else is a protocol
    /// violation by the driver and is excluded rather than handled.
    spec fn accepts(&self, m: Msg) -> bool;

    /// The exact transition relation: how the state after a delivery and the
    /// outgoing messages relate to the state before it.
    spec fn delivery(pre: Self, m: Msg, from: Addr, post: Self, out: Seq<(Msg, Addr)>) -> bool;

    /// Deliver `m`, sent by `from`; returns the replies in sending order.
    fn receive(&mut self, m: Msg, from: Addr) -> (out: Vec<(Msg, Addr)>)
        requires
            old(self).accepts(m),
        ensures
            Self::delivery(*old(self), m, from, *final(self), out@),
    ;
}

/// A server: accepts a proposed identifier exactly when it strictly exceeds
/// everything this server has seen before.
#[derive(Clone, Debug)]
pub struct Server {
    pub addr: Addr,
    pub highest_id_seen: Id,
}

impl Server {
    /// What one delivery of `Request(id)` does to a server: on a strictly
    /// larger identifier it steps up and answers `Yes(id)`; otherwise it is
    /// unchanged and answers `No(id)`. The reply goes back to the sender.
    pub open spec fn request_transition(
        pre: Server,
        id: Id,
        from: Addr,
        post: Server,
        out: Seq<(Msg, Addr)>,
    ) -> bool {
        if pre.highest_id_seen < id {
            &&& post == (Server { addr: pre.addr, highest_id_seen: id })
            &&& out == seq![(Msg::Yes(id), from)]
        } else {
            &&& post == pre
            &&& out == seq![(Msg::No(id), from)]
        }
    }

    pub fn get_addr(&self) -> (a: Addr)
        ensures
            a == self.addr,
    {
        self.addr.clone()
    }
}

/// A server's `highest_id_seen` never decreases: no delivery it accepts can
/// lower it.
pub proof fn lemma_server_monotonic(pre: Server, id: Id, from: Addr, post: Server, out: Seq<(Msg, Addr)>)
    requires
        Server::request_transition(pre, id, from, post, out),
    ensures
        post.highest_id_seen >= pre.highest_id_seen,
{
}

impl Receiver for Server {
    open spec fn accepts(&self, m: Msg) -> bool {
        m is Request
    }

    open spec fn delivery(pre: Server, m: Msg, from: Addr, post: Server, out: Seq<(Msg, Addr)>) -> bool {
        match m {
            Msg::Request(id) => Server::request_transition(pre, id, from, post, out),
            _ => false,
        }
    }

    fn receive(&mut self, m: Msg, from: Addr) -> (out: Vec<(Msg, Addr)>) {
        match m {
            Msg::Request(id) => {
                if self.highest_id_seen < id {
                    self.highest_id_seen = id;
                    let mut out: Vec<(Msg, Addr)> = Vec::new();
                    out.push((Msg::Yes(id), from));
                    out
                } else {
                    let mut out: Vec<(Msg, Addr)> = Vec::new();
                    out.push((Msg::No(id), from));
                    out
                }
            }
            _ => unreached(),
        }
    }
}

/// A client: broadcasts proposals to its servers, tallies the replies,
/// claims an identifier on a strict majority of `Yes`, and escalates to a
/// fresh, strictly larger identifier once rejection is certain.
#[derive(Clone, Debug)]
pub struct Client {
    pub addr: Addr,
    pub servers: Vec<Addr>,
    /// For each proposed identifier, how many `Yes` and `No` replies arrived.
    pub responses: HashMap<Id, (u64, u64)>,
    pub highest_id_seen: Id,
    pub claimed_ids: Vec<Id>,
}

impl Client {
    /// The strict-majority acceptance threshold over this client's servers.
    pub open spec fn spec_quorum(&self) -> int {
        self.servers@.len() as int / 2 + 1
    }

    /// The smallest rejection count that makes acceptance impossible.
    pub open spec fn spec_reject_threshold(&self) -> int {
        self.servers@.len() as int - self.servers@.len() as int / 2
    }

    /// The reply tally for `id`, `(yes, no)`, defaulting to `(0, 0)`.
    pub open spec fn tally(&self, id: Id) -> (u64, u64) {
        if self.responses@.contains_key(id) {
            self.responses@[id]
        } else {
            (0u64, 0u64)
        }
    }

    /// One `(m, server)` pair per configured server, in configuration order.
    pub open spec fn broadcast_to_servers(servers: Seq<Addr>, m: Msg) -> Seq<(Msg, Addr)> {
        servers.map_values(|a: Addr| (m, a))
    }

    /// Well-formedness: no identifier is claimed twice, and every claimed
    /// identifier has a strict majority of `Yes` replies on record.
    pub open spec fn wf(&self) -> bool {
        &&& forall|i: int, j: int|
            0 <= i < j < self.claimed_ids@.len() ==> self.claimed_ids@[i] != self.claimed_ids@[j]
        &&& forall|i: int|
            0 <= i < self.claimed_ids@.len() ==> self.tally(self.claimed_ids@[i]).0 >= self.spec_quorum()
    }

    /// `StartRequest`: pick the next candidate (one past everything used so
    /// far) and broadcast it to every server, in configuration order.
    pub open spec fn start_transition(pre: Client, post: Client, out: Seq<(Msg, Addr)>) -> bool {
        &&& post.addr == pre.addr
        &&& post.servers == pre.servers
        &&& post.responses == pre.responses
        &&& post.claimed_ids == pre.claimed_ids
        &&& post.highest_id_seen == pre.highest_id_seen + 1
        &&& out == Client::broadcast_to_servers(pre.servers@, Msg::Request(post.highest_id_seen))
    }

    /// `Yes(id)`: bump the yes-tally; append `id` to the claimed list exactly
    /// when the new tally first reaches the strict majority. No replies.
    pub open spec fn yes_transition(pre: Client, id: Id, post: Client, out: Seq<(Msg, Addr)>) -> bool {
        let y = pre.tally(id).0;
        let n = pre.tally(id).1;
        &&& post.addr == pre.addr
        &&& post.servers == pre.servers
        &&& post.highest_id_seen == pre.highest_id_seen
        &&& post.responses@ == pre.responses@.insert(id, ((y + 1) as u64, n))
        &&& post.claimed_ids@ == if y + 1 == pre.spec_quorum() {
            pre.claimed_ids@.push(id)
        } else {
            pre.claimed_ids@
        }
        &&& out == Seq::<(Msg, Addr)>::empty()
    }

    /// `No(id)`: bump the no-tally; exactly when the new tally first reaches
    /// the reject threshold, the proposal is dead: move to a fresh, strictly
    /// larger identifier and broadcast it to every server.
    pub open spec fn no_transition(pre: Client, id: Id, post: Client, out: Seq<(Msg, Addr)>) -> bool {
        let y = pre.tally(id).0;
        let n = pre.tally(id).1;
        &&& post.addr == pre.addr
        &&& post.servers == pre.servers
        &&& post.claimed_ids == pre.claimed_ids
        &&& post.responses@ == pre.responses@.insert(id, (y, (n + 1) as u64))
        &&& if n + 1 == pre.spec_reject_threshold() {
            &&& post.highest_id_seen == pre.highest_id_seen + 1
            &&& out == Client::broadcast_to_servers(pre.servers@, Msg::Request(post.highest_id_seen))
        } else {
            &&& post.highest_id_seen == pre.highest_id_seen
            &&& out == Seq::<(Msg, Addr)>::empty()
        }
    }

    pub fn get_addr(&self) -> (a: Addr)
        ensures
            a == self.addr,
    {
        self.addr.clone()
    }

    /// The reply tally for `id`, defaulting to `(0, 0)` when none is recorded.
    fn tally_of(&self, id: Id) -> (t: (u64, u64))
        ensures
            t == self.tally(id),
    {
        match self.responses.get(&id) {
            Some(p) => *p,
            None => (0, 0),
        }
    }

    /// Pair `m` with every configured server address, in order.
    fn to_all_servers(&self, m: Msg) -> (out: Vec<(Msg, Addr)>)
        ensures
            out@ == Client::broadcast_to_servers(self.servers@, m),
    {
        let mut out: Vec<(Msg, Addr)> = Vec::new();
        let mut j: usize = 0;
        while j < self.servers.len()
            invariant
                j <= self.servers@.len(),
                out@ == Client::broadcast_to_servers(self.servers@.take(j as int), m),
            decreases self.servers@.len() - j,
        {
            out.push((m, self.servers[j].clone()));
            proof {
                assert(self.servers@.take(j as int + 1).map_values(|a: Addr| (m, a))
                    =~= self.servers@.take(j as int).map_values(|a: Addr| (m, a)).push(
                    (m, self.servers@[j as int]),
                ));
            }
            j += 1;
        }
        proof {
            assert(self.servers@.take(self.servers@.len() as int) =~= self.servers@);
        }
        out
    }
}

/// Every delivery a client accepts preserves its well-formedness; in
/// particular, the claimed-identifier list never picks up a duplicate: an
/// identifier is appended only on the delivery that first completes its
/// strict majority, and a claimed identifier's majority never goes away.
pub proof fn lemma_client_delivery_preserves_wf(
    pre: Client,
    m: Msg,
    from: Addr,
    post: Client,
    out: Seq<(Msg, Addr)>,
)
    requires
        pre.wf(),
        pre.accepts(m),
        <Client as Receiver>::delivery(pre, m, from, post, out),
    ensures
        post.wf(),
{
    match m {
        Msg::StartRequest => {
            assert(post.claimed_ids@ == pre.claimed_ids@);
            assert(forall|id: Id| post.tally(id) == pre.tally(id));
        }
        Msg::Yes(id) => {
            let y = pre.tally(id).0;
            assert(forall|c: Id| c != id ==> post.tally(c) == pre.tally(c));
            assert(post.tally(id) == ((y + 1) as u64, pre.tally(id).1));
            if y + 1 == pre.spec_quorum() {
                assert(forall|i: int| 0 <= i < pre.claimed_ids@.len()
                    ==> #[trigger] pre.claimed_ids@[i] != id);
                assert(post.claimed_ids@ == pre.claimed_ids@.push(id));
            } else {
                assert(post.claimed_ids@ == pre.claimed_ids@);
            }
            assert(forall|i: int| 0 <= i < post.claimed_ids@.len()
                ==> post.tally(#[trigger] post.claimed_ids@[i]).0
                    >= pre.tally(post.claimed_ids@[i]).0);
        }
        Msg::No(id) => {
            assert(forall|c: Id| c != id ==> post.tally(c) == pre.tally(c));
            assert(post.tally(id).0 == pre.tally(id).0);
            assert(post.claimed_ids@ == pre.claimed_ids@);
        }
        Msg::Request(_) => {
        }
    }
}

/// A claim is registered only by a `Yes(id)` delivery, only for that very
/// identifier, and only on the delivery that brings its `Yes` tally to
/// exactly the strict-majority threshold: the quorum-th acceptance, no
/// earlier and no later.
pub proof fn lemma_claim_needs_quorum(
    pre: Client,
    m: Msg,
    from: Addr,
    post: Client,
    out: Seq<(Msg, Addr)>,
)
    requires
        <Client as Receiver>::delivery(pre, m, from, post, out),
        post.claimed_ids@ != pre.claimed_ids@,
    ensures
        m matches Msg::Yes(id) && post.claimed_ids@ == pre.claimed_ids@.push(id)
            && pre.tally(id).0 + 1 == pre.spec_quorum(),
{
    match m {
        Msg::StartRequest => {
            assert(post.claimed_ids@ == pre.claimed_ids@);
        }
        Msg::Yes(id) => {
            if pre.tally(id).0 + 1 != pre.spec_quorum() {
                assert(post.claimed_ids@ == pre.claimed_ids@);
            }
        }
        Msg::No(id) => {
            assert(post.claimed_ids@ == pre.claimed_ids@);
        }
        Msg::Request(_) => {
        }
    }
}

impl Receiver for Client {
    open spec fn accepts(&self, m: Msg) -> bool {
        match m {
            Msg::StartRequest => self.highest_id_seen < u64::MAX,
            Msg::Yes(id) => self.tally(id).0 < u64::MAX,
            Msg::No(id) => self.tally(id).1 < u64::MAX && (self.tally(id).1 + 1
                == self.spec_reject_threshold() ==> self.highest_id_seen < u64::MAX),
            Msg::Request(_) => false,
        }
    }

    open spec fn delivery(pre: Client, m: Msg, from: Addr, post: Client, out: Seq<(Msg, Addr)>) -> bool {
        match m {
            Msg::StartRequest => Client::start_transition(pre, post, out),
            Msg::Yes(id) => Client::yes_transition(pre, id, post, out),
            Msg::No(id) => Client::no_transition(pre, id, post, out),
            Msg::Request(_) => false,
        }
    }

    fn receive(&mut self, m: Msg, _addr: Addr) -> (out: Vec<(Msg, Addr)>) {
        match m {
            Msg::StartRequest => {
                self.highest_id_seen = self.highest_id_seen + 1;
                self.to_all_servers(Msg::Request(self.highest_id_seen))
            }
            Msg::Yes(id) => {
                let t = self.tally_of(id);
                let new_yes = t.0 + 1;
                self.responses.insert(id, (new_yes, t.1));
                // '==' not '>=', so a stray late Yes can never claim twice.
                let quorum = self.servers.len() as u64 / 2 + 1;
                if new_yes == quorum {
                    self.claimed_ids.push(id);
                }
                Vec::new()
            }
            Msg::No(id) => {
                let t = self.tally_of(id);
                let new_no = t.1 + 1;
                self.responses.insert(id, (t.0, new_no));
                // The smallest count that rules a strict majority out.
                let reject_at = self.servers.len() as u64 - self.servers.len() as u64 / 2;
                if new_no == reject_at {
                    self.highest_id_seen = self.highest_id_seen + 1;
                    return self.to_all_servers(Msg::Request(self.highest_id_seen));
                }
                Vec::new()
            }
            Msg::Request(_) => unreached(),
        }
    }
}

} // verus!
