use vstd::prelude::*;

use crate::actor::Client;
use crate::actor::Receiver;
use crate::actor::Server;
use crate::msg::Addr;
use crate::msg::Id;
use crate::msg::Msg;
use crate::queue::Envelope;
use crate::queue::first_min_index;
use crate::rng::delay_of;
use crate::rng::stream_after;
use crate::rng::stream_next;
use crate::text::spec_client_addr;
use crate::text::spec_server_addr;

verus! {

/// A mathematical replay of the driver. Every piece of simulator state is
/// mirrored here as a plain value, with each address taken as its character
/// sequence, so that a whole run is a function of the constructor's four
/// arguments: `spec_step` replays one delivery exactly as `process_item`
/// performs it, and `spec_run` replays the pump loop exactly as `run` does.
/// The driver's contracts equate the implementation with this replay; the
/// determinism, dispatch, clock and scheduling rules are all consequences.

/// A client, with addresses as character sequences.
#[verifier::ext_equal]
pub ghost struct ClientModel {
    pub addr: Seq<char>,
    pub servers: Seq<Seq<char>>,
    pub responses: Map<Id, (u64, u64)>,
    pub highest_id_seen: Id,
    pub claimed_ids: Seq<Id>,
}

/// A server, with its address as a character sequence.
#[verifier::ext_equal]
pub ghost struct ServerModel {
    pub addr: Seq<char>,
    pub highest_id_seen: Id,
}

/// An in-flight envelope, with addresses as character sequences.
#[verifier::ext_equal]
pub ghost struct EnvelopeModel {
    pub from: Seq<char>,
    pub to: Seq<char>,
    pub msg: Msg,
    pub time: u64,
}

impl Client {
    /// The mathematical mirror of this client.
    pub open spec fn model(&self) -> ClientModel {
        ClientModel {
            addr: self.addr@,
            servers: self.servers@.map_values(|a: Addr| a@),
            responses: self.responses@,
            highest_id_seen: self.highest_id_seen,
            claimed_ids: self.claimed_ids@,
        }
    }
}

impl Server {
    /// The mathematical mirror of this server.
    pub open spec fn model(&self) -> ServerModel {
        ServerModel { addr: self.addr@, highest_id_seen: self.highest_id_seen }
    }
}

impl Envelope {
    /// The mathematical mirror of this envelope.
    pub open spec fn model(&self) -> EnvelopeModel {
        EnvelopeModel { from: self.from@, to: self.to@, msg: self.msg, time: self.time }
    }
}

pub open spec fn clients_model(cs: Seq<Client>) -> Seq<ClientModel> {
    cs.map_values(|c: Client| c.model())
}

pub open spec fn servers_model(ss: Seq<Server>) -> Seq<ServerModel> {
    ss.map_values(|s: Server| s.model())
}

pub open spec fn queue_model(q: Seq<Envelope>) -> Seq<EnvelopeModel> {
    q.map_values(|e: Envelope| e.model())
}

/// The model tally for `id`, `(yes, no)`, defaulting to `(0, 0)`.
pub open spec fn model_tally(c: ClientModel, id: Id) -> (u64, u64) {
    if c.responses.contains_key(id) {
        c.responses[id]
    } else {
        (0u64, 0u64)
    }
}

/// One `(m, server)` pair per configured server, in configuration order.
pub open spec fn model_broadcast(servers: Seq<Seq<char>>, m: Msg) -> Seq<(Msg, Seq<char>)> {
    servers.map_values(|a: Seq<char>| (m, a))
}

/// One client delivery as a function: the new client state and the replies,
/// mirroring `Client`'s transition relations clause for clause.
pub open spec fn client_model_step(c: ClientModel, m: Msg) -> (ClientModel, Seq<(Msg, Seq<char>)>) {
    match m {
        Msg::StartRequest => {
            let h = (c.highest_id_seen + 1) as u64;
            (
                ClientModel {
                    addr: c.addr,
                    servers: c.servers,
                    responses: c.responses,
                    highest_id_seen: h,
                    claimed_ids: c.claimed_ids,
                },
                model_broadcast(c.servers, Msg::Request(h)),
            )
        }
        Msg::Yes(id) => {
            let y = model_tally(c, id).0;
            let n = model_tally(c, id).1;
            let claimed = if y + 1 == c.servers.len() as int / 2 + 1 {
                c.claimed_ids.push(id)
            } else {
                c.claimed_ids
            };
            (
                ClientModel {
                    addr: c.addr,
                    servers: c.servers,
                    responses: c.responses.insert(id, (((y + 1) as u64), n)),
                    highest_id_seen: c.highest_id_seen,
                    claimed_ids: claimed,
                },
                Seq::<(Msg, Seq<char>)>::empty(),
            )
        }
        Msg::No(id) => {
            let y = model_tally(c, id).0;
            let n = model_tally(c, id).1;
            let responses = c.responses.insert(id, (y, ((n + 1) as u64)));
            if n + 1 == c.servers.len() as int - c.servers.len() as int / 2 {
                let h = (c.highest_id_seen + 1) as u64;
                (
                    ClientModel {
                        addr: c.addr,
                        servers: c.servers,
                        responses: responses,
                        highest_id_seen: h,
                        claimed_ids: c.claimed_ids,
                    },
                    model_broadcast(c.servers, Msg::Request(h)),
                )
            } else {
                (
                    ClientModel {
                        addr: c.addr,
                        servers: c.servers,
                        responses: responses,
                        highest_id_seen: c.highest_id_seen,
                        claimed_ids: c.claimed_ids,
                    },
                    Seq::<(Msg, Seq<char>)>::empty(),
                )
            }
        }
        Msg::Request(_) => (c, Seq::<(Msg, Seq<char>)>::empty()),
    }
}

/// One server delivery as a function, mirroring `request_transition`.
pub open spec fn server_model_step(s: ServerModel, m: Msg, from: Seq<char>) -> (
    ServerModel,
    Seq<(Msg, Seq<char>)>,
) {
    match m {
        Msg::Request(id) => {
            if s.highest_id_seen < id {
                (
                    ServerModel { addr: s.addr, highest_id_seen: id },
                    seq![(Msg::Yes(id), from)],
                )
            } else {
                (s, seq![(Msg::No(id), from)])
            }
        }
        _ => (s, Seq::<(Msg, Seq<char>)>::empty()),
    }
}

/// The whole driver state as plain values.
#[verifier::ext_equal]
pub ghost struct SimModel {
    pub clients: Seq<ClientModel>,
    pub servers: Seq<ServerModel>,
    pub queue: Seq<EnvelopeModel>,
    pub goal_per_client: u64,
    pub oracle: u64,
    pub time: u64,
    pub delivered: u64,
}

/// The world `Simulator::new(nc, ns, ni, seed)` builds, as a model state:
/// fresh actors under their numeric addresses, and one `StartRequest` per
/// client per identifier round, in round-major order, each stamped one
/// past a successive draw of the seeded stream. A whole run is therefore
/// `spec_run` of this state: a function of the four arguments alone.
pub open spec fn spec_initial(nc: u64, ns: u64, ni: u64, seed: u64) -> SimModel {
    SimModel {
        clients: Seq::new(
            nc as nat,
            |k: int|
                ClientModel {
                    addr: spec_client_addr(k + 1),
                    servers: Seq::new(ns as nat, |j: int| spec_server_addr(j + 1)),
                    responses: Map::<Id, (u64, u64)>::empty(),
                    highest_id_seen: 0,
                    claimed_ids: Seq::<Id>::empty(),
                },
        ),
        servers: Seq::new(
            ns as nat,
            |k: int| ServerModel { addr: spec_server_addr(k + 1), highest_id_seen: 0 },
        ),
        queue: Seq::new(
            (ni * nc) as nat,
            |i: int|
                EnvelopeModel {
                    from: "simulator"@,
                    to: spec_client_addr(i % (nc as int) + 1),
                    msg: Msg::StartRequest,
                    time: ((1 + delay_of(stream_after(seed, (i + 1) as nat))) as u64),
                },
        ),
        goal_per_client: ni,
        oracle: stream_after(seed, (ni * nc) as nat),
        time: 0,
        delivered: 0,
    }
}

/// The progress budget of a model state.
pub open spec fn model_budget(s: SimModel) -> int {
    s.goal_per_client as int * s.servers.len() as int * s.clients.len() as int * 100
}

/// The index a pop serves: the first position holding the minimal delivery
/// time (the model twin of `first_min_index`).
pub open spec fn model_first_min_index(q: Seq<EnvelopeModel>) -> int
    recommends
        q.len() > 0,
    decreases q.len(),
{
    if q.len() <= 1 {
        0
    } else {
        let rest = model_first_min_index(q.drop_first()) + 1;
        if q[0].time <= q[rest].time {
            0
        } else {
            rest
        }
    }
}

/// The first client whose address reads `a`; the length when there is none.
pub open spec fn client_index_from(cs: Seq<ClientModel>, a: Seq<char>, k: int) -> int
    decreases cs.len() - k,
{
    if k < 0 || k >= cs.len() {
        cs.len() as int
    } else if cs[k].addr == a {
        k
    } else {
        client_index_from(cs, a, k + 1)
    }
}

/// The first server whose address reads `a`; the length when there is none.
pub open spec fn server_index_from(ss: Seq<ServerModel>, a: Seq<char>, k: int) -> int
    decreases ss.len() - k,
{
    if k < 0 || k >= ss.len() {
        ss.len() as int
    } else if ss[k].addr == a {
        k
    } else {
        server_index_from(ss, a, k + 1)
    }
}

/// Wrap the replies in envelopes, in reply order: the `j`-th reply is
/// stamped `t` plus the `j`-th subsequent delay draw, one draw per reply.
/// Yields the extended queue and the advanced stream state.
pub open spec fn enqueue_replies(
    q: Seq<EnvelopeModel>,
    out: Seq<(Msg, Seq<char>)>,
    from: Seq<char>,
    t: u64,
    oracle: u64,
) -> (Seq<EnvelopeModel>, u64)
    decreases out.len(),
{
    if out.len() == 0 {
        (q, oracle)
    } else {
        let o2 = stream_next(oracle);
        let env = EnvelopeModel {
            from: from,
            to: out[0].1,
            msg: out[0].0,
            time: ((t + delay_of(o2)) as u64),
        };
        enqueue_replies(q.push(env), out.drop_first(), from, t, o2)
    }
}

/// One delivery of an already-popped envelope, exactly as the driver
/// performs it: route by message variant to the first actor of the right
/// kind named by `e.to`, let it step, advance the clock to `e.time + 1`,
/// count the delivery, and requeue every reply with a fresh draw.
pub open spec fn spec_deliver(s: SimModel, e: EnvelopeModel) -> SimModel {
    let t = (e.time + 1) as u64;
    let d2 = (s.delivered + 1) as u64;
    match e.msg {
        Msg::Request(_) => {
            let k = server_index_from(s.servers, e.to, 0);
            let r = server_model_step(s.servers[k], e.msg, e.from);
            let qo = enqueue_replies(s.queue, r.1, s.servers[k].addr, t, s.oracle);
            SimModel {
                clients: s.clients,
                servers: s.servers.update(k, r.0),
                queue: qo.0,
                goal_per_client: s.goal_per_client,
                oracle: qo.1,
                time: t,
                delivered: d2,
            }
        }
        _ => {
            let k = client_index_from(s.clients, e.to, 0);
            let r = client_model_step(s.clients[k], e.msg);
            let qo = enqueue_replies(s.queue, r.1, s.clients[k].addr, t, s.oracle);
            SimModel {
                clients: s.clients.update(k, r.0),
                servers: s.servers,
                queue: qo.0,
                goal_per_client: s.goal_per_client,
                oracle: qo.1,
                time: t,
                delivered: d2,
            }
        }
    }
}

/// One iteration of the pump: pop the first minimal-time envelope and
/// deliver it.
pub open spec fn spec_step(s: SimModel) -> SimModel
    recommends
        s.queue.len() > 0,
{
    let i = model_first_min_index(s.queue);
    let e = s.queue[i];
    let popped = SimModel {
        clients: s.clients,
        servers: s.servers,
        queue: s.queue.remove(i),
        goal_per_client: s.goal_per_client,
        oracle: s.oracle,
        time: s.time,
        delivered: s.delivered,
    };
    spec_deliver(popped, e)
}

/// The whole run: pump until the queue drains (success) or the clock
/// passes the budget (failure; also, far beyond any practical run, when
/// the delivery counter would overflow). Returns whether the run
/// succeeded, and the final state.
pub open spec fn spec_run(s: SimModel) -> (bool, SimModel)
    decreases u64::MAX - s.delivered,
{
    if s.queue.len() == 0 {
        (true, s)
    } else if model_budget(s) < s.time {
        (false, s)
    } else if s.delivered == u64::MAX {
        (false, s)
    } else {
        spec_run(spec_step(s))
    }
}

/// The model pop agrees with the implementation's: mirroring the queue
/// envelope for envelope preserves the first-minimal-time index.
pub proof fn lemma_model_first_min_index(q: Seq<Envelope>)
    requires
        q.len() > 0,
    ensures
        model_first_min_index(queue_model(q)) == first_min_index(q),
    decreases q.len(),
{
    if q.len() > 1 {
        crate::queue::lemma_first_min_index(q.drop_first());
        lemma_model_first_min_index(q.drop_first());
        assert(queue_model(q).drop_first() =~= queue_model(q.drop_first()));
        let rest = first_min_index(q.drop_first()) + 1;
        assert(0 <= rest < q.len());
        assert(queue_model(q)[0].time == q[0].time);
        assert(queue_model(q)[rest].time == q[rest].time);
    }
}

/// Mirroring commutes with removal at an index.
pub proof fn lemma_queue_model_remove(q: Seq<Envelope>, i: int)
    requires
        0 <= i < q.len(),
    ensures
        queue_model(q.remove(i)) =~= queue_model(q).remove(i),
{
}

/// A first-match scan that stops at `k` pins the model's client index.
pub proof fn lemma_client_index_pins(cs: Seq<ClientModel>, a: Seq<char>, k: int)
    requires
        0 <= k < cs.len(),
        cs[k].addr == a,
        forall|i: int| 0 <= i < k ==> (#[trigger] cs[i]).addr != a,
    ensures
        client_index_from(cs, a, 0) == k,
{
    lemma_client_index_step(cs, a, 0, k);
}

proof fn lemma_client_index_step(cs: Seq<ClientModel>, a: Seq<char>, j: int, k: int)
    requires
        0 <= j <= k < cs.len(),
        cs[k].addr == a,
        forall|i: int| 0 <= i < k ==> (#[trigger] cs[i]).addr != a,
    ensures
        client_index_from(cs, a, j) == k,
    decreases k - j,
{
    if j < k {
        lemma_client_index_step(cs, a, j + 1, k);
    }
}

/// A first-match scan that stops at `k` pins the model's server index.
pub proof fn lemma_server_index_pins(ss: Seq<ServerModel>, a: Seq<char>, k: int)
    requires
        0 <= k < ss.len(),
        ss[k].addr == a,
        forall|i: int| 0 <= i < k ==> (#[trigger] ss[i]).addr != a,
    ensures
        server_index_from(ss, a, 0) == k,
{
    lemma_server_index_step(ss, a, 0, k);
}

proof fn lemma_server_index_step(ss: Seq<ServerModel>, a: Seq<char>, j: int, k: int)
    requires
        0 <= j <= k < ss.len(),
        ss[k].addr == a,
        forall|i: int| 0 <= i < k ==> (#[trigger] ss[i]).addr != a,
    ensures
        server_index_from(ss, a, j) == k,
    decreases k - j,
{
    if j < k {
        lemma_server_index_step(ss, a, j + 1, k);
    }
}

/// A client delivery that satisfies the transition relation computes
/// exactly the functional model step.
pub proof fn lemma_client_step_model(pre: Client, m: Msg, from: Addr, post: Client, out: Seq<(Msg, Addr)>)
    requires
        <Client as Receiver>::delivery(pre, m, from, post, out),
    ensures
        post.model() == client_model_step(pre.model(), m).0,
        out.map_values(|r: (Msg, Addr)| (r.0, r.1@)) == client_model_step(pre.model(), m).1,
{
    assert(pre.model().servers.len() == pre.servers@.len());
    match m {
        Msg::StartRequest => {
            assert(post.model() =~~= client_model_step(pre.model(), m).0);
            lemma_broadcast_model(pre.servers@, out, Msg::Request(post.highest_id_seen));
        }
        Msg::Yes(id) => {
            assert(model_tally(pre.model(), id) == pre.tally(id));
            assert(post.model() =~~= client_model_step(pre.model(), m).0);
            assert(out.map_values(|r: (Msg, Addr)| (r.0, r.1@)) =~= client_model_step(
                pre.model(),
                m,
            ).1);
        }
        Msg::No(id) => {
            assert(model_tally(pre.model(), id) == pre.tally(id));
            assert(post.model() =~~= client_model_step(pre.model(), m).0);
            if pre.tally(id).1 + 1 == pre.spec_reject_threshold() {
                lemma_broadcast_model(pre.servers@, out, Msg::Request(post.highest_id_seen));
            } else {
                assert(out.map_values(|r: (Msg, Addr)| (r.0, r.1@)) =~= client_model_step(
                    pre.model(),
                    m,
                ).1);
            }
        }
        Msg::Request(_) => {
        }
    }
}

/// Mirroring a broadcast gives the model broadcast.
proof fn lemma_broadcast_model(servers: Seq<Addr>, out: Seq<(Msg, Addr)>, m: Msg)
    requires
        out == Client::broadcast_to_servers(servers, m),
    ensures
        out.map_values(|r: (Msg, Addr)| (r.0, r.1@)) == model_broadcast(
            servers.map_values(|a: Addr| a@),
            m,
        ),
{
    assert(out.map_values(|r: (Msg, Addr)| (r.0, r.1@)) =~= model_broadcast(
        servers.map_values(|a: Addr| a@),
        m,
    ));
}

/// A server delivery that satisfies the transition relation computes
/// exactly the functional model step.
pub proof fn lemma_server_step_model(pre: Server, m: Msg, from: Addr, post: Server, out: Seq<(Msg, Addr)>)
    requires
        <Server as Receiver>::delivery(pre, m, from, post, out),
    ensures
        post.model() == server_model_step(pre.model(), m, from@).0,
        out.map_values(|r: (Msg, Addr)| (r.0, r.1@)) == server_model_step(pre.model(), m, from@).1,
{
    match m {
        Msg::Request(id) => {
            assert(out.map_values(|r: (Msg, Addr)| (r.0, r.1@)) =~= server_model_step(
                pre.model(),
                m,
                from@,
            ).1);
        }
        _ => {
        }
    }
}

/// Mirroring commutes with updating one actor.
pub proof fn lemma_clients_model_update(cs: Seq<Client>, k: int, c: Client)
    requires
        0 <= k < cs.len(),
    ensures
        clients_model(cs.update(k, c)) =~= clients_model(cs).update(k, c.model()),
{
}

pub proof fn lemma_servers_model_update(ss: Seq<Server>, k: int, s: Server)
    requires
        0 <= k < ss.len(),
    ensures
        servers_model(ss.update(k, s)) =~= servers_model(ss).update(k, s.model()),
{
}

} // verus!
