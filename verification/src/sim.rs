use vstd::prelude::*;

use crate::actor::Client;
use crate::model::EnvelopeModel;
use crate::model::SimModel;
use crate::model::clients_model;
use crate::model::enqueue_replies;
use crate::model::queue_model;
use crate::model::servers_model;
use crate::model::spec_deliver;
use crate::model::spec_run;
use crate::model::spec_step;
use crate::actor::Receiver;
use crate::actor::Server;
use crate::msg::Addr;
use crate::msg::Id;
use crate::msg::Msg;
use crate::msg::Timestamp;
use crate::queue::Envelope;
use crate::queue::EnvelopeQueue;
use crate::queue::lemma_first_min_index;
use crate::rng::DelayOracle;
use crate::rng::delay_of;
use crate::rng::stream_next;
use crate::rng::stream_after;
use crate::text::client_addr;
use crate::text::server_addr;
use crate::text::simulator_addr;
use crate::text::spec_client_addr;
use crate::text::spec_server_addr;
use crate::text::too_many_iterations_msg;
use std::collections::HashMap;

verus! {

/// With at least one server, the number of seeded envelopes is within the
/// budget product that the constructor's precondition bounds.
proof fn lemma_seed_count_bound(c: int, s: int, i: int)
    requires
        c >= 1,
        s >= 1,
        i >= 1,
    ensures
        c * i <= c * s * i * 100,
{
    assert(c * i <= c * s * i * 100) by (nonlinear_arith)
        requires
            c >= 1,
            s >= 1,
            i >= 1,
    ;
}

/// Within the constructor's budget bound, every partial product of the
/// budget factors stays within it too, so the budget can be computed in
/// 64 bits.
proof fn lemma_budget_partials(g: int, s: int, c: int)
    requires
        g >= 1,
        s >= 1,
        c >= 1,
        g * s * c * 100 <= 0x1000_0000_0000_0000,
    ensures
        g * s <= 0x1000_0000_0000_0000,
        g * s * c <= 0x1000_0000_0000_0000,
{
    assert(g * s <= g * s * c * 100 && g * s * c <= g * s * c * 100) by (nonlinear_arith)
        requires
            g >= 1,
            s >= 1,
            c >= 1,
    ;
}

/// Rearranging actors without touching their addresses keeps every name
/// resolvable.
proof fn lemma_addrs_preserved(pre: Simulator, post: Simulator)
    requires
        post.clients@ == pre.clients@,
        post.servers@ == pre.servers@,
    ensures
        forall|a: Seq<char>| #[trigger] pre.addr_is_client(a) ==> post.addr_is_client(a),
        forall|a: Seq<char>| #[trigger] pre.addr_is_server(a) ==> post.addr_is_server(a),
{
    assert forall|a: Seq<char>| pre.addr_is_client(a) implies post.addr_is_client(a) by {
        let w = choose|k: int|
            0 <= k < pre.clients@.len() && (#[trigger] pre.clients@[k]).addr@ == a;
        assert(post.clients@[w].addr@ == a);
    }
    assert forall|a: Seq<char>| pre.addr_is_server(a) implies post.addr_is_server(a) by {
        let w = choose|k: int|
            0 <= k < pre.servers@.len() && (#[trigger] pre.servers@[k]).addr@ == a;
        assert(post.servers@[w].addr@ == a);
    }
}

/// The deterministic discrete-event driver: it owns the actors and the
/// envelope queue, pumps deliveries in time order, stamps every reply with a
/// seeded pseudorandom delay, and checks the safety and goal properties of
/// the finished run.
pub struct Simulator {
    in_flight: EnvelopeQueue,
    clients: Vec<Client>,
    servers: Vec<Server>,
    goal_per_client: u64,
    oracle: DelayOracle,
    time: Timestamp,
    delivered: u64,
}

impl Simulator {
    pub closed spec fn spec_clients(&self) -> Seq<Client> {
        self.clients@
    }

    pub closed spec fn spec_servers(&self) -> Seq<Server> {
        self.servers@
    }

    pub closed spec fn spec_queue(&self) -> Seq<Envelope> {
        self.in_flight@
    }

    pub closed spec fn spec_time(&self) -> Timestamp {
        self.time
    }

    pub closed spec fn spec_goal(&self) -> u64 {
        self.goal_per_client
    }

    pub closed spec fn spec_oracle_state(&self) -> u64 {
        self.oracle.spec_state()
    }

    /// How many envelopes have been delivered so far.
    pub closed spec fn spec_delivered(&self) -> u64 {
        self.delivered
    }

    /// The mathematical mirror of the whole driver state: the replay in
    /// `crate::model` runs on this. `new` pins it as a function of the four
    /// construction arguments, and `run` equates the implementation with
    /// `spec_run` over it.
    pub closed spec fn model(&self) -> SimModel {
        SimModel {
            clients: clients_model(self.clients@),
            servers: servers_model(self.servers@),
            queue: queue_model(self.in_flight@),
            goal_per_client: self.goal_per_client,
            oracle: self.oracle.spec_state(),
            time: self.time,
            delivered: self.delivered,
        }
    }

    /// The progress budget: a run whose logical time passes this value is
    /// declared divergent.
    pub closed spec fn spec_budget(&self) -> int {
        self.goal_per_client as int * self.servers@.len() as int * self.clients@.len() as int
            * 100
    }

    /// `a` names one of the clients.
    spec fn addr_is_client(&self, a: Seq<char>) -> bool {
        exists|k: int| 0 <= k < self.clients@.len() && (#[trigger] self.clients@[k]).addr@ == a
    }

    /// `a` names one of the servers.
    spec fn addr_is_server(&self, a: Seq<char>) -> bool {
        exists|k: int| 0 <= k < self.servers@.len() && (#[trigger] self.servers@[k]).addr@ == a
    }

    /// A reply produced by a delivery is routable once wrapped: replies to
    /// clients name a client, proposals name a server and come from a
    /// client, and no actor ever emits `StartRequest`.
    spec fn reply_ok(&self, from: Addr, r: (Msg, Addr)) -> bool {
        match r.0 {
            Msg::StartRequest => false,
            Msg::Yes(_) => self.addr_is_client(r.1@),
            Msg::No(_) => self.addr_is_client(r.1@),
            Msg::Request(_) => self.addr_is_server(r.1@) && self.addr_is_client(from@),
        }
    }

    /// An in-flight envelope is routable (client-bound messages name a
    /// client, proposals name a server and come from a client) and its
    /// delivery time sits in the window the clock advances through.
    spec fn env_ok(&self, e: Envelope) -> bool {
        &&& match e.msg {
            Msg::StartRequest => self.addr_is_client(e.to@),
            Msg::Yes(_) => self.addr_is_client(e.to@),
            Msg::No(_) => self.addr_is_client(e.to@),
            Msg::Request(_) => self.addr_is_server(e.to@) && self.addr_is_client(e.from@),
        }
        &&& e.time <= self.time + 10
        &&& e.time + 1 >= self.time
    }

    /// Every count a delivery bumps by one is bounded by the number of
    /// deliveries so far, so no bump can overflow.
    spec fn client_bounded(c: Client, delivered: u64) -> bool {
        &&& c.highest_id_seen <= delivered
        &&& forall|id: Id| c.responses@.contains_key(id)
            ==> (#[trigger] c.responses@[id]).0 <= delivered && c.responses@[id].1 <= delivered
    }

    /// Every address a client broadcasts to names one of the servers.
    spec fn client_routes_ok(&self, c: Client) -> bool {
        forall|j: int| 0 <= j < c.servers@.len() ==> self.addr_is_server((#[trigger] c.servers@[j])@)
    }

    /// The driver's well-formedness, established at construction and
    /// preserved by every delivery.
    pub closed spec fn inv(&self) -> bool {
        &&& forall|i: int|
            0 <= i < self.in_flight@.len() ==> self.env_ok(#[trigger] self.in_flight@[i])
        &&& forall|k: int| 0 <= k < self.clients@.len() ==> (#[trigger] self.clients@[k]).wf()
        &&& forall|k: int|
            0 <= k < self.clients@.len() ==> Simulator::client_bounded(
                #[trigger] self.clients@[k],
                self.delivered,
            )
        &&& forall|k: int|
            0 <= k < self.clients@.len() ==> self.client_routes_ok(#[trigger] self.clients@[k])
        &&& self.clients@.len() >= 1
        &&& self.servers@.len() >= 1
        &&& self.goal_per_client >= 1
        &&& self.spec_budget() <= 0x1000_0000_0000_0000
        &&& self.time <= self.spec_budget() + 11
    }

    /// The logical clock: the time of the latest delivery, plus one.
    pub fn time(&self) -> (t: Timestamp)
        ensures
            t == self.spec_time(),
    {
        self.time
    }

    /// The clients, in numeric address order.
    pub fn clients(&self) -> (cs: &Vec<Client>)
        ensures
            cs@ == self.spec_clients(),
    {
        &self.clients
    }

    /// The full server address list, in numeric order.
    fn make_server_list(num_servers: u64) -> (list: Vec<Addr>)
        ensures
            list@.len() == num_servers,
            forall|j: int| 0 <= j < num_servers ==> (#[trigger] list@[j])@ == spec_server_addr(j + 1),
    {
        let mut list: Vec<Addr> = Vec::new();
        let mut k: u64 = 0;
        while k < num_servers
            invariant
                k <= num_servers,
                list@.len() == k,
                forall|j: int| 0 <= j < k ==> (#[trigger] list@[j])@ == spec_server_addr(j + 1),
            decreases num_servers - k,
        {
            list.push(server_addr(k + 1));
            k += 1;
        }
        list
    }

    /// All servers, fresh, in numeric address order.
    fn make_servers(num_servers: u64) -> (servers: Vec<Server>)
        ensures
            servers@.len() == num_servers,
            forall|j: int|
                0 <= j < num_servers ==> (#[trigger] servers@[j]).addr@ == spec_server_addr(j + 1)
                    && servers@[j].highest_id_seen == 0,
    {
        let mut servers: Vec<Server> = Vec::new();
        let mut k: u64 = 0;
        while k < num_servers
            invariant
                k <= num_servers,
                servers@.len() == k,
                forall|j: int|
                    0 <= j < k ==> (#[trigger] servers@[j]).addr@ == spec_server_addr(j + 1)
                        && servers@[j].highest_id_seen == 0,
            decreases num_servers - k,
        {
            servers.push(Server { addr: server_addr(k + 1), highest_id_seen: 0 });
            k += 1;
        }
        servers
    }

    /// All clients, fresh, in numeric address order, each configured with
    /// the full server list.
    fn make_clients(num_clients: u64, num_servers: u64) -> (clients: Vec<Client>)
        ensures
            clients@.len() == num_clients,
            forall|j: int|
                0 <= j < num_clients ==> {
                    let c = #[trigger] clients@[j];
                    &&& c.addr@ == spec_client_addr(j + 1)
                    &&& c.servers@.len() == num_servers
                    &&& forall|l: int|
                        0 <= l < num_servers ==> (#[trigger] c.servers@[l])@ == spec_server_addr(
                            l + 1,
                        )
                    &&& c.highest_id_seen == 0
                    &&& c.claimed_ids@.len() == 0
                    &&& c.responses@ == Map::<Id, (u64, u64)>::empty()
                },
    {
        let mut clients: Vec<Client> = Vec::new();
        let mut k: u64 = 0;
        while k < num_clients
            invariant
                k <= num_clients,
                clients@.len() == k,
                forall|j: int|
                    0 <= j < k ==> {
                        let c = #[trigger] clients@[j];
                        &&& c.addr@ == spec_client_addr(j + 1)
                        &&& c.servers@.len() == num_servers
                        &&& forall|l: int|
                            0 <= l < num_servers ==> (#[trigger] c.servers@[l])@
                                == spec_server_addr(l + 1)
                        &&& c.highest_id_seen == 0
                        &&& c.claimed_ids@.len() == 0
                        &&& c.responses@ == Map::<Id, (u64, u64)>::empty()
                    },
            decreases num_clients - k,
        {
            clients.push(
                Client {
                    addr: client_addr(k + 1),
                    servers: Simulator::make_server_list(num_servers),
                    responses: HashMap::new(),
                    highest_id_seen: 0,
                    claimed_ids: Vec::new(),
                },
            );
            k += 1;
        }
        clients
    }

    /// Enqueue one `StartRequest` per client per identifier round, each
    /// stamped `1 + d` for the next delay draw `d`, in round-major order.
    fn seed_start_requests(
        oracle: &mut DelayOracle,
        in_flight: &mut EnvelopeQueue,
        num_clients: u64,
        num_ids_per_client: u64,
        Ghost(network_seed): Ghost<u64>,
    )
        requires
            1 <= num_clients,
            old(in_flight)@.len() == 0,
            old(oracle).spec_state() == network_seed,
            num_clients as int * num_ids_per_client as int <= 0x1000_0000_0000_0000,
        ensures
            final(in_flight)@.len() == num_ids_per_client * num_clients,
            forall|i: int|
                0 <= i < final(in_flight)@.len() ==> {
                    let e = #[trigger] final(in_flight)@[i];
                    &&& e.msg is StartRequest
                    &&& e.from@ == "simulator"@
                    &&& e.to@ == spec_client_addr(i % (num_clients as int) + 1)
                    &&& e.time == 1 + delay_of(stream_after(network_seed, (i + 1) as nat))
                    &&& 2 <= e.time <= 10
                },
            final(oracle).spec_state() == stream_after(
                network_seed,
                (num_ids_per_client * num_clients) as nat,
            ),
    {
        let mut drawn: u64 = 0;
        let mut round: u64 = 0;
        while round < num_ids_per_client
            invariant
                1 <= num_clients,
                round <= num_ids_per_client,
                num_clients as int * num_ids_per_client as int <= 0x1000_0000_0000_0000,
                drawn == round * num_clients,
                oracle.spec_state() == stream_after(network_seed, drawn as nat),
                in_flight@.len() == drawn,
                forall|i: int|
                    0 <= i < drawn ==> {
                        let e = #[trigger] in_flight@[i];
                        &&& e.msg is StartRequest
                        &&& e.from@ == "simulator"@
                        &&& e.to@ == spec_client_addr(i % (num_clients as int) + 1)
                        &&& e.time == 1 + delay_of(stream_after(network_seed, (i + 1) as nat))
                        &&& 2 <= e.time <= 10
                    },
            decreases num_ids_per_client - round,
        {
            proof {
                assert((round + 1) * num_clients == round * num_clients + num_clients
                    && (round + 1) * num_clients <= num_ids_per_client * num_clients
                    && num_ids_per_client * num_clients <= 0x1000_0000_0000_0000)
                    by (nonlinear_arith)
                    requires
                        round + 1 <= num_ids_per_client,
                        num_clients >= 1,
                        num_clients as int * num_ids_per_client as int <= 0x1000_0000_0000_0000,
                ;
            }
            let mut k: u64 = 0;
            while k < num_clients
                invariant
                    1 <= num_clients,
                    k <= num_clients,
                    drawn == round * num_clients + k,
                    round * num_clients + num_clients <= 0x1000_0000_0000_0000,
                    oracle.spec_state() == stream_after(network_seed, drawn as nat),
                    in_flight@.len() == drawn,
                    forall|i: int|
                        0 <= i < drawn ==> {
                            let e = #[trigger] in_flight@[i];
                            &&& e.msg is StartRequest
                            &&& e.from@ == "simulator"@
                            &&& e.to@ == spec_client_addr(i % (num_clients as int) + 1)
                            &&& e.time == 1 + delay_of(stream_after(network_seed, (i + 1) as nat))
                            &&& 2 <= e.time <= 10
                        },
                decreases num_clients - k,
            {
                let d = oracle.next_delay();
                in_flight.push(
                    Envelope {
                        from: simulator_addr(),
                        to: client_addr(k + 1),
                        msg: Msg::StartRequest,
                        time: 1 + d,
                    },
                );
                proof {
                    vstd::arithmetic::div_mod::lemma_mod_multiples_vanish(
                        round as int,
                        k as int,
                        num_clients as int,
                    );
                    vstd::arithmetic::div_mod::lemma_small_mod(k as nat, num_clients as nat);
                }
                drawn += 1;
                k += 1;
            }
            round += 1;
        }
        proof {
            assert(round * num_clients == num_ids_per_client * num_clients);
        }
    }

    /// Build a world of `num_clients` clients and `num_servers` servers, all
    /// fresh, and seed the queue with one `StartRequest` per client per
    /// identifier round, each stamped `1 + d` for the next delay draw `d`.
    #[verifier::rlimit(100)]
    pub fn new(
        num_clients: u64,
        num_servers: u64,
        num_ids_per_client: u64,
        network_seed: u64,
    ) -> (sim: Simulator)
        requires
            1 <= num_clients,
            1 <= num_servers,
            1 <= num_ids_per_client,
            num_clients as int * num_servers as int * num_ids_per_client as int * 100
                <= 0x1000_0000_0000_0000,
        ensures
            sim.inv(),
            sim.spec_time() == 0,
            sim.spec_goal() == num_ids_per_client,
            sim.spec_clients().len() == num_clients,
            sim.spec_servers().len() == num_servers,
            forall|k: int|
                0 <= k < num_clients ==> {
                    let c = #[trigger] sim.spec_clients()[k];
                    &&& c.addr@ == spec_client_addr(k + 1)
                    &&& c.servers@.len() == num_servers
                    &&& forall|j: int|
                        0 <= j < num_servers ==> (#[trigger] c.servers@[j])@ == spec_server_addr(
                            j + 1,
                        )
                    &&& c.highest_id_seen == 0
                    &&& c.claimed_ids@.len() == 0
                    &&& c.responses@ == Map::<Id, (u64, u64)>::empty()
                },
            forall|k: int|
                0 <= k < num_servers ==> {
                    let s = #[trigger] sim.spec_servers()[k];
                    &&& s.addr@ == spec_server_addr(k + 1)
                    &&& s.highest_id_seen == 0
                },
            sim.spec_queue().len() == num_ids_per_client * num_clients,
            forall|i: int|
                0 <= i < sim.spec_queue().len() ==> {
                    let e = #[trigger] sim.spec_queue()[i];
                    &&& e.msg is StartRequest
                    &&& e.from@ == "simulator"@
                    &&& e.to@ == spec_client_addr(i % (num_clients as int) + 1)
                    &&& e.time == 1 + delay_of(stream_after(network_seed, (i + 1) as nat))
                },
            sim.spec_oracle_state() == stream_after(
                network_seed,
                (num_ids_per_client * num_clients) as nat,
            ),
            sim.model() == crate::model::spec_initial(
                num_clients,
                num_servers,
                num_ids_per_client,
                network_seed,
            ),
    {
        proof {
            lemma_seed_count_bound(
                num_clients as int,
                num_servers as int,
                num_ids_per_client as int,
            );
        }
        let servers = Simulator::make_servers(num_servers);
        let clients = Simulator::make_clients(num_clients, num_servers);
        let mut oracle = DelayOracle::seed(network_seed);
        let mut in_flight = EnvelopeQueue::new();
        Simulator::seed_start_requests(
            &mut oracle,
            &mut in_flight,
            num_clients,
            num_ids_per_client,
            Ghost(network_seed),
        );

        let sim = Simulator {
            in_flight,
            clients,
            servers,
            goal_per_client: num_ids_per_client,
            oracle,
            time: 0,
            delivered: 0,
        };
        proof {
            let ids = num_ids_per_client as int;
            let ns = num_servers as int;
            let nc = num_clients as int;
            assert(sim.spec_budget() == ids * ns * nc * 100);
            assert(ids * ns * nc * 100 == nc * ns * ids * 100) by (nonlinear_arith);
            assert(ids * ns * nc * 100 >= 0) by (nonlinear_arith)
                requires
                    ids >= 1,
                    ns >= 1,
                    nc >= 1,
            ;
            assert forall|i: int| 0 <= i < sim.in_flight@.len() implies sim.env_ok(
                #[trigger] sim.in_flight@[i],
            ) by {
                let e = sim.in_flight@[i];
                let c = i % (num_clients as int);
                vstd::arithmetic::div_mod::lemma_mod_bound(i, num_clients as int);
                assert(sim.clients@[c].addr@ == e.to@);
            }
            assert forall|k: int| 0 <= k < sim.clients@.len() implies (
            #[trigger] sim.clients@[k]).wf() by {
                assert(sim.clients@[k].claimed_ids@.len() == 0);
            }
            assert forall|k: int| 0 <= k < sim.clients@.len() implies Simulator::client_bounded(
                #[trigger] sim.clients@[k],
                sim.delivered,
            ) by {
                assert(sim.clients@[k].responses@ == Map::<Id, (u64, u64)>::empty());
                assert forall|id: Id| sim.clients@[k].responses@.contains_key(id) implies (
                #[trigger] sim.clients@[k].responses@[id]).0 <= sim.delivered
                    && sim.clients@[k].responses@[id].1 <= sim.delivered by {
                    assert(!Map::<Id, (u64, u64)>::empty().contains_key(id));
                }
            }
            assert forall|k: int| 0 <= k < sim.clients@.len() implies sim.client_routes_ok(
                #[trigger] sim.clients@[k],
            ) by {
                let c = sim.clients@[k];
                assert forall|j: int| 0 <= j < c.servers@.len() implies sim.addr_is_server(
                    (#[trigger] c.servers@[j])@,
                ) by {
                    assert(sim.servers@[j].addr@ == (c.servers@[j])@);
                }
            }
            let init = crate::model::spec_initial(
                num_clients,
                num_servers,
                num_ids_per_client,
                network_seed,
            );
            assert forall|k: int| 0 <= k < num_clients implies clients_model(sim.clients@)[k]
                == init.clients[k] by {
                assert(clients_model(sim.clients@)[k] =~~= init.clients[k]);
            }
            assert forall|k: int| 0 <= k < num_servers implies servers_model(sim.servers@)[k]
                == init.servers[k] by {
                assert(servers_model(sim.servers@)[k] =~~= init.servers[k]);
            }
            assert forall|i: int| 0 <= i < sim.in_flight@.len() implies queue_model(
                sim.in_flight@,
            )[i] == init.queue[i] by {
                assert(queue_model(sim.in_flight@)[i] =~~= init.queue[i]);
            }
            assert(sim.model() =~~= init);
        }
        sim
    }

    /// The index of the server named `a`; with well-formed routing the scan
    /// cannot fail, and equal names resolve to the first holder.
    fn find_server(&self, a: &Addr) -> (k: usize)
        requires
            self.addr_is_server(a@),
        ensures
            k < self.servers@.len(),
            self.servers@[k as int].addr@ == a@,
            forall|i: int| 0 <= i < k ==> (#[trigger] self.servers@[i]).addr@ != a@,
    {
        let mut k: usize = 0;
        while k < self.servers.len()
            invariant
                k <= self.servers@.len(),
                self.addr_is_server(a@),
                forall|i: int| 0 <= i < k ==> (#[trigger] self.servers@[i]).addr@ != a@,
            decreases self.servers@.len() - k,
        {
            if self.servers[k].addr == *a {
                return k;
            }
            k += 1;
        }
        proof {
            assert(false);
        }
        unreached()
    }

    /// The index of the client named `a`.
    fn find_client(&self, a: &Addr) -> (k: usize)
        requires
            self.addr_is_client(a@),
        ensures
            k < self.clients@.len(),
            self.clients@[k as int].addr@ == a@,
            forall|i: int| 0 <= i < k ==> (#[trigger] self.clients@[i]).addr@ != a@,
    {
        let mut k: usize = 0;
        while k < self.clients.len()
            invariant
                k <= self.clients@.len(),
                self.addr_is_client(a@),
                forall|i: int| 0 <= i < k ==> (#[trigger] self.clients@[i]).addr@ != a@,
            decreases self.clients@.len() - k,
        {
            if self.clients[k].addr == *a {
                return k;
            }
            k += 1;
        }
        proof {
            assert(false);
        }
        unreached()
    }

    /// Deliver one envelope: route it by message variant, let the actor
    /// step, advance the clock to just past the delivery, and requeue every
    /// reply with a fresh delay draw, in reply order. The state after the
    /// call is exactly `spec_deliver` of the state before it: dispatch,
    /// clock, scheduling and the untouched rest are all pinned.
    #[verifier::rlimit(100)]
    fn process_item(&mut self, e: Envelope)
        requires
            old(self).inv(),
            old(self).env_ok(e),
            old(self).spec_delivered() < u64::MAX,
            old(self).spec_time() <= old(self).spec_budget(),
            forall|i: int|
                0 <= i < old(self).spec_queue().len() ==> (#[trigger] old(self).spec_queue()[
                    i
                ]).time >= e.time,
        ensures
            final(self).inv(),
            final(self).spec_goal() == old(self).spec_goal(),
            final(self).spec_clients().len() == old(self).spec_clients().len(),
            final(self).spec_servers().len() == old(self).spec_servers().len(),
            final(self).spec_delivered() == old(self).spec_delivered() + 1,
            forall|k: int|
                0 <= k < old(self).spec_servers().len()
                    ==> (#[trigger] final(self).spec_servers()[k]).highest_id_seen
                    >= old(self).spec_servers()[k].highest_id_seen,
            final(self).model() == spec_deliver(old(self).model(), e.model()),
    {
        let ghost pre = *self;
        let from_addr: Addr;
        let replies: Vec<(Msg, Addr)>;
        match e.msg {
            Msg::Request(_) => {
                let k = self.find_server(&e.to);
                let mut srv = self.servers.remove(k);
                let r = srv.receive(e.msg, e.from.clone());
                from_addr = srv.get_addr();
                self.servers.insert(k, srv);
                replies = r;
                proof {
                    assert(self.servers@ =~= pre.servers@.update(
                        k as int,
                        self.servers@[k as int],
                    ));
                    assert forall|a: Seq<char>| pre.addr_is_server(a) implies self.addr_is_server(
                        a,
                    ) by {
                        let w = choose|i: int|
                            0 <= i < pre.servers@.len() && (#[trigger] pre.servers@[i]).addr@ == a;
                        assert(self.servers@[w].addr@ == a);
                    }
                    crate::model::lemma_server_step_model(
                        pre.servers@[k as int],
                        e.msg,
                        e.from,
                        self.servers@[k as int],
                        replies@,
                    );
                    crate::model::lemma_servers_model_update(
                        pre.servers@,
                        k as int,
                        self.servers@[k as int],
                    );
                    assert(servers_model(pre.servers@)[k as int].addr == e.to@);
                    assert forall|i: int| 0 <= i < k implies (#[trigger] servers_model(
                        pre.servers@,
                    )[i]).addr != e.to@ by {
                        assert(pre.servers@[i].addr@ != e.to@);
                    }
                    crate::model::lemma_server_index_pins(
                        servers_model(pre.servers@),
                        e.to@,
                        k as int,
                    );
                }
            }
            _ => {
                let k = self.find_client(&e.to);
                let mut c = self.clients.remove(k);
                let r = c.receive(e.msg, e.from.clone());
                from_addr = c.get_addr();
                self.clients.insert(k, c);
                replies = r;
                proof {
                    assert(self.clients@ =~= pre.clients@.update(
                        k as int,
                        self.clients@[k as int],
                    ));
                    crate::actor::lemma_client_delivery_preserves_wf(
                        pre.clients@[k as int],
                        e.msg,
                        e.from,
                        self.clients@[k as int],
                        replies@,
                    );
                    assert forall|a: Seq<char>| pre.addr_is_client(a) implies self.addr_is_client(
                        a,
                    ) by {
                        let w = choose|i: int|
                            0 <= i < pre.clients@.len() && (#[trigger] pre.clients@[i]).addr@ == a;
                        assert(self.clients@[w].addr@ == a);
                    }
                    crate::model::lemma_client_step_model(
                        pre.clients@[k as int],
                        e.msg,
                        e.from,
                        self.clients@[k as int],
                        replies@,
                    );
                    crate::model::lemma_clients_model_update(
                        pre.clients@,
                        k as int,
                        self.clients@[k as int],
                    );
                    assert(clients_model(pre.clients@)[k as int].addr == e.to@);
                    assert forall|i: int| 0 <= i < k implies (#[trigger] clients_model(
                        pre.clients@,
                    )[i]).addr != e.to@ by {
                        assert(pre.clients@[i].addr@ != e.to@);
                    }
                    crate::model::lemma_client_index_pins(
                        clients_model(pre.clients@),
                        e.to@,
                        k as int,
                    );
                }
            }
        }
        self.delivered = self.delivered + 1;
        self.time = e.time + 1;
        proof {
            assert(self.spec_budget() == pre.spec_budget());
            assert forall|j: int| 0 <= j < replies@.len() implies self.reply_ok(
                from_addr,
                #[trigger] replies@[j],
            ) by {
            }
            assert forall|k: int| 0 <= k < self.clients@.len() implies (
            #[trigger] self.clients@[k]).wf() by {
            }
            assert forall|k: int| 0 <= k < self.clients@.len() implies Simulator::client_bounded(
                #[trigger] self.clients@[k],
                self.delivered,
            ) by {
                let c = self.clients@[k];
                let p = pre.clients@[k];
                assert(Simulator::client_bounded(p, pre.delivered));
                if c != p {
                    assert forall|id: Id| c.responses@.contains_key(id) implies (
                    #[trigger] c.responses@[id]).0 <= self.delivered && c.responses@[id].1
                        <= self.delivered by {
                    }
                }
            }
            assert forall|k: int| 0 <= k < self.clients@.len() implies self.client_routes_ok(
                #[trigger] self.clients@[k],
            ) by {
                let c = self.clients@[k];
                let p = pre.clients@[k];
                assert(c.servers@ == p.servers@);
                assert(pre.client_routes_ok(p));
                assert forall|j: int| 0 <= j < c.servers@.len() implies self.addr_is_server(
                    (#[trigger] c.servers@[j])@,
                ) by {
                    assert(pre.addr_is_server((p.servers@[j])@));
                }
            }
            assert forall|i: int| 0 <= i < self.in_flight@.len() implies self.env_ok(
                #[trigger] self.in_flight@[i],
            ) by {
                assert(pre.env_ok(pre.in_flight@[i]));
                assert(self.in_flight@[i] == old(self).spec_queue()[i]);
                assert(old(self).spec_queue()[i].time >= e.time);
            }
        }
        let ghost mid = *self;
        let ghost outm = replies@.map_values(|r: (Msg, Addr)| (r.0, r.1@));
        let ghost fromv = from_addr@;
        let ghost t0 = self.time;
        let ghost o0 = self.oracle.spec_state();
        proof {
            assert(outm.skip(0) =~= outm);
        }
        let mut idx: usize = 0;
        while idx < replies.len()
            invariant
                idx <= replies@.len(),
                self.inv(),
                self.clients@ == mid.clients@,
                self.servers@ == mid.servers@,
                self.time == mid.time,
                self.time == t0,
                self.goal_per_client == mid.goal_per_client,
                self.delivered == mid.delivered,
                forall|j: int|
                    0 <= j < replies@.len() ==> mid.reply_ok(from_addr, #[trigger] replies@[j]),
                outm == replies@.map_values(|r: (Msg, Addr)| (r.0, r.1@)),
                fromv == from_addr@,
                enqueue_replies(queue_model(mid.in_flight@), outm, fromv, t0, o0)
                    == enqueue_replies(
                    queue_model(self.in_flight@),
                    outm.skip(idx as int),
                    fromv,
                    t0,
                    self.oracle.spec_state(),
                ),
            decreases replies@.len() - idx,
        {
            proof {
                assert(mid.reply_ok(from_addr, replies@[idx as int]));
                assert(self.reply_ok(from_addr, replies@[idx as int]));
                assert(outm.len() == replies@.len());
                assert(outm.skip(idx as int).len() > 0);
                assert(outm.skip(idx as int)[0] == outm[idx as int]);
                assert(outm[idx as int] == (replies@[idx as int].0, replies@[idx as int].1@));
                assert(outm.skip(idx as int).drop_first() =~= outm.skip(idx as int + 1));
            }
            let ghost qb = queue_model(self.in_flight@);
            let ghost ob = self.oracle.spec_state();
            let to = replies[idx].1.clone();
            let m2 = replies[idx].0;
            proof {
                assert(to == replies@[idx as int].1);
            }
            self.push_reply(m2, to, &from_addr);
            proof {
                assert(from_addr@ == fromv);
                assert(m2 == replies@[idx as int].0);
                assert(self.oracle.spec_state() == stream_next(ob));
                assert(self.time == t0);
                assert(queue_model(self.in_flight@) =~= qb.push(
                    (EnvelopeModel {
                        from: fromv,
                        to: replies@[idx as int].1@,
                        msg: replies@[idx as int].0,
                        time: ((t0 + delay_of(stream_next(ob))) as u64),
                    }),
                ));
                assert(enqueue_replies(qb, outm.skip(idx as int), fromv, t0, ob)
                    == enqueue_replies(
                    queue_model(self.in_flight@),
                    outm.skip(idx as int + 1),
                    fromv,
                    t0,
                    self.oracle.spec_state(),
                ));
            }
            idx += 1;
        }
        proof {
            assert(outm.skip(replies@.len() as int) =~= Seq::<(Msg, Seq<char>)>::empty());
            assert(enqueue_replies(queue_model(mid.in_flight@), outm, fromv, t0, o0) == (
                queue_model(self.in_flight@),
                self.oracle.spec_state(),
            ));
            let m0 = pre.model();
            let em = e.model();
            assert(m0.queue == queue_model(mid.in_flight@));
            assert(m0.oracle == o0);
            match e.msg {
                Msg::Request(_) => {
                    let k = crate::model::server_index_from(m0.servers, em.to, 0);
                    assert(m0.servers[k].addr == fromv);
                    assert(self.model() =~~= spec_deliver(m0, em));
                }
                _ => {
                    let k = crate::model::client_index_from(m0.clients, em.to, 0);
                    assert(m0.clients[k].addr == fromv);
                    assert(self.model() =~~= spec_deliver(m0, em));
                }
            }
        }
    }

    /// Wrap one reply in an envelope stamped with the next delay draw and
    /// queue it: the queue grows by exactly that envelope, the stream
    /// advances exactly once, and nothing else changes.
    fn push_reply(&mut self, m2: Msg, to: Addr, from_addr: &Addr)
        requires
            old(self).inv(),
            old(self).reply_ok(*from_addr, (m2, to)),
        ensures
            final(self).inv(),
            final(self).clients@ == old(self).clients@,
            final(self).servers@ == old(self).servers@,
            final(self).time == old(self).time,
            final(self).goal_per_client == old(self).goal_per_client,
            final(self).delivered == old(self).delivered,
            final(self).spec_oracle_state() == stream_next(old(self).spec_oracle_state()),
            queue_model(final(self).spec_queue()) == queue_model(old(self).spec_queue()).push(
                (EnvelopeModel {
                    from: from_addr@,
                    to: to@,
                    msg: m2,
                    time: ((old(self).spec_time() + delay_of(
                        stream_next(old(self).spec_oracle_state()),
                    )) as u64),
                }),
            ),
    {
        let d = self.oracle.next_delay();
        let env = Envelope { from: from_addr.clone(), to, msg: m2, time: self.time + d };
        let ghost genv = env;
        self.in_flight.push(env);
        proof {
            lemma_addrs_preserved(*old(self), *self);
            assert(self.env_ok(genv));
            assert forall|i: int| 0 <= i < self.in_flight@.len() implies self.env_ok(
                #[trigger] self.in_flight@[i],
            ) by {
                if i < old(self).in_flight@.len() {
                    assert(old(self).env_ok(old(self).in_flight@[i]));
                } else {
                    assert(self.in_flight@[i] == genv);
                }
            }
            assert(queue_model(self.in_flight@) =~= queue_model(old(self).in_flight@).push(
                genv.model(),
            ));
        }
    }

    /// Pump the queue until it drains. Errors with "too many iterations"
    /// when the logical clock passes the progress budget (or, far beyond any
    /// practical run, when the delivery counter would overflow). The verdict
    /// and the final state are exactly `spec_run` of the starting state, so
    /// a whole run from `new` is a function of the four construction
    /// arguments alone: deliveries happen in time order with stable ties,
    /// and identical arguments give identical claims and terminal time.
    pub fn run(&mut self) -> (r: Result<(), String>)
        requires
            old(self).inv(),
        ensures
            final(self).inv(),
            final(self).spec_goal() == old(self).spec_goal(),
            final(self).spec_servers().len() == old(self).spec_servers().len(),
            forall|k: int|
                0 <= k < old(self).spec_servers().len()
                    ==> (#[trigger] final(self).spec_servers()[k]).highest_id_seen
                    >= old(self).spec_servers()[k].highest_id_seen,
            r is Ok ==> final(self).spec_queue().len() == 0,
            r matches Err(m) ==> m@ == "too many iterations"@,
            r is Err ==> final(self).spec_time() > final(self).spec_budget()
                || final(self).spec_delivered() == u64::MAX,
            r is Ok <==> spec_run(old(self).model()).0,
            final(self).model() == spec_run(old(self).model()).1,
            forall|k: int|
                0 <= k < final(self).spec_clients().len() ==> crate::validate::dup_free(
                    (#[trigger] final(self).spec_clients()[k]).claimed_ids@,
                ),
    {
        while self.in_flight.len() > 0
            invariant
                self.inv(),
                self.spec_goal() == old(self).spec_goal(),
                self.spec_servers().len() == old(self).spec_servers().len(),
                forall|k: int|
                    0 <= k < old(self).spec_servers().len() ==> (#[trigger] self.spec_servers()[
                        k
                    ]).highest_id_seen >= old(self).spec_servers()[k].highest_id_seen,
                spec_run(old(self).model()) == spec_run(self.model()),
            decreases u64::MAX - self.delivered,
        {
            proof {
                assert(self.model().queue.len() == self.in_flight@.len());
                assert(self.model().clients.len() == self.clients@.len());
                assert(self.model().servers.len() == self.servers@.len());
                assert(crate::model::model_budget(self.model()) == self.spec_budget());
            }
            let budget = self.budget();
            if budget < self.time {
                proof {
                    assert(spec_run(self.model()) == (false, self.model()));
                }
                return Err(too_many_iterations_msg());
            }
            if self.delivered == u64::MAX {
                proof {
                    assert(spec_run(self.model()) == (false, self.model()));
                }
                return Err(too_many_iterations_msg());
            }
            let ghost before = self.model();
            let ghost q = self.in_flight@;
            let e = self.in_flight.pop_min();
            proof {
                lemma_first_min_index(q);
                crate::model::lemma_model_first_min_index(q);
                crate::model::lemma_queue_model_remove(
                    q,
                    crate::queue::first_min_index(q),
                );
                assert(before.queue[crate::model::model_first_min_index(before.queue)]
                    == e.model());
                assert(spec_step(before) == spec_deliver(self.model(), e.model())) by {
                    assert(self.model() =~~= (SimModel {
                        clients: before.clients,
                        servers: before.servers,
                        queue: before.queue.remove(
                            crate::model::model_first_min_index(before.queue),
                        ),
                        goal_per_client: before.goal_per_client,
                        oracle: before.oracle,
                        time: before.time,
                        delivered: before.delivered,
                    }));
                }
                assert(spec_run(before) == spec_run(spec_step(before)));
            }
            self.process_item(e);
            proof {
                assert(self.model() == spec_step(before));
            }
        }
        proof {
            assert(self.model().queue.len() == self.in_flight@.len());
            assert(spec_run(self.model()) == (true, self.model()));
        }
        Ok(())
    }

    /// Every pair of clients claimed disjoint, duplicate-free identifier
    /// lists. Success and the exact report are pinned by
    /// `spec_duplicate_error`; `lemma_duplicate_error_characterization`
    /// states what success means.
    pub fn no_duplicate_ids(clients: &Vec<Client>) -> (r: Result<(), String>)
        ensures
            r is Ok <==> crate::validate::spec_duplicate_error(clients@) is None,
            r matches Err(m) ==> crate::validate::spec_duplicate_error(clients@) == Some(m@),
    {
        crate::validate::scan_duplicate_ids(clients)
    }

    /// Every client claimed exactly `goal_per_client` identifiers. Success
    /// and the exact report are pinned by `spec_goal_error`;
    /// `lemma_goal_error_characterization` states what success means.
    pub fn clients_reached_their_goal(clients: &Vec<Client>, goal_per_client: u64) -> (r: Result<
        (),
        String,
    >)
        ensures
            r is Ok <==> crate::validate::spec_goal_error(clients@, goal_per_client as int)
                is None,
            r matches Err(m) ==> crate::validate::spec_goal_error(
                clients@,
                goal_per_client as int,
            ) == Some(m@),
    {
        crate::validate::scan_goals(clients, goal_per_client)
    }

    /// The post-run check: no identifier claimed by two clients or claimed
    /// twice, and every client reached its goal, in that order of report.
    /// Success is exactly: over every pair of distinct clients both claim
    /// lists are duplicate-free and disjoint, and every client claimed
    /// exactly the goal.
    pub fn validate_run(&self) -> (r: Result<(), String>)
        ensures
            r is Ok <==> (crate::validate::spec_duplicate_error(self.spec_clients()) is None
                && crate::validate::spec_goal_error(
                self.spec_clients(),
                self.spec_goal() as int,
            ) is None),
            r is Ok <==> ((forall|p: int, q: int|
                0 <= p < q < self.spec_clients().len() ==> (crate::validate::dup_free(
                    (#[trigger] self.spec_clients()[p]).claimed_ids@,
                ) && crate::validate::dup_free((#[trigger] self.spec_clients()[q]).claimed_ids@)
                    && crate::validate::disjoint_ids(
                    self.spec_clients()[p].claimed_ids@,
                    self.spec_clients()[q].claimed_ids@,
                ))) && (forall|i: int|
                0 <= i < self.spec_clients().len() ==> (#[trigger] self.spec_clients()[
                    i
                ]).claimed_ids@.len() == self.spec_goal())),
            r matches Err(m) ==> (crate::validate::spec_duplicate_error(self.spec_clients())
                == Some(m@) || (crate::validate::spec_duplicate_error(self.spec_clients())
                is None && crate::validate::spec_goal_error(
                self.spec_clients(),
                self.spec_goal() as int,
            ) == Some(m@))),
    {
        proof {
            crate::validate::lemma_duplicate_error_characterization(self.spec_clients());
            crate::validate::lemma_goal_error_characterization(
                self.spec_clients(),
                self.spec_goal() as int,
            );
        }
        match Simulator::no_duplicate_ids(&self.clients) {
            Err(m) => {
                return Err(m);
            },
            Ok(()) => {},
        }
        match Simulator::clients_reached_their_goal(&self.clients, self.goal_per_client) {
            Err(m) => {
                return Err(m);
            },
            Ok(()) => {},
        }
        Ok(())
    }

    /// The progress budget, `goal × servers × clients × 100`.
    fn budget(&self) -> (b: u64)
        requires
            self.inv(),
        ensures
            b == self.spec_budget(),
    {
        proof {
            lemma_budget_partials(
                self.goal_per_client as int,
                self.servers@.len() as int,
                self.clients@.len() as int,
            );
        }
        self.goal_per_client * (self.servers.len() as u64) * (self.clients.len() as u64) * 100
    }
}

} // verus!
