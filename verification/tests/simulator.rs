use id_generator::Client;
use id_generator::Simulator;
use std::collections::HashMap;

#[test]
fn simulator_increases_timestamp() {
    let mut sim = Simulator::new(2, 3, 1, 2);

    match sim.run() {
        Ok(_) => {}
        Err(e) => panic!("{}", e),
    };

    // The terminal time is a fixed value determined by the seed and the
    // documented delay stream.
    assert_eq!(sim.time(), 33);
}

#[test]
fn simulator_no_duplicate_ids() {
    let mut c_a = Client {
        addr: "client-a".to_string(),
        claimed_ids: vec![],
        servers: vec![],
        highest_id_seen: 0,
        responses: HashMap::new(),
    };
    c_a.claimed_ids = vec![1, 2, 3, 4, 20];

    let mut c_b = Client {
        addr: "client-b".to_string(),
        claimed_ids: vec![],
        servers: vec![],
        highest_id_seen: 0,
        responses: HashMap::new(),
    };
    c_b.claimed_ids = vec![5, 6, 7, 8, 20];

    assert_eq!(
        Simulator::no_duplicate_ids(&vec![c_a, c_b]),
        Err("both client-a and client-b claimed id 20".to_string()),
    );
}

#[test]
fn simulator_clients_reach_their_goal() {
    let mut c_a = Client {
        addr: "client-a".to_string(),
        claimed_ids: vec![],
        servers: vec![],
        highest_id_seen: 0,
        responses: HashMap::new(),
    };
    c_a.claimed_ids = vec![1, 2, 3, 4];

    let mut c_b = Client {
        addr: "client-b".to_string(),
        claimed_ids: vec![],
        servers: vec![],
        highest_id_seen: 0,
        responses: HashMap::new(),
    };
    c_b.claimed_ids = vec![5, 6, 7];

    assert_eq!(
        Simulator::clients_reached_their_goal(&vec![c_a, c_b], 4),
        Err("expected client-b to claim 4 ids but got 3".to_string()),
    );
}

#[test]
fn intra_client_duplicate_is_reported_first() {
    let mut c_a = Client {
        addr: "client-a".to_string(),
        claimed_ids: vec![],
        servers: vec![],
        highest_id_seen: 0,
        responses: HashMap::new(),
    };
    c_a.claimed_ids = vec![1, 2, 1];

    let mut c_b = Client {
        addr: "client-b".to_string(),
        claimed_ids: vec![],
        servers: vec![],
        highest_id_seen: 0,
        responses: HashMap::new(),
    };
    c_b.claimed_ids = vec![5, 6];

    assert_eq!(
        Simulator::no_duplicate_ids(&vec![c_a, c_b]),
        Err("expected client-a not to claim id 1 twice".to_string()),
    );
}

#[test]
fn duplicate_scan_passes_disjoint_lists() {
    let mut c_a = Client {
        addr: "client-a".to_string(),
        claimed_ids: vec![],
        servers: vec![],
        highest_id_seen: 0,
        responses: HashMap::new(),
    };
    c_a.claimed_ids = vec![1, 3, 5];

    let mut c_b = Client {
        addr: "client-b".to_string(),
        claimed_ids: vec![],
        servers: vec![],
        highest_id_seen: 0,
        responses: HashMap::new(),
    };
    c_b.claimed_ids = vec![2, 4, 6];

    assert_eq!(Simulator::no_duplicate_ids(&vec![c_a, c_b]), Ok(()));
}

#[test]
fn two_fresh_simulators_agree() {
    let mut first = Simulator::new(2, 3, 2, 11);
    let mut second = Simulator::new(2, 3, 2, 11);

    assert_eq!(first.run(), Ok(()));
    assert_eq!(second.run(), Ok(()));

    assert_eq!(first.time(), second.time());
    assert_eq!(first.clients().len(), second.clients().len());
    for (a, b) in first.clients().iter().zip(second.clients().iter()) {
        assert_eq!(a.claimed_ids, b.claimed_ids);
    }
}

#[test]
fn scenario_two_clients_three_servers() {
    let mut sim = Simulator::new(2, 3, 1, 2);
    assert_eq!(sim.run(), Ok(()));
    assert_eq!(sim.validate_run(), Ok(()));
    assert_eq!(sim.time(), 33);
}

#[test]
fn scenario_single_client_claims_one_id() {
    let mut sim = Simulator::new(1, 2, 1, 2);
    assert_eq!(sim.run(), Ok(()));
    assert_eq!(sim.validate_run(), Ok(()));
    assert_eq!(sim.clients()[0].claimed_ids.len(), 1);
}

#[test]
fn scenario_single_client_claims_four_distinct_ids() {
    let mut sim = Simulator::new(1, 3, 4, 1);
    assert_eq!(sim.run(), Ok(()));
    assert_eq!(sim.validate_run(), Ok(()));

    let claimed = &sim.clients()[0].claimed_ids;
    assert_eq!(claimed.len(), 4);
    for i in 0..claimed.len() {
        for j in (i + 1)..claimed.len() {
            assert_ne!(claimed[i], claimed[j]);
        }
    }
}

#[test]
fn property_sweep_all_runs_validate() {
    for clients in 1..5u64 {
        for servers in 1..6u64 {
            for ids in 1..4u64 {
                for seed in [1u64, 2, 7, 13] {
                    let mut sim = Simulator::new(clients, servers, ids, seed);
                    match sim.run() {
                        Ok(_) => {}
                        Err(e) => panic!(
                            "run({}, {}, {}, {}) failed: {}",
                            clients, servers, ids, seed, e
                        ),
                    }
                    match sim.validate_run() {
                        Ok(_) => {}
                        Err(e) => panic!(
                            "validate({}, {}, {}, {}) failed: {}",
                            clients, servers, ids, seed, e
                        ),
                    }
                }
            }
        }
    }
}
