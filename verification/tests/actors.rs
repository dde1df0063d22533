use id_generator::Client;
use id_generator::Msg;
use id_generator::Receiver;
use id_generator::Server;
use std::collections::HashMap;

#[test]
fn client_receive_one_out_of_two_yes() {
    let mut c = Client {
        addr: "some".to_string(),
        claimed_ids: vec![],
        servers: vec!["server-1".to_string(), "server-2".to_string()],
        highest_id_seen: 1,
        responses: HashMap::new(),
    };

    assert_eq!(0, c.receive(Msg::Yes(1), "server-1".to_string()).len());

    // Not claimed an id yet.
    assert_eq!(0, c.claimed_ids.len());

    assert_eq!(0, c.receive(Msg::Yes(1), "server-2".to_string()).len());

    // Now claimed one id.
    assert_eq!(1, c.claimed_ids.len());
}

#[test]
fn client_receive_no_msg_and_retry() {
    let mut c = Client {
        addr: "some".to_string(),
        claimed_ids: vec![],
        servers: vec!["server-1".to_string(), "server-2".to_string()],
        highest_id_seen: 1,
        responses: HashMap::new(),
    };

    let responses = c.receive(Msg::No(1), "server-2".to_string());

    assert_eq!(
        responses,
        vec![
            (Msg::Request(2), "server-1".to_string()),
            (Msg::Request(2), "server-2".to_string())
        ]
    );
}

#[test]
fn client_with_three_servers() {
    let mut c = Client {
        addr: "some".to_string(),
        claimed_ids: vec![],
        servers: vec![
            "server-1".to_string(),
            "server-2".to_string(),
            "server-3".to_string(),
        ],
        highest_id_seen: 0,
        responses: HashMap::new(),
    };

    assert_eq!(
        c.receive(Msg::StartRequest, "simulator".to_string()),
        vec![
            (Msg::Request(1), "server-1".to_string()),
            (Msg::Request(1), "server-2".to_string()),
            (Msg::Request(1), "server-3".to_string()),
        ]
    );

    assert_eq!(
        c.receive(Msg::StartRequest, "simulator".to_string()),
        vec![
            (Msg::Request(2), "server-1".to_string()),
            (Msg::Request(2), "server-2".to_string()),
            (Msg::Request(2), "server-3".to_string()),
        ]
    );

    assert_eq!(
        c.receive(Msg::StartRequest, "simulator".to_string()),
        vec![
            (Msg::Request(3), "server-1".to_string()),
            (Msg::Request(3), "server-2".to_string()),
            (Msg::Request(3), "server-3".to_string()),
        ]
    );

    assert_eq!(c.receive(Msg::Yes(1), "simulator".to_string()), vec![]);

    // Expect client not to have claimed any ids so far.
    assert_eq!(c.claimed_ids, vec![]);
}

#[test]
fn server_accepts_strictly_larger_id() {
    let mut s = Server {
        addr: "server-1".to_string(),
        highest_id_seen: 0,
    };

    assert_eq!(
        s.receive(Msg::Request(5), "client-1".to_string()),
        vec![(Msg::Yes(5), "client-1".to_string())]
    );
    assert_eq!(s.highest_id_seen, 5);

    // A smaller or equal proposal is rejected and the state is unchanged.
    assert_eq!(
        s.receive(Msg::Request(3), "client-2".to_string()),
        vec![(Msg::No(3), "client-2".to_string())]
    );
    assert_eq!(s.highest_id_seen, 5);

    assert_eq!(
        s.receive(Msg::Request(5), "client-2".to_string()),
        vec![(Msg::No(5), "client-2".to_string())]
    );
    assert_eq!(s.highest_id_seen, 5);

    assert_eq!(
        s.receive(Msg::Request(6), "client-2".to_string()),
        vec![(Msg::Yes(6), "client-2".to_string())]
    );
    assert_eq!(s.highest_id_seen, 6);
}

#[test]
fn server_get_addr_names_the_server() {
    let s = Server {
        addr: "server-9".to_string(),
        highest_id_seen: 0,
    };
    assert_eq!(s.get_addr(), "server-9".to_string());

    let c = Client {
        addr: "client-9".to_string(),
        claimed_ids: vec![],
        servers: vec![],
        highest_id_seen: 0,
        responses: HashMap::new(),
    };
    assert_eq!(c.get_addr(), "client-9".to_string());
}

#[test]
fn msg_equality_is_by_tag_and_id() {
    assert_eq!(Msg::StartRequest, Msg::StartRequest);
    assert_eq!(Msg::Request(4), Msg::Request(4));
    assert_eq!(Msg::Yes(4), Msg::Yes(4));
    assert_eq!(Msg::No(4), Msg::No(4));

    assert_ne!(Msg::Request(4), Msg::Request(5));
    assert_ne!(Msg::Yes(4), Msg::No(4));
    assert_ne!(Msg::StartRequest, Msg::Request(4));
    assert_ne!(Msg::Yes(1), Msg::Request(1));
}

#[test]
fn client_stray_yes_cannot_claim_twice() {
    let mut c = Client {
        addr: "some".to_string(),
        claimed_ids: vec![],
        servers: vec!["server-1".to_string(), "server-2".to_string()],
        highest_id_seen: 1,
        responses: HashMap::new(),
    };

    c.receive(Msg::Yes(1), "server-1".to_string());
    c.receive(Msg::Yes(1), "server-2".to_string());
    assert_eq!(c.claimed_ids, vec![1]);

    // A third Yes past the quorum must not append again: the tally test is
    // an exact equality, not 'at least'.
    c.receive(Msg::Yes(1), "server-1".to_string());
    assert_eq!(c.claimed_ids, vec![1]);
}

#[test]
fn client_no_below_threshold_stays_quiet() {
    // Three servers: the reject threshold is 3 - 1 = 2, so a single No
    // must produce no retry.
    let mut c = Client {
        addr: "some".to_string(),
        claimed_ids: vec![],
        servers: vec![
            "server-1".to_string(),
            "server-2".to_string(),
            "server-3".to_string(),
        ],
        highest_id_seen: 1,
        responses: HashMap::new(),
    };

    assert_eq!(c.receive(Msg::No(1), "server-1".to_string()), vec![]);
    assert_eq!(c.highest_id_seen, 1);

    // The second No reaches the threshold: escalate to id 2.
    assert_eq!(
        c.receive(Msg::No(1), "server-2".to_string()),
        vec![
            (Msg::Request(2), "server-1".to_string()),
            (Msg::Request(2), "server-2".to_string()),
            (Msg::Request(2), "server-3".to_string()),
        ]
    );
    assert_eq!(c.highest_id_seen, 2);

    // A stray third No must not retry again.
    assert_eq!(c.receive(Msg::No(1), "server-3".to_string()), vec![]);
    assert_eq!(c.highest_id_seen, 2);
}
