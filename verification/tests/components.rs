use id_generator::Clock;
use id_generator::DelayOracle;
use id_generator::Envelope;
use id_generator::EnvelopeQueue;
use id_generator::Msg;
use id_generator::text::client_addr;
use id_generator::text::server_addr;
use id_generator::text::u64_to_dec;

#[test]
fn it_doesnt_panic() {
    let mut c = Clock::new();

    c.now();
}

#[test]
fn clock_ticks_forward() {
    let mut c = Clock::new();
    assert_eq!(c.now(), 1);
    assert_eq!(c.now(), 2);
    assert_eq!(c.now(), 3);
}

fn env(tag: u64, time: u64) -> Envelope {
    Envelope {
        from: "simulator".to_string(),
        to: "client-1".to_string(),
        msg: Msg::Request(tag),
        time,
    }
}

#[test]
fn queue_pops_minimum_time_first() {
    let mut q = EnvelopeQueue::new();
    q.push(env(1, 9));
    q.push(env(2, 3));
    q.push(env(3, 7));

    assert_eq!(q.len(), 3);
    assert_eq!(q.pop_min().time, 3);
    assert_eq!(q.pop_min().time, 7);
    assert_eq!(q.pop_min().time, 9);
    assert_eq!(q.len(), 0);
}

#[test]
fn queue_breaks_ties_by_insertion_order() {
    let mut q = EnvelopeQueue::new();
    q.push(env(1, 5));
    q.push(env(2, 5));
    q.push(env(3, 2));
    q.push(env(4, 5));

    assert_eq!(q.pop_min().msg, Msg::Request(3));
    assert_eq!(q.pop_min().msg, Msg::Request(1));
    assert_eq!(q.pop_min().msg, Msg::Request(2));
    assert_eq!(q.pop_min().msg, Msg::Request(4));
}

#[test]
fn oracle_draws_are_in_range_and_reproducible() {
    let mut a = DelayOracle::seed(99);
    let mut b = DelayOracle::seed(99);
    for _ in 0..100 {
        let d = a.next_delay();
        assert!((1..10).contains(&d));
        assert_eq!(d, b.next_delay());
    }
}

#[test]
fn oracle_stream_for_seed_two() {
    // The first draws of the documented stream for seed 2; part of the
    // library's compatibility contract.
    let mut o = DelayOracle::seed(2);
    let first: Vec<u64> = (0..6).map(|_| o.next_delay()).collect();
    assert_eq!(first, vec![2, 7, 4, 5, 6, 3]);
}

#[test]
fn decimal_rendering() {
    assert_eq!(u64_to_dec(0), "0".to_string());
    assert_eq!(u64_to_dec(7), "7".to_string());
    assert_eq!(u64_to_dec(10), "10".to_string());
    assert_eq!(u64_to_dec(305), "305".to_string());
    assert_eq!(u64_to_dec(18446744073709551615), "18446744073709551615".to_string());
}

#[test]
fn addresses_are_numbered() {
    assert_eq!(client_addr(1), "client-1".to_string());
    assert_eq!(client_addr(12), "client-12".to_string());
    assert_eq!(server_addr(3), "server-3".to_string());
}
