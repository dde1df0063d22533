use id_generator::Simulator;

#[test]
fn integration_test_basic_run() {
    let mut simulator = Simulator::new(2, 2, 2, 2);

    simulator.run().unwrap();

    simulator.validate_run().unwrap();
}

#[test]
fn one_client_two_servers() {
    let mut simulator = Simulator::new(1, 2, 1, 2);

    simulator.run().unwrap();

    simulator.validate_run().unwrap();
}

#[test]
fn previous_failures() {
    // A configuration that once over-claimed: one client against three
    // servers, four identifiers, unit seed.
    let tests = vec![(1u64, 3u64, 4u64, 1u64)];

    for (num_clients, num_servers, num_ids, delay) in tests {
        let mut simulator = Simulator::new(num_clients, num_servers, num_ids, delay);

        simulator.run().unwrap();

        simulator.validate_run().unwrap();
    }
}
