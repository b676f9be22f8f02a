use via_core::determinism::{
    compose_seed, compose_seed_key, configure_determinism, reset_determinism, DeterminismState,
};

#[test]
fn seed_keys_are_formatted_in_decimal() {
    assert_eq!(compose_seed_key(0, "traffic", 0, 0, 0), "0:traffic:0:0:0");
    assert_eq!(
        compose_seed_key(42, "memory_leak", 1_000_000_000, 100_000_000, 7),
        "42:memory_leak:1000000000:100000000:7"
    );
    assert_eq!(
        compose_seed_key(u64::MAX, "", 10, 9, 100),
        format!("{}::10:9:100", u64::MAX)
    );
}

#[test]
fn seeds_hash_the_key() {
    let key = format!("{}:{}:{}:{}:{}", 7u64, "cpu_spike", 123u64, 456u64, 0u64);
    assert_eq!(
        compose_seed(7, "cpu_spike", 123, 456, 0),
        xxhash_rust::xxh3::xxh3_64(key.as_bytes())
    );
    assert_ne!(compose_seed(7, "cpu_spike", 123, 456, 0), compose_seed(8, "cpu_spike", 123, 456, 0));
}

#[test]
fn determinism_state_transitions() {
    let mut state = DeterminismState::default();
    assert_eq!(state.tick_seed("traffic", 1, 2), None);
    assert_eq!(state.next_init_seed("traffic"), None);
    assert_eq!(state.init_counter, 0);

    configure_determinism(&mut state, true, 99);
    assert_eq!(state, DeterminismState { enabled: true, seed: 99, init_counter: 0 });
    assert_eq!(state.tick_seed("traffic", 1, 2), Some(compose_seed(99, "traffic", 1, 2, 0)));
    assert_eq!(state.next_init_seed("ddos"), Some(compose_seed(99, "ddos", 0, 0, 0)));
    assert_eq!(state.next_init_seed("ddos"), Some(compose_seed(99, "ddos", 1, 0, 0)));
    assert_eq!(state.init_counter, 2);

    // The same configuration replays the same seeds.
    configure_determinism(&mut state, true, 99);
    assert_eq!(state.next_init_seed("ddos"), Some(compose_seed(99, "ddos", 0, 0, 0)));

    reset_determinism(&mut state);
    assert_eq!(state, DeterminismState { enabled: false, seed: 0, init_counter: 0 });
}
