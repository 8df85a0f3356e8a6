use hexlife::{TickError, World};

fn identity_rules() -> Vec<u8> {
    (0..=255).collect()
}

fn parity_rules() -> Vec<u8> {
    (0..256u32).map(|k| (k.count_ones() % 2) as u8).collect()
}

fn nonzero(counters: &[u32], resting: u32) -> Vec<(usize, u32)> {
    counters
        .iter()
        .enumerate()
        .filter(|(_, &v)| v != resting)
        .map(|(k, &v)| (k, v))
        .collect()
}

#[test]
fn two_by_two_pins_the_bit_order() {
    let world = World::new(2, 2);
    let mut ruleset = vec![0u8; 256];
    ruleset[64] = 1;
    let state = [1u8, 0, 1, 0];
    let mut next = [9u8; 4];
    let mut indices = [9u8; 4];
    let mut counters = vec![0u32; 256];
    world.run_tick(&ruleset, &state, &mut next, &mut indices, &mut counters);
    assert_eq!(indices, [100, 27, 100, 27]);
    assert_eq!(next, [0, 0, 0, 0]);
    assert_eq!(nonzero(&counters, 0), vec![(27, 2), (100, 2)]);
    assert_eq!(state, [1, 0, 1, 0]);
}

#[test]
fn a_lone_cell_is_its_own_six_neighbors() {
    let world = World::new(1, 1);
    let ruleset = identity_rules();
    let mut next = [0u8; 1];
    let mut indices = [0u8; 1];
    let mut counters = vec![0u32; 256];
    world.run_tick(&ruleset, &[1], &mut next, &mut indices, &mut counters);
    assert_eq!(indices, [127]);
    assert_eq!(next, [127]);
    assert_eq!(nonzero(&counters, 0), vec![(127, 1)]);
}

#[test]
fn three_by_three_with_all_four_states() {
    let world = World::new(3, 3);
    let ruleset = identity_rules();
    let state = [1u8, 0, 0, 0, 1, 0, 2, 3, 1];
    let mut next = [0u8; 9];
    let mut indices = [0u8; 9];
    let mut counters = vec![0u32; 256];
    world.run_tick(&ruleset, &state, &mut next, &mut indices, &mut counters);
    assert_eq!(indices, [66, 34, 20, 20, 80, 41, 169, 205, 66]);
    assert_eq!(next, indices);
    assert_eq!(
        nonzero(&counters, 0),
        vec![(20, 2), (34, 1), (41, 1), (66, 2), (80, 1), (169, 1), (205, 1)]
    );
}

#[test]
fn only_the_low_two_bits_of_a_state_count() {
    let world = World::new(2, 2);
    let ruleset = identity_rules();
    let state = [4u8, 5, 255, 1];
    let mut next = [0u8; 4];
    let mut indices = [0u8; 4];
    let mut counters = vec![0u32; 256];
    world.run_tick(&ruleset, &state, &mut next, &mut indices, &mut counters);
    assert_eq!(indices, [10, 100, 209, 64]);
    assert_eq!(next, [10, 100, 209, 64]);
}

#[test]
fn counters_accumulate_over_steps() {
    let world = World::new(4, 3);
    let ruleset = parity_rules();
    let state = [1u8, 1, 0, 0, 0, 1, 0, 1, 1, 0, 0, 1];
    let mut next = [0u8; 12];
    let mut indices = [0u8; 12];
    let mut counters = vec![5u32; 256];
    world.run_tick(&ruleset, &state, &mut next, &mut indices, &mut counters);
    assert_eq!(next, [0, 1, 0, 1, 1, 1, 1, 1, 1, 0, 1, 0]);
    assert_eq!(indices, [86, 98, 9, 44, 61, 69, 19, 112, 107, 39, 26, 92]);
    assert_eq!(
        nonzero(&counters, 5),
        vec![
            (9, 6),
            (19, 6),
            (26, 6),
            (39, 6),
            (44, 6),
            (61, 6),
            (69, 6),
            (86, 6),
            (92, 6),
            (98, 6),
            (107, 6),
            (112, 6)
        ]
    );

    let mut after = [7u8; 12];
    let mut counters = vec![0u32; 256];
    world.run_tick(&ruleset, &next, &mut after, &mut indices, &mut counters);
    assert_eq!(after, [0; 12]);
    assert_eq!(indices, [53, 113, 53, 113, 123, 95, 123, 95, 78, 46, 78, 46]);
    assert_eq!(
        nonzero(&counters, 0),
        vec![(46, 2), (53, 2), (78, 2), (95, 2), (113, 2), (123, 2)]
    );
}

#[test]
fn a_step_is_deterministic() {
    let world = World::new(5, 4);
    let ruleset = parity_rules();
    let state: Vec<u8> = (0..20u32).map(|k| (k * 7 % 3 % 2) as u8).collect();
    let mut next1 = vec![0u8; 20];
    let mut indices1 = vec![0u8; 20];
    let mut counters1 = vec![0u32; 256];
    let mut next2 = vec![3u8; 20];
    let mut indices2 = vec![3u8; 20];
    let mut counters2 = vec![0u32; 256];
    world.run_tick(&ruleset, &state, &mut next1, &mut indices1, &mut counters1);
    world.run_tick(&ruleset, &state, &mut next2, &mut indices2, &mut counters2);
    assert_eq!(next1, next2);
    assert_eq!(indices1, indices2);
    assert_eq!(counters1, counters2);
}

#[test]
fn a_step_adds_one_count_per_cell() {
    let world = World::new(7, 6);
    let ruleset = identity_rules();
    let state: Vec<u8> = (0..42u32).map(|k| (k * k % 5 % 4) as u8).collect();
    let mut next = vec![0u8; 42];
    let mut indices = vec![0u8; 42];
    let mut counters: Vec<u32> = (0..256).collect();
    let before: u64 = counters.iter().map(|&c| c as u64).sum();
    world.run_tick(&ruleset, &state, &mut next, &mut indices, &mut counters);
    let after: u64 = counters.iter().map(|&c| c as u64).sum();
    assert_eq!(after - before, 42);
    for (i, &rule) in indices.iter().enumerate() {
        assert_eq!(next[i], ruleset[rule as usize]);
    }
}

#[test]
fn a_full_counter_goes_to_zero() {
    let world = World::new(1, 1);
    let ruleset = identity_rules();
    let mut next = [0u8; 1];
    let mut indices = [0u8; 1];
    let mut counters = vec![0u32; 256];
    counters[127] = u32::MAX;
    world.run_tick(&ruleset, &[1], &mut next, &mut indices, &mut counters);
    assert_eq!(counters[127], 0);
    assert_eq!(nonzero(&counters, 0), vec![]);
}

#[test]
fn checked_step_does_what_the_plain_one_does() {
    let world = World::new(2, 2);
    let mut ruleset = vec![0u8; 256];
    ruleset[27] = 1;
    let state = [1u8, 0, 1, 0];
    let mut next = [9u8; 4];
    let mut indices = [9u8; 4];
    let mut counters = vec![0u32; 256];
    let outcome = world.try_run_tick(&ruleset, &state, &mut next, &mut indices, &mut counters);
    assert_eq!(outcome, Ok(()));
    assert_eq!(indices, [100, 27, 100, 27]);
    assert_eq!(next, [0, 1, 0, 1]);
    assert_eq!(nonzero(&counters, 0), vec![(27, 2), (100, 2)]);
}

#[test]
fn checked_step_refuses_bad_dimensions() {
    let ruleset = vec![0u8; 256];
    let mut counters = vec![1u32; 256];
    for (cols, rows) in [(0, 3), (3, 0), (-1, -1), (0, 0), (-2, 4)] {
        let world = World::new(cols, rows);
        let mut next = [9u8; 1];
        let mut indices = [9u8; 1];
        let outcome = world.try_run_tick(&ruleset, &[1], &mut next, &mut indices, &mut counters);
        assert_eq!(outcome, Err(TickError::InvalidDimensions));
        assert_eq!(next, [9]);
        assert_eq!(indices, [9]);
        assert_eq!(counters, vec![1u32; 256]);
    }
}

#[test]
fn checked_step_refuses_bad_lengths() {
    let world = World::new(2, 2);
    let good_rules = vec![0u8; 256];
    let state = [1u8, 0, 1, 0];

    let mut next = [9u8; 4];
    let mut indices = [9u8; 4];
    let mut counters = vec![1u32; 256];
    let short_rules = vec![0u8; 255];
    assert_eq!(
        world.try_run_tick(&short_rules, &state, &mut next, &mut indices, &mut counters),
        Err(TickError::InvalidBufferLength)
    );
    assert_eq!(
        world.try_run_tick(&good_rules, &state[..3], &mut next, &mut indices, &mut counters),
        Err(TickError::InvalidBufferLength)
    );
    let mut long_next = [9u8; 5];
    assert_eq!(
        world.try_run_tick(&good_rules, &state, &mut long_next, &mut indices, &mut counters),
        Err(TickError::InvalidBufferLength)
    );
    let mut short_indices = [9u8; 3];
    assert_eq!(
        world.try_run_tick(&good_rules, &state, &mut next, &mut short_indices, &mut counters),
        Err(TickError::InvalidBufferLength)
    );
    let mut long_counters = vec![1u32; 257];
    assert_eq!(
        world.try_run_tick(&good_rules, &state, &mut next, &mut indices, &mut long_counters),
        Err(TickError::InvalidBufferLength)
    );
    assert_eq!(next, [9; 4]);
    assert_eq!(indices, [9; 4]);
    assert_eq!(long_next, [9; 5]);
    assert_eq!(short_indices, [9; 3]);
    assert_eq!(counters, vec![1u32; 256]);
    assert_eq!(long_counters, vec![1u32; 257]);
}
