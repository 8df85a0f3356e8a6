use hexlife::World;

#[test]
fn checksum_of_no_bytes_is_zero() {
    let world = World::new(3, 3);
    assert_eq!(world.calculate_checksum(&[]), 0);
}

#[test]
fn checksum_follows_the_recurrence() {
    let world = World::new(3, 3);
    // (1 * 31 + 2) * 31 + 3
    assert_eq!(world.calculate_checksum(&[1, 2, 3]), 1026);
    // (3 * 31 + 2) * 31 + 1
    assert_eq!(world.calculate_checksum(&[3, 2, 1]), 2946);
    assert_eq!(world.calculate_checksum(&[0, 0, 7]), 7);
    assert_eq!(world.calculate_checksum(&[1, 2]), 33);
    assert_eq!(world.calculate_checksum(&[2, 1]), 63);
}

#[test]
fn checksum_is_order_sensitive() {
    let world = World::new(2, 2);
    assert_ne!(
        world.calculate_checksum(&[1, 2, 3]),
        world.calculate_checksum(&[3, 2, 1])
    );
    assert_ne!(
        world.calculate_checksum(&[9, 1, 2, 7]),
        world.calculate_checksum(&[9, 2, 1, 7])
    );
}

#[test]
fn checksum_wraps_around() {
    let world = World::new(1, 1);
    assert_eq!(world.calculate_checksum(&[255; 8]), -330977408);
    assert_eq!(world.calculate_checksum(&[200; 7]), -1266166328);
    assert_eq!(world.calculate_checksum(&[128; 7]), 1423036544);
    let all: Vec<u8> = (0..=255).collect();
    assert_eq!(world.calculate_checksum(&all), 452919424);
}

#[test]
fn checksum_is_reproducible_and_ignores_the_grid() {
    let bytes = [7u8, 0, 255, 31, 1, 1, 2];
    let a = World::new(2, 2);
    let b = World::new(40, 25);
    let first = a.calculate_checksum(&bytes);
    assert_eq!(first, a.calculate_checksum(&bytes));
    assert_eq!(first, b.calculate_checksum(&bytes));
}

#[test]
fn checksum_matches_wide_arithmetic() {
    let world = World::new(2, 2);
    let bytes: Vec<u8> = (0..100u32).map(|k| (k * 37 % 251) as u8).collect();
    let mut wide: i64 = 0;
    for &b in &bytes {
        wide = (wide * 31 + b as i64).rem_euclid(1 << 32);
    }
    let expected = if wide >= 1 << 31 { wide - (1 << 32) } else { wide };
    assert_eq!(world.calculate_checksum(&bytes) as i64, expected);
}
