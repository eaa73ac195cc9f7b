use olympic_lib::bigints::{wide_cmp, wide_product};
use std::cmp::Ordering;

fn reconstruct(pair: (u64, u64)) -> u128 {
    ((pair.0 as u128) << 64) | pair.1 as u128
}

#[test]
fn zero_times_anything_is_zero() {
    assert_eq!(wide_product(0, 0), (0, 0));
    assert_eq!(wide_product(0, 1), (0, 0));
    assert_eq!(wide_product(0, u64::MAX), (0, 0));
    assert_eq!(wide_product(12345, 0), (0, 0));
}

#[test]
fn max_times_max_exact_value() {
    assert_eq!(wide_product(u64::MAX, u64::MAX), (0xFFFF_FFFF_FFFF_FFFE, 0x0000_0000_0000_0001));
}

#[test]
fn small_products() {
    assert_eq!(wide_product(1, 1), (0, 1));
    assert_eq!(wide_product(3, 7), (0, 21));
    assert_eq!(wide_product(1 << 32, 1 << 32), (1, 0));
    assert_eq!(wide_product(1 << 63, 2), (1, 0));
}

#[test]
fn commutes_on_samples() {
    let samples: [u64; 8] = [0, 1, 2, 0xFFFF_FFFF, 1 << 32, 0xDEAD_BEEF_CAFE, 1 << 63, u64::MAX];
    for &a in samples.iter() {
        for &b in samples.iter() {
            assert_eq!(wide_product(a, b), wide_product(b, a));
        }
    }
}

#[test]
fn round_trip_on_edge_and_random_pairs() {
    let edges: [u64; 6] = [0, 1, (1 << 32) - 1, 1 << 32, 1 << 63, u64::MAX];
    for &a in edges.iter() {
        for &b in edges.iter() {
            let p = wide_product(a, b);
            assert_eq!(reconstruct(p), a as u128 * b as u128);
            assert_eq!(reconstruct(wide_product(b, a)), a as u128 * b as u128);
        }
    }
    let mut state: u64 = 0x853C_49E6_748F_EA9B;
    let mut step = || {
        state = state.wrapping_mul(6364136223846793005).wrapping_add(1442695040888963407);
        state
    };
    for _ in 0..110 {
        let a = step();
        let b = step();
        let p = wide_product(a, b);
        assert_eq!(reconstruct(p), a as u128 * b as u128);
        assert_eq!(wide_product(b, a), p);
    }
}

#[test]
fn wide_cmp_orders_products() {
    assert_eq!(wide_cmp(2, 3, 7, 1), Ordering::Less);
    assert_eq!(wide_cmp(7, 1, 2, 3), Ordering::Greater);
    assert_eq!(wide_cmp(6, 2, 3, 4), Ordering::Equal);
    assert_eq!(wide_cmp(u64::MAX, u64::MAX, u64::MAX, u64::MAX - 1), Ordering::Greater);
    assert_eq!(wide_cmp(1 << 63, 2, u64::MAX, 1), Ordering::Greater);
}
