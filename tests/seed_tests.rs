use alloy::primitives::{keccak256, U256 as AlloyU256};
use rand_seed::range::{fit_to_range, SeedError};
use rand_seed::seed::RandSeed;
use rand_seed::uint::U256;

fn small(v: u8) -> U256 {
    let mut b = [0u8; 32];
    b[0] = v;
    U256::from_le_bytes(b)
}

fn to_alloy(x: &U256) -> AlloyU256 {
    AlloyU256::from_le_bytes(x.to_le_bytes())
}

fn from_alloy(x: AlloyU256) -> U256 {
    U256::from_le_bytes(x.to_le_bytes())
}

#[test]
fn short_input_is_padded_with_ones() {
    let s = RandSeed::from_bytes(&[7, 8, 9]);
    let b = s.as_bytes();
    assert_eq!(b.len(), 32);
    assert_eq!(&b[0..3], &[7, 8, 9]);
    assert!(b[3..].iter().all(|x| *x == 0x01));
}

#[test]
fn empty_input_is_all_ones() {
    let s = RandSeed::from_bytes(&[]);
    assert_eq!(s.as_bytes(), &[0x01u8; 32][..]);
}

#[test]
fn long_input_keeps_first_32_bytes() {
    let input: Vec<u8> = (0u8..40).collect();
    let s = RandSeed::from_bytes(&input);
    assert_eq!(s.as_bytes(), &input[0..32]);
    let exact: Vec<u8> = (100u8..132).collect();
    assert_eq!(RandSeed::from_bytes(&exact).as_bytes(), &exact[..]);
}

#[test]
fn u256_round_trip() {
    let mut bytes = [0u8; 32];
    for (i, b) in bytes.iter_mut().enumerate() {
        *b = (i as u8).wrapping_mul(37).wrapping_add(5);
    }
    let x = U256::from_le_bytes(bytes);
    let s = RandSeed::from_u256(x);
    assert_eq!(s.as_bytes(), &bytes[..]);
    assert_eq!(s.as_u256(), x);
    let max = U256::max_value();
    assert_eq!(RandSeed::from_u256(max).as_u256(), max);
    assert_eq!(max.to_le_bytes(), [0xffu8; 32]);
}

#[test]
fn from_str_matches_from_bytes() {
    for s in ["", "test", "h\u{e9}llo w\u{f6}rld", "a string that is longer than thirty-two bytes"] {
        assert_eq!(RandSeed::from_str(s), RandSeed::from_bytes(s.as_bytes()));
    }
}

#[test]
fn test_string_views() {
    let s = RandSeed::from_str("test");
    let mut expected = [0x01u8; 32];
    expected[0..4].copy_from_slice(&[0x74, 0x65, 0x73, 0x74]);
    assert_eq!(s.as_bytes(), &expected[..]);
    assert_eq!(s.as_u64(), u64::from_le_bytes([0x74, 0x65, 0x73, 0x74, 1, 1, 1, 1]));
    assert_eq!(s.as_u64(), 0x0101_0101_7473_6574);
    assert_eq!(s.as_u128(), u128::from_le_bytes(expected[0..16].try_into().unwrap()));
    assert_eq!(s.as_u256().to_le_bytes(), expected);
}

#[test]
fn test_string_derivation_is_repeatable() {
    let a = RandSeed::from_str("test");
    let b = RandSeed::from_str("test");
    let va = a.seed_values(3, None, None).unwrap();
    let vb = b.seed_values(3, None, None).unwrap();
    assert_eq!(va.len(), 3);
    assert_eq!(va, vb);
    assert_eq!(va, a.seed_values(3, None, None).unwrap());
    for v in &va {
        assert_eq!(v.as_bytes().len(), 32);
    }
    assert_ne!(va[0], va[1]);
    assert_ne!(va[1], va[2]);
}

#[test]
fn views_agree_for_equal_inputs() {
    let a = RandSeed::from_bytes(&[1, 2, 3, 4, 5]);
    let b = RandSeed::from_bytes(&[1, 2, 3, 4, 5]);
    assert_eq!(a.as_u64(), b.as_u64());
    assert_eq!(a.as_u128(), b.as_u128());
    assert_eq!(a.as_u256(), b.as_u256());
    assert_eq!(
        a.seed_values(4, Some(small(3)), Some(small(200))),
        b.seed_values(4, Some(small(3)), Some(small(200)))
    );
}

#[test]
fn narrow_views_truncate_wide_view() {
    let input: Vec<u8> = (200u8..232).collect();
    let s = RandSeed::from_bytes(&input);
    let wide = to_alloy(&s.as_u256());
    assert_eq!(s.as_u64(), wide.as_limbs()[0]);
    let low128 = (wide.as_limbs()[0] as u128) | ((wide.as_limbs()[1] as u128) << 64);
    assert_eq!(s.as_u128(), low128);
}

#[test]
fn zero_seed_bounded_scenario() {
    let s = RandSeed::from_u256(small(0));
    let v = s.seed_values(1, Some(small(10)), Some(small(20))).unwrap();
    assert_eq!(v.len(), 1);
    let x = to_alloy(&v[0].as_u256());
    assert!(x >= AlloyU256::from(10u64) && x < AlloyU256::from(20u64));
}

#[test]
fn derived_values_stay_in_range() {
    let s = RandSeed::from_str("range");
    let lo = from_alloy(AlloyU256::from(1_000_000u64));
    let hi = from_alloy(AlloyU256::from(1_000_050u64));
    let v = s.seed_values(200, Some(lo), Some(hi)).unwrap();
    assert_eq!(v.len(), 200);
    for x in &v {
        let n = to_alloy(&x.as_u256());
        assert!(n >= AlloyU256::from(1_000_000u64) && n < AlloyU256::from(1_000_050u64));
    }
}

#[test]
fn amount_zero_gives_nothing() {
    let s = RandSeed::from_str("none");
    assert_eq!(s.seed_values(0, None, None).unwrap().len(), 0);
}

#[test]
fn equal_bounds_are_refused() {
    let s = RandSeed::from_str("test");
    assert_eq!(s.seed_values(3, Some(small(5)), Some(small(5))), Err(SeedError::InvalidRange));
    assert_eq!(s.seed_values(0, Some(small(5)), Some(small(5))), Err(SeedError::InvalidRange));
}

#[test]
fn reversed_bounds_are_refused() {
    let s = RandSeed::from_str("test");
    assert_eq!(s.seed_values(3, Some(small(9)), Some(small(2))), Err(SeedError::InvalidRange));
    assert_eq!(s.seed_values(1, None, Some(small(0))), Err(SeedError::InvalidRange));
}

#[test]
fn first_value_of_zero_seed_is_digest_of_zero() {
    let s = RandSeed::from_u256(small(0));
    let v = s.seed_values(1, None, None).unwrap();
    let digest = keccak256([0u8; 32]);
    assert_eq!(v[0].as_bytes(), &digest.0[..]);
    assert_eq!(
        v[0].as_bytes()[0..4],
        [0x29, 0x0d, 0xec, 0xd9]
    );
}

#[test]
fn counter_wraps_at_the_top() {
    let s = RandSeed::from_u256(U256::max_value());
    let v = s.seed_values(2, None, None).unwrap();
    let top = keccak256([0xffu8; 32]);
    let zero = keccak256([0u8; 32]);
    assert_eq!(v[0].as_bytes(), &top.0[..]);
    assert_eq!(v[1].as_bytes(), &zero.0[..]);
}

#[test]
fn derivation_matches_hash_then_reduce() {
    let s = RandSeed::from_str("reference");
    let min = AlloyU256::from(12345u64);
    let max = AlloyU256::from(1u64) << 200;
    let v = s.seed_values(5, Some(from_alloy(min)), Some(from_alloy(max))).unwrap();
    let base = to_alloy(&s.as_u256());
    for (i, x) in v.iter().enumerate() {
        let num = base.wrapping_add(AlloyU256::from(i));
        let raw = AlloyU256::from_le_bytes(keccak256(num.to_le_bytes::<32>()).0);
        let expected = raw % (max - min) + min;
        assert_eq!(to_alloy(&x.as_u256()), expected);
    }
}

#[test]
fn lower_bound_only_uses_rest_of_space() {
    let s = RandSeed::from_str("lower");
    let min = AlloyU256::MAX - AlloyU256::from(2u64);
    let v = s.seed_values(4, Some(from_alloy(min)), None).unwrap();
    let base = to_alloy(&s.as_u256());
    for (i, x) in v.iter().enumerate() {
        let num = base.wrapping_add(AlloyU256::from(i));
        let raw = AlloyU256::from_le_bytes(keccak256(num.to_le_bytes::<32>()).0);
        let expected = raw % AlloyU256::from(3u64) + min;
        assert_eq!(to_alloy(&x.as_u256()), expected);
    }
}

#[test]
fn fit_to_range_exact_values() {
    assert_eq!(fit_to_range(&small(25), &Some(small(10)), &Some(small(20))), Ok(small(15)));
    assert_eq!(fit_to_range(&small(7), &None, &Some(small(5))), Ok(small(2)));
    assert_eq!(fit_to_range(&small(3), &Some(small(5)), &None), Ok(small(8)));
    let top = U256::max_value();
    assert_eq!(fit_to_range(&top, &None, &None), Ok(top));
    let near = from_alloy(AlloyU256::MAX - AlloyU256::from(1u64));
    assert_eq!(fit_to_range(&near, &Some(small(1)), &None), Ok(top));
    assert_eq!(fit_to_range(&top, &Some(small(1)), &None), Ok(small(1)));
    assert_eq!(fit_to_range(&small(25), &Some(small(20)), &Some(small(20))), Err(SeedError::InvalidRange));
    assert_eq!(fit_to_range(&small(25), &Some(small(21)), &Some(small(20))), Err(SeedError::InvalidRange));
}

#[test]
fn random_seeds_are_full_length() {
    let a = RandSeed::new();
    let b = RandSeed::default();
    assert_eq!(a.as_bytes().len(), 32);
    assert_eq!(b.as_bytes().len(), 32);
}
