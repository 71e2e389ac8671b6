use bswp::pattern::{swap_byte, swap_iter, ConfigError, Pattern, Predicate};
use bswp::{BytePattern, PositionPredicate};

fn every(periodicity: usize) -> Predicate {
    Predicate::new().with_periodicity(periodicity).unwrap()
}

#[test]
fn test_swap() {
    let pattern = Pattern::new(0xFF).with_mask(0x0F);
    assert_eq!(pattern.eval(0x0), 0x0F);
    let pattern = Pattern::new(0xFF).with_mask(0xF0);
    assert_eq!(pattern.eval(0x0), 0xF0);
}

#[test]
fn test_eval_2_3_none() {
    let locality = every(2).with_offset(3);
    let unexpected_vec: Vec<usize> = vec![0, 1, 2, 4, 6, 8];
    let expected_vec: Vec<usize> = vec![3, 5, 7, 9];
    for unexpected in unexpected_vec {
        assert!(!locality.eval(unexpected));
    }
    for expected in expected_vec {
        assert!(locality.eval(expected));
    }
}

#[test]
fn test_eval_2_3_2() {
    let locality = every(2).with_offset(3).with_limit(2);
    let unexpected_vec: Vec<usize> = vec![0, 1, 2, 4, 6, 7, 8, 9]; // 7, 9 unexpected because of limit
    let expected_vec: Vec<usize> = vec![3, 5];
    for unexpected in unexpected_vec {
        assert!(!locality.eval(unexpected), "{} is unexpected", unexpected);
    }
    for expected in expected_vec {
        assert!(locality.eval(expected));
    }
}

#[test]
fn test_eval_2_1_none() {
    let locality = every(2).with_offset(3);
    let unexpected_vec: Vec<usize> = vec![0, 2, 4, 6, 8];
    let expected_vec: Vec<usize> = vec![3, 5, 7, 9];
    for unexpected in unexpected_vec {
        assert!(!locality.eval(unexpected));
    }
    for expected in expected_vec {
        assert!(locality.eval(expected));
    }
}

#[test]
fn test_iter_swap() {
    let predicate = every(2).with_offset(1);
    let pattern = Pattern::new(0x42).with_mask(0xFF);
    let swaps = &[(pattern, predicate)];

    let source: [u8; 4] = [0x41, 0x41, 0x41, 0x41];
    let swapped = swap_iter(&source, swaps);
    let swapped: Vec<u8> = swapped.into_iter().collect();
    assert_eq!(swapped, vec!(0x41, 0x42, 0x41, 0x42));
}

#[test]
fn pattern_mixes_value_and_input_bits() {
    let pattern = Pattern::new(0b10101111).with_mask(0b10011010);
    assert_eq!(pattern.eval(0b00000000), 0b10001010);
    assert_eq!(pattern.eval(0b11111111), 0b11101111);
    let pattern = Pattern::new(0x0F).with_mask(0x3C);
    assert_eq!(pattern.eval(0xA5), 0x8D);
}

#[test]
fn full_mask_replaces_and_empty_mask_keeps() {
    for value in 0..=255u8 {
        assert_eq!(Pattern::new(0x5A).eval(value), 0x5A);
        assert_eq!(Pattern::new(0x5A).with_mask(0x00).eval(value), value);
    }
}

#[test]
fn nothing_before_offset_matches() {
    let predicate = every(3).with_offset(7);
    for position in 0..7 {
        assert!(!predicate.eval(position));
    }
    assert!(predicate.eval(7));
    assert!(predicate.eval(10));
    assert!(!predicate.eval(11));
}

#[test]
fn odd_positions_match_with_offset_one() {
    let predicate = every(2).with_offset(1);
    for position in 0..40 {
        assert_eq!(predicate.eval(position), position % 2 == 1);
    }
}

#[test]
fn limit_two_matches_three_and_five_only() {
    let predicate = every(2).with_offset(3).with_limit(2);
    for position in 0..40 {
        assert_eq!(predicate.eval(position), position == 3 || position == 5);
    }
}

#[test]
fn limit_zero_matches_nothing() {
    let predicate = Predicate::new().with_limit(0);
    for position in 0..10 {
        assert!(!predicate.eval(position));
    }
}

#[test]
fn no_limit_removes_the_limit() {
    let predicate = every(2).with_limit(1).with_no_limit();
    assert_eq!(predicate.limit(), None);
    assert!(predicate.eval(0));
    assert!(predicate.eval(200));
}

#[test]
fn default_predicate_matches_everything() {
    let predicate = Predicate::default();
    assert_eq!(predicate.periodicity(), 1);
    assert_eq!(predicate.offset(), 0);
    assert_eq!(predicate.limit(), None);
    for position in [0usize, 1, 2, 1000, usize::MAX] {
        assert!(predicate.eval(position));
    }
}

#[test]
fn builders_set_fields() {
    let predicate = every(4).with_offset(9).with_limit(3);
    assert_eq!(predicate.periodicity(), 4);
    assert_eq!(predicate.offset(), 9);
    assert_eq!(predicate.limit(), Some(3));
}

#[test]
fn zero_periodicity_is_rejected() {
    let result = Predicate::new().with_offset(2).with_periodicity(0);
    assert!(matches!(result, Err(ConfigError::InvalidConfiguration)));
}

#[test]
fn last_rule_wins() {
    let ones = Pattern::new(0xFF).with_mask(0xFF);
    let zeros = Pattern::new(0x00).with_mask(0xFF);
    let input: Vec<u8> = (0..=255u8).collect();
    let zeroing = [(ones, Predicate::new()), (zeros, Predicate::new())];
    let filling = [(zeros, Predicate::new()), (ones, Predicate::new())];
    assert_eq!(swap_iter(&input, &zeroing), vec![0u8; 256]);
    assert_eq!(swap_iter(&input, &filling), vec![0xFFu8; 256]);
}

#[test]
fn later_rule_remasks_earlier_result() {
    let high = Pattern::new(0xF0).with_mask(0xF0);
    let low = Pattern::new(0x03).with_mask(0x0F);
    let swaps = [(high, every(2)), (low, every(3))];
    assert_eq!(swap_byte(&swaps, 0, 0x00), 0xF3);
    assert_eq!(swap_byte(&swaps, 2, 0x00), 0xF0);
    assert_eq!(swap_byte(&swaps, 3, 0x00), 0x03);
    assert_eq!(swap_byte(&swaps, 1, 0x55), 0x55);
}

#[test]
fn scenario_even_positions_replaced() {
    let swaps = [(Pattern::new(0x42).with_mask(0xFF), every(2).with_offset(0))];
    let source = [0x41, 0x42, 0x43, 0x44];
    assert_eq!(swap_iter(&source, &swaps), vec![0x42, 0x42, 0x42, 0x44]);
}

#[test]
fn empty_source_and_empty_ruleset() {
    let swaps: [(Pattern, Predicate); 0] = [];
    assert_eq!(swap_iter(&[0x10, 0x20], &swaps), vec![0x10, 0x20]);
    let swaps = [(Pattern::new(0x01), Predicate::new())];
    assert_eq!(swap_iter(&[], &swaps), Vec::<u8>::new());
}
