use checked_sum::sum::{sum_u32_1, sum_u32_2, sum_u32s};

fn all_three(numbers: &[u32]) -> [Option<u32>; 3] {
    [sum_u32s(numbers), sum_u32_1(numbers), sum_u32_2(numbers)]
}

#[test]
fn small_values_give_their_exact_sum() {
    assert_eq!(all_three(&[1, 2, 3, 4, 10000]), [Some(10010); 3]);
}

#[test]
fn empty_input_sums_to_zero() {
    assert_eq!(all_three(&[]), [Some(0); 3]);
}

#[test]
fn zeros_sum_to_zero() {
    assert_eq!(all_three(&[0, 0, 0, 0]), [Some(0); 3]);
}

#[test]
fn single_value_is_its_own_sum() {
    assert_eq!(all_three(&[42]), [Some(42); 3]);
}

#[test]
fn single_maximum_is_representable() {
    assert_eq!(all_three(&[4294967295]), [Some(4294967295); 3]);
    assert_eq!(all_three(&[u32::MAX]), [Some(u32::MAX); 3]);
}

#[test]
fn maximum_plus_one_overflows() {
    assert_eq!(all_three(&[4294967295, 1]), [None; 3]);
}

#[test]
fn two_halves_of_the_range_overflow() {
    assert_eq!(all_three(&[2147483648, 2147483648]), [None; 3]);
}

#[test]
fn sum_that_lands_on_the_maximum_is_present() {
    assert_eq!(all_three(&[2147483647, 2147483648]), [Some(4294967295); 3]);
    assert_eq!(all_three(&[4294967294, 1, 0]), [Some(4294967295); 3]);
}

#[test]
fn sum_one_past_the_maximum_is_absent() {
    assert_eq!(all_three(&[4294967294, 1, 1]), [None; 3]);
}

#[test]
fn overflow_in_a_prefix_is_final() {
    assert_eq!(all_three(&[4294967295, 1, 0, 0, 0]), [None; 3]);
    assert_eq!(all_three(&[3000000000, 3000000000, 5, 6]), [None; 3]);
}

#[test]
fn overflow_at_the_last_element_is_detected() {
    assert_eq!(all_three(&[1, 2, 3, 4294967295]), [None; 3]);
}

#[test]
fn zeros_do_not_disturb_a_sum_at_the_maximum() {
    assert_eq!(all_three(&[0, 4294967295, 0, 0]), [Some(4294967295); 3]);
}

#[test]
fn long_input_is_summed_exactly() {
    let numbers: Vec<u32> = (1..=1000).collect();
    assert_eq!(all_three(&numbers), [Some(500500); 3]);
}

#[test]
fn long_input_that_overflows_is_absent() {
    let numbers: Vec<u32> = vec![65536; 65536];
    assert_eq!(all_three(&numbers), [None; 3]);
    assert_eq!(all_three(&numbers[1..]), [Some(4294901760); 3]);
}

#[test]
fn input_is_left_untouched() {
    let numbers = vec![5u32, 6, 7];
    let _ = all_three(&numbers);
    assert_eq!(numbers, vec![5, 6, 7]);
}

#[test]
fn result_matches_wide_arithmetic() {
    let inputs: [&[u32]; 8] = [
        &[],
        &[0],
        &[1, 1, 1],
        &[4294967295],
        &[4294967295, 0],
        &[0, 4294967295, 1],
        &[1431655765, 1431655765, 1431655765],
        &[1431655765, 1431655765, 1431655766],
    ];
    for numbers in inputs {
        let wide: u64 = numbers.iter().map(|&x| u64::from(x)).sum();
        let expected = u32::try_from(wide).ok();
        assert_eq!(all_three(numbers), [expected; 3]);
    }
}

#[test]
fn implementations_agree_on_many_inputs() {
    let mut state: u32 = 2463534242;
    for round in 0..200 {
        let len = round % 7;
        let mut numbers: Vec<u32> = Vec::new();
        for _ in 0..len {
            state ^= state << 13;
            state ^= state >> 17;
            state ^= state << 5;
            let shift = state % 3 * 8;
            numbers.push(state >> shift);
        }
        let looped = sum_u32s(&numbers);
        assert_eq!(sum_u32_1(&numbers), looped);
        assert_eq!(sum_u32_2(&numbers), looped);
    }
}

#[test]
fn order_does_not_change_a_present_sum() {
    let orders: [[u32; 3]; 6] = [
        [4294967290, 2, 3],
        [4294967290, 3, 2],
        [2, 4294967290, 3],
        [2, 3, 4294967290],
        [3, 4294967290, 2],
        [3, 2, 4294967290],
    ];
    for numbers in orders {
        assert_eq!(all_three(&numbers), [Some(4294967295); 3]);
    }
}

#[test]
fn order_does_not_change_an_overflow() {
    let orders: [[u32; 3]; 6] = [
        [4294967295, 1, 0],
        [4294967295, 0, 1],
        [1, 4294967295, 0],
        [1, 0, 4294967295],
        [0, 4294967295, 1],
        [0, 1, 4294967295],
    ];
    for numbers in orders {
        assert_eq!(all_three(&numbers), [None; 3]);
    }
}

#[test]
fn reversed_input_gives_the_same_result() {
    let forward: Vec<u32> = vec![1, 2, 3, 4, 10000, 4000000000];
    let backward: Vec<u32> = forward.iter().rev().copied().collect();
    assert_eq!(sum_u32s(&forward), Some(4000010010));
    assert_eq!(all_three(&forward), all_three(&backward));
    let forward: Vec<u32> = vec![4000000000, 1, 294967295];
    let backward: Vec<u32> = forward.iter().rev().copied().collect();
    assert_eq!(sum_u32s(&forward), None);
    assert_eq!(all_three(&forward), all_three(&backward));
}
