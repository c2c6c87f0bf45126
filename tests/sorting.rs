use quickest_sort::baseline::selection_sort;
use quickest_sort::order::check_sorted;
use quickest_sort::sort;
use quickest_sort::swap::swap_elements;

/// A small deterministic generator for varied inputs.
struct Lcg(u64);

impl Lcg {
    fn next(&mut self) -> u64 {
        self.0 = self.0.wrapping_mul(6364136223846793005).wrapping_add(1442695040888963407);
        self.0 >> 16
    }

    fn next_i32(&mut self) -> i32 {
        self.next() as u32 as i32
    }
}

fn counts_equal<T: Ord + Clone>(a: &[T], b: &[T]) -> bool {
    let mut x = a.to_vec();
    let mut y = b.to_vec();
    x.sort();
    y.sort();
    x == y
}

fn adjacent_ordered<T: Ord>(a: &[T]) -> bool {
    (1..a.len()).all(|j| a[j] >= a[j - 1])
}

#[test]
fn sorts_three_elements() {
    let mut array = vec![3, 1, 2];
    sort(&mut array);
    assert_eq!(array, vec![1, 2, 3]);
}

#[test]
fn sorts_empty() {
    let mut array: Vec<i32> = vec![];
    sort(&mut array);
    assert_eq!(array, Vec::<i32>::new());
}

#[test]
fn sorts_singleton() {
    let mut array = vec![5];
    sort(&mut array);
    assert_eq!(array, vec![5]);
}

#[test]
fn groups_equal_elements() {
    let mut array = vec![2, 2, 2, 1];
    sort(&mut array);
    assert_eq!(array, vec![1, 2, 2, 2]);
}

#[test]
fn all_equal_unchanged() {
    let mut array = vec![7, 7, 7, 7, 7];
    sort(&mut array);
    assert_eq!(array, vec![7, 7, 7, 7, 7]);
}

#[test]
fn descending_fully_reordered() {
    let mut array: Vec<i32> = (0..50).rev().collect();
    sort(&mut array);
    assert_eq!(array, (0..50).collect::<Vec<i32>>());
}

#[test]
fn extreme_values() {
    let mut array = vec![i32::MAX, 0, i32::MIN, -1, i32::MAX, i32::MIN, 1];
    sort(&mut array);
    assert_eq!(array, vec![i32::MIN, i32::MIN, -1, 0, 1, i32::MAX, i32::MAX]);
}

#[test]
fn random_integers_sorted_and_permuted() {
    let mut gen = Lcg(42);
    for round in 0..20 {
        let len = if round == 0 { 1000 } else { (gen.next() % 1001) as usize };
        let input: Vec<i32> = (0..len).map(|_| gen.next_i32()).collect();
        let mut array = input.clone();
        sort(&mut array);
        assert!(adjacent_ordered(&array));
        assert!(check_sorted(&array));
        assert!(counts_equal(&array, &input));
    }
}

#[test]
fn sort_is_idempotent() {
    let mut gen = Lcg(7);
    let mut array: Vec<i32> = (0..300).map(|_| (gen.next() % 20) as i32).collect();
    sort(&mut array);
    let once = array.clone();
    sort(&mut array);
    assert_eq!(array, once);
}

#[test]
fn already_sorted_input_unchanged() {
    let mut array = vec![1, 2, 2, 3, 10, 10, 11];
    sort(&mut array);
    assert_eq!(array, vec![1, 2, 2, 3, 10, 10, 11]);
}

#[test]
fn sorts_chars() {
    let mut gen = Lcg(3);
    let input: Vec<char> = (0..100)
        .map(|_| char::from_u32((gen.next() % 0x3000) as u32).unwrap_or('a'))
        .collect();
    let mut array = input.clone();
    sort(&mut array);
    assert!(adjacent_ordered(&array));
    assert!(check_sorted(&array));
    assert!(counts_equal(&array, &input));
}

#[test]
fn sorts_variable_length_strings() {
    let mut gen = Lcg(11);
    let input: Vec<String> = (0..10_000)
        .map(|_| {
            let len = (gen.next() % 24) as usize;
            (0..len).map(|_| (b'a' + (gen.next() % 5) as u8) as char).collect()
        })
        .collect();
    let mut array = input.clone();
    sort(&mut array);
    assert!(adjacent_ordered(&array));
    assert!(check_sorted(&array));
    assert!(counts_equal(&array, &input));
}

#[test]
fn sorts_words() {
    let mut array = vec![
        String::from("pear"),
        String::from("apple"),
        String::from(""),
        String::from("fig"),
        String::from("apple"),
    ];
    sort(&mut array);
    assert_eq!(array, vec!["", "apple", "apple", "fig", "pear"]);
}

#[test]
fn baseline_sorts_three_elements() {
    let mut array = vec![3, 1, 2];
    selection_sort(&mut array);
    assert_eq!(array, vec![1, 2, 3]);
}

#[test]
fn baseline_sorts_empty() {
    let mut array: Vec<i32> = vec![];
    selection_sort(&mut array);
    assert!(array.is_empty());
}

#[test]
fn baseline_matches_core() {
    let mut gen = Lcg(99);
    for _ in 0..20 {
        let len = (gen.next() % 400) as usize;
        let input: Vec<i32> = (0..len).map(|_| (gen.next() % 50) as i32 - 25).collect();
        let mut by_core = input.clone();
        let mut by_baseline = input.clone();
        sort(&mut by_core);
        selection_sort(&mut by_baseline);
        assert!(check_sorted(&by_core));
        assert!(check_sorted(&by_baseline));
        assert!(counts_equal(&by_core, &by_baseline));
        assert_eq!(by_core, by_baseline);
    }
}

#[test]
fn check_sorted_accepts_and_rejects() {
    assert!(check_sorted(&Vec::<i32>::new()));
    assert!(check_sorted(&vec![4]));
    assert!(check_sorted(&vec![1, 1, 2, 9]));
    assert!(!check_sorted(&vec![1, 3, 2]));
    assert!(!check_sorted(&vec![2, 1]));
}

#[test]
fn swap_exchanges_two_positions() {
    let mut array = vec![10, 20, 30, 40];
    swap_elements(&mut array, 3, 1);
    assert_eq!(array, vec![10, 40, 30, 20]);
    swap_elements(&mut array, 2, 2);
    assert_eq!(array, vec![10, 40, 30, 20]);
    swap_elements(&mut array, 0, 2);
    assert_eq!(array, vec![30, 40, 10, 20]);
}
