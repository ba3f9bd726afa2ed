use color_census::distribution::{checked_merge, merge_maps, CountMismatch, Distribution};

fn of(names: &[&str]) -> Distribution {
    let mut distribution = Distribution::new();
    for name in names {
        distribution.record(String::from(*name));
    }
    distribution
}

fn sorted_entries(distribution: &Distribution) -> Vec<(String, u32)> {
    let mut entries = distribution.entries();
    entries.sort();
    entries
}

fn pairs(entries: &[(&str, u32)]) -> Vec<(String, u32)> {
    entries.iter().map(|(name, count)| (String::from(*name), *count)).collect()
}

/// A distribution that holds `name` 2^doublings times.
fn doubled(name: &str, doublings: u32) -> Distribution {
    let mut distribution = Distribution::single(String::from(name));
    for _ in 0..doublings {
        let copy = distribution.clone();
        distribution = merge_maps(distribution, copy);
    }
    distribution
}

#[test]
fn new_distribution_is_empty() {
    let empty = Distribution::new();
    assert_eq!(empty.len(), 0);
    assert_eq!(empty.total(), 0);
    assert_eq!(empty.count("Red"), 0);
    assert!(empty.entries().is_empty());
    assert_eq!(Distribution::with_capacity(865).len(), 0);
}

#[test]
fn recording_an_unseen_name_inserts_it_with_count_one() {
    let mut distribution = Distribution::new();
    distribution.record(String::from("Red"));
    assert_eq!(distribution.count("Red"), 1);
    assert_eq!(distribution.len(), 1);
    assert_eq!(sorted_entries(&distribution), pairs(&[("Red", 1)]));
}

#[test]
fn recording_a_known_name_raises_its_count() {
    let distribution = of(&["Red", "Blue", "Red", "Red"]);
    assert_eq!(distribution.count("Red"), 3);
    assert_eq!(distribution.count("Blue"), 1);
    assert_eq!(distribution.count("Green"), 0);
    assert_eq!(distribution.len(), 2);
    assert_eq!(distribution.total(), 4);
}

#[test]
fn entries_hold_each_name_once_with_its_count() {
    let distribution = of(&["b", "a", "b", "c", "a"]);
    assert_eq!(sorted_entries(&distribution), pairs(&[("a", 2), ("b", 2), ("c", 1)]));
}

#[test]
fn single_holds_one_observation() {
    let one = Distribution::single(String::from("Navy"));
    assert_eq!(one.entries(), pairs(&[("Navy", 1)]));
    assert_eq!(one.total(), 1);
}

#[test]
fn merge_sums_the_counts_of_shared_names() {
    let left = of(&["Red", "Red", "Blue"]);
    let right = of(&["Blue", "Green", "Blue"]);
    let sum = merge_maps(left, right);
    assert_eq!(sorted_entries(&sum), pairs(&[("Blue", 3), ("Green", 1), ("Red", 2)]));
    assert_eq!(sum.total(), 6);
}

#[test]
fn merge_inserts_the_incoming_count_of_an_unseen_name() {
    let left = of(&["Red"]);
    let right = of(&["Green", "Green", "Green"]);
    let nested = merge_maps(of(&["Blue"]), merge_maps(left, right));
    assert_eq!(nested.count("Green"), 3);
    assert_eq!(sorted_entries(&nested), pairs(&[("Blue", 1), ("Green", 3), ("Red", 1)]));
}

#[test]
fn merge_is_commutative() {
    let one = merge_maps(of(&["a", "b", "b"]), of(&["b", "c"]));
    let other = merge_maps(of(&["b", "c"]), of(&["a", "b", "b"]));
    assert_eq!(sorted_entries(&one), sorted_entries(&other));
    assert_eq!(sorted_entries(&one), pairs(&[("a", 1), ("b", 3), ("c", 1)]));
}

#[test]
fn merge_is_associative() {
    let a = || of(&["x", "y"]);
    let b = || of(&["y", "z", "z"]);
    let c = || of(&["x", "w"]);
    let left_first = merge_maps(merge_maps(a(), b()), c());
    let right_first = merge_maps(a(), merge_maps(b(), c()));
    assert_eq!(sorted_entries(&left_first), sorted_entries(&right_first));
    assert_eq!(sorted_entries(&left_first), pairs(&[("w", 1), ("x", 2), ("y", 2), ("z", 2)]));
}

#[test]
fn empty_distribution_is_the_identity_of_merge() {
    let left = merge_maps(Distribution::new(), of(&["a", "b", "a"]));
    let right = merge_maps(of(&["a", "b", "a"]), Distribution::new());
    assert_eq!(sorted_entries(&left), pairs(&[("a", 2), ("b", 1)]));
    assert_eq!(sorted_entries(&right), pairs(&[("a", 2), ("b", 1)]));
}

#[test]
fn recording_in_any_order_gives_the_same_distribution() {
    let one = of(&["a", "b", "a", "c", "b", "a"]);
    let other = of(&["c", "a", "a", "b", "b", "a"]);
    assert_eq!(sorted_entries(&one), sorted_entries(&other));
}

#[test]
fn clone_keeps_names_and_counts() {
    let original = of(&["q", "p", "q"]);
    let copy = original.clone();
    assert_eq!(sorted_entries(&copy), sorted_entries(&original));
    assert_eq!(sorted_entries(&copy), pairs(&[("p", 1), ("q", 2)]));
}

#[test]
fn total_is_the_number_of_observations() {
    assert_eq!(of(&["a", "b", "a", "c", "b", "a"]).total(), 6);
    assert_eq!(doubled("a", 20).total(), 1 << 20);
}

#[test]
fn check_total_accepts_the_matching_number() {
    assert_eq!(of(&["a", "b", "a"]).check_total(3), Ok(()));
    assert_eq!(Distribution::new().check_total(0), Ok(()));
}

#[test]
fn check_total_reports_a_mismatch() {
    assert_eq!(
        of(&["a", "b", "a"]).check_total(8),
        Err(CountMismatch { expected: 8, counted: 3 })
    );
    assert_eq!(
        Distribution::new().check_total(16_777_216),
        Err(CountMismatch { expected: 16_777_216, counted: 0 })
    );
}

#[test]
fn counts_that_would_run_over_cannot_be_merged() {
    let half = doubled("a", 31);
    assert_eq!(half.count("a"), 1 << 31);
    let other = half.clone();
    assert!(!half.can_merge(&other));
    assert!(checked_merge(half, other).is_none());
}

#[test]
fn counts_that_just_fit_can_be_merged() {
    let half = doubled("a", 31);
    let mut rest = doubled("a", 30);
    rest = merge_maps(rest, doubled("a", 29));
    assert!(half.can_merge(&rest));
    let sum = checked_merge(half, rest).unwrap();
    assert_eq!(sum.count("a"), (1u32 << 31) + (1 << 30) + (1 << 29));
    let unrelated = doubled("b", 31);
    assert!(sum.can_merge(&unrelated));
    let both = checked_merge(sum, unrelated).unwrap();
    assert_eq!(both.total(), (1u128 << 32) + (1 << 30) + (1 << 29));
}
