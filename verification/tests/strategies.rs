use color_census::catalog::{build_standard_color, StandardColor};
use color_census::color::{color_to_num, Color, COLOR_SPACE_SIZE};
use color_census::distribution::Distribution;
use color_census::resolver::ClassifyError;
use color_census::strategy::{
    run_multithreaded_generator, run_multithreaded_merge, run_single_threaded, run_strategy,
    select_strategy, strategy_of_lowercase, Strategy,
};

fn entry(name: &str, r: u8, g: u8, b: u8) -> StandardColor {
    build_standard_color(String::from(name), Color { r, g, b })
}

fn sample() -> Vec<StandardColor> {
    vec![
        entry("Black", 0, 0, 0),
        entry("Navy", 0, 0, 128),
        entry("Blue", 0, 0, 255),
        entry("Green", 0, 128, 0),
        entry("Teal", 0, 128, 128),
        entry("Lime", 0, 255, 0),
        entry("Aqua", 0, 255, 255),
        entry("Maroon", 128, 0, 0),
        entry("White", 255, 255, 255),
        entry("Navy", 0, 0, 100),
    ]
}

fn sorted_entries(distribution: &Distribution) -> Vec<(String, u32)> {
    let mut entries = distribution.entries();
    entries.sort();
    entries
}

fn pairs(entries: &[(&str, u32)]) -> Vec<(String, u32)> {
    entries.iter().map(|(name, count)| (String::from(*name), *count)).collect()
}

#[test]
fn sequential_census_of_the_first_colors() {
    let catalog = vec![entry("Dark", 0, 0, 0), entry("Bright", 0, 0, 255)];
    let distribution = run_single_threaded(&catalog, 256).ok().unwrap();
    assert_eq!(sorted_entries(&distribution), pairs(&[("Bright", 128), ("Dark", 128)]));
}

#[test]
fn sequential_census_crosses_the_channel_carry() {
    let catalog = vec![entry("Low", 0, 0, 0), entry("High", 0, 1, 255)];
    let distribution = run_single_threaded(&catalog, 512).ok().unwrap();
    assert_eq!(distribution.count("Low"), 128 + 128);
    assert_eq!(distribution.count("High"), 128 + 128);
    assert_eq!(distribution.total(), 512);
}

#[test]
fn the_three_strategies_agree() {
    let catalog = sample();
    for color_num in [0u32, 1, 2, 255, 256, 257, 5_000, 70_000] {
        let sequential = run_single_threaded(&catalog, color_num).ok().unwrap();
        let collected = run_multithreaded_generator(&catalog, color_num).ok().unwrap();
        let reduced = run_multithreaded_merge(&catalog, color_num).ok().unwrap();
        assert_eq!(sorted_entries(&sequential), sorted_entries(&collected));
        assert_eq!(sorted_entries(&sequential), sorted_entries(&reduced));
        assert_eq!(sequential.total(), color_num as u128);
        assert_eq!(collected.total(), color_num as u128);
        assert_eq!(reduced.total(), color_num as u128);
    }
}

#[test]
fn map_collect_census_across_three_rows_of_the_space() {
    let catalog = vec![entry("Dark", 0, 0, 0), entry("Bright", 0, 0, 255), entry("Next", 0, 1, 255)];
    let distribution = run_multithreaded_generator(&catalog, 600).ok().unwrap();
    assert_eq!(
        sorted_entries(&distribution),
        pairs(&[("Bright", 128), ("Dark", 128 + 128 + 88), ("Next", 128)])
    );
}

#[test]
fn census_counts_duplicate_names_under_one_key() {
    let catalog = vec![entry("Twin", 0, 0, 0), entry("Other", 0, 0, 100), entry("Twin", 0, 0, 200)];
    let distribution = run_multithreaded_merge(&catalog, 256).ok().unwrap();
    assert_eq!(sorted_entries(&distribution), pairs(&[("Other", 100), ("Twin", 51 + 105)]));
}

#[test]
fn repeated_runs_give_the_same_distribution() {
    let catalog = sample();
    let first = run_multithreaded_merge(&catalog, 30_000).ok().unwrap();
    let second = run_multithreaded_merge(&catalog, 30_000).ok().unwrap();
    assert_eq!(sorted_entries(&first), sorted_entries(&second));
}

#[test]
fn census_of_the_whole_space_counts_every_color() {
    let catalog = vec![entry("Dark", 0, 0, 0), entry("Bright", 255, 255, 255)];
    let distribution = run_multithreaded_generator(&catalog, COLOR_SPACE_SIZE).ok().unwrap();
    assert_eq!(distribution.total(), 16_777_216);
    assert_eq!(distribution.check_total(COLOR_SPACE_SIZE), Ok(()));
    assert_eq!(distribution.count("Dark"), 8_388_608);
    assert_eq!(distribution.count("Bright"), 8_388_608);
}

#[test]
fn every_strategy_rejects_an_empty_catalog() {
    let catalog: Vec<StandardColor> = Vec::new();
    assert_eq!(run_single_threaded(&catalog, 10).err(), Some(ClassifyError::EmptyCatalog));
    assert_eq!(run_multithreaded_generator(&catalog, 10).err(), Some(ClassifyError::EmptyCatalog));
    assert_eq!(run_multithreaded_merge(&catalog, 10).err(), Some(ClassifyError::EmptyCatalog));
    assert_eq!(run_single_threaded(&catalog, 0).err(), Some(ClassifyError::EmptyCatalog));
    assert_eq!(
        run_strategy(Strategy::MultiThreadedMerge, &catalog, 10).err(),
        Some(ClassifyError::EmptyCatalog)
    );
}

#[test]
fn per_color_yields_an_empty_distribution() {
    let distribution = run_strategy(Strategy::PerColor, &sample(), 1_000).ok().unwrap();
    assert_eq!(distribution.len(), 0);
    assert_eq!(distribution.check_total(1_000).is_err(), true);
    let empty: Vec<StandardColor> = Vec::new();
    assert!(run_strategy(Strategy::PerColor, &empty, 1_000).is_ok());
}

#[test]
fn run_strategy_dispatches_to_the_named_strategy() {
    let catalog = sample();
    let expected = sorted_entries(&run_single_threaded(&catalog, 3_000).ok().unwrap());
    for strategy in
        [Strategy::SingleThreaded, Strategy::MultiThreadedGenerator, Strategy::MultiThreadedMerge]
    {
        let distribution = run_strategy(strategy, &catalog, 3_000).ok().unwrap();
        assert_eq!(sorted_entries(&distribution), expected);
    }
}

#[test]
fn strategy_names_are_recognized_in_any_case() {
    assert_eq!(select_strategy("SingleThreaded"), Strategy::SingleThreaded);
    assert_eq!(select_strategy("singlethreaded"), Strategy::SingleThreaded);
    assert_eq!(select_strategy("PerColor"), Strategy::PerColor);
    assert_eq!(select_strategy("PERCOLOR"), Strategy::PerColor);
    assert_eq!(select_strategy("MultiThreadedGenerator"), Strategy::MultiThreadedGenerator);
    assert_eq!(select_strategy("multithreadedgenerator"), Strategy::MultiThreadedGenerator);
    assert_eq!(select_strategy("MultiThreadedMerge"), Strategy::MultiThreadedMerge);
    assert_eq!(select_strategy("multithreadedmerge"), Strategy::MultiThreadedMerge);
}

#[test]
fn unknown_strategy_names_select_map_reduce() {
    assert_eq!(select_strategy("something else"), Strategy::MultiThreadedMerge);
    assert_eq!(select_strategy(""), Strategy::MultiThreadedMerge);
    assert_eq!(strategy_of_lowercase(&String::from("SingleThreaded")), Strategy::MultiThreadedMerge);
    assert_eq!(strategy_of_lowercase(&String::from("percolor")), Strategy::PerColor);
}

#[test]
fn census_index_helper_matches_corner() {
    assert_eq!(color_to_num(Color { r: 255, g: 255, b: 255 }), COLOR_SPACE_SIZE - 1);
}
