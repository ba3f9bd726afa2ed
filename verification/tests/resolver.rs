use color_census::catalog::{build_standard_color, StandardColor};
use color_census::color::{color_to_num, Color};
use color_census::resolver::{classify, nearest_color_single, nearest_position, ClassifyError};

fn rgb(r: u8, g: u8, b: u8) -> Color {
    Color { r, g, b }
}

fn entry(name: &str, r: u8, g: u8, b: u8) -> StandardColor {
    build_standard_color(String::from(name), rgb(r, g, b))
}

fn primaries() -> Vec<StandardColor> {
    vec![entry("Red", 255, 0, 0), entry("Green", 0, 255, 0), entry("Blue", 0, 0, 255)]
}

#[test]
fn build_standard_color_keeps_name_and_color() {
    let built = build_standard_color(String::from("Teal"), rgb(0, 128, 128));
    assert_eq!(built.name, "Teal");
    assert_eq!(built.color, rgb(0, 128, 128));
    assert_eq!(built, StandardColor { name: String::from("Teal"), color: rgb(0, 128, 128) });
}

#[test]
fn grey_between_black_and_white_resolves_to_black() {
    let catalog = vec![entry("Black", 0, 0, 0), entry("White", 255, 255, 255)];
    let nearest = nearest_color_single(&catalog, rgb(127, 127, 127)).unwrap();
    assert_eq!(nearest.name, "Black");
    assert_eq!(nearest.color, rgb(0, 0, 0));
}

#[test]
fn equidistant_entries_resolve_to_the_first_in_catalog_order() {
    let catalog = vec![entry("Low", 0, 0, 0), entry("High", 2, 0, 0)];
    assert_eq!(nearest_color_single(&catalog, rgb(1, 0, 0)).unwrap().name, "Low");
    let swapped = vec![entry("High", 2, 0, 0), entry("Low", 0, 0, 0)];
    assert_eq!(nearest_color_single(&swapped, rgb(1, 0, 0)).unwrap().name, "High");
}

#[test]
fn entries_of_one_name_are_matched_on_their_own() {
    let catalog = vec![entry("Twin", 0, 0, 0), entry("Other", 100, 100, 100), entry("Twin", 200, 200, 200)];
    assert_eq!(nearest_position(&catalog, rgb(190, 190, 190)), Some(2));
    assert_eq!(nearest_position(&catalog, rgb(10, 10, 10)), Some(0));
    assert_eq!(nearest_position(&catalog, rgb(90, 110, 100)), Some(1));
}

#[test]
fn resolver_is_deterministic() {
    let catalog = primaries();
    let first = nearest_color_single(&catalog, rgb(200, 180, 10)).unwrap();
    let second = nearest_color_single(&catalog, rgb(200, 180, 10)).unwrap();
    assert_eq!(first, second);
    assert_eq!(first.name, "Red");
}

#[test]
fn a_later_entry_wins_only_when_strictly_nearer() {
    let catalog = vec![entry("Far", 0, 0, 0), entry("Near", 9, 9, 9), entry("Same", 9, 9, 9)];
    assert_eq!(nearest_position(&catalog, rgb(10, 10, 10)), Some(1));
}

#[test]
fn empty_catalog_is_rejected() {
    let catalog: Vec<StandardColor> = Vec::new();
    assert_eq!(nearest_color_single(&catalog, rgb(1, 2, 3)), Err(ClassifyError::EmptyCatalog));
    assert_eq!(nearest_position(&catalog, rgb(1, 2, 3)), None);
}

#[test]
fn classify_names_the_nearest_match_of_the_color_at_an_index() {
    let catalog = primaries();
    assert_eq!(classify(&catalog, color_to_num(rgb(250, 3, 4))), "Red");
    assert_eq!(classify(&catalog, color_to_num(rgb(3, 250, 4))), "Green");
    assert_eq!(classify(&catalog, 255), "Blue");
    assert_eq!(classify(&catalog, 0), "Red");
}

#[test]
fn corners_of_the_space_against_the_primaries() {
    let catalog = primaries();
    let corners = [
        (rgb(0, 0, 0), "Red"),
        (rgb(255, 0, 0), "Red"),
        (rgb(0, 255, 0), "Green"),
        (rgb(0, 0, 255), "Blue"),
        (rgb(255, 255, 0), "Red"),
        (rgb(255, 0, 255), "Red"),
        (rgb(0, 255, 255), "Green"),
        (rgb(255, 255, 255), "Red"),
    ];
    let mut distribution = color_census::distribution::Distribution::new();
    for (corner, expected) in corners {
        let nearest = nearest_color_single(&catalog, corner).unwrap();
        assert_eq!(nearest.name, expected);
        distribution.record(nearest.name);
    }
    assert_eq!(distribution.count("Red"), 5);
    assert_eq!(distribution.count("Green"), 2);
    assert_eq!(distribution.count("Blue"), 1);
    assert_eq!(distribution.len(), 3);
    assert_eq!(distribution.total(), 8);
}
