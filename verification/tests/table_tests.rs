use key_travel::point::SCALE;
use key_travel::table::build_distance_map;

#[test]
fn table_contains_every_layout_character() {
    let table = build_distance_map();
    let layout_chars = "1234567890-qwertyuiopasdfghjkl;'zxcvbnm,.?";
    assert_eq!(layout_chars.chars().count(), 42);
    for c in layout_chars.chars() {
        assert_eq!(table.get(c, c), Some(0), "missing key {c:?}");
    }
}

#[test]
fn table_excludes_foreign_characters() {
    let table = build_distance_map();
    assert_eq!(table.get('A', 'a'), None);
    assert_eq!(table.get('a', 'A'), None);
    assert_eq!(table.get(' ', 'a'), None);
    assert_eq!(table.get('a', ' '), None);
    assert_eq!(table.get('!', '!'), None);
}

#[test]
fn table_is_reflexive_on_samples() {
    let table = build_distance_map();
    for c in ['a', 'q', '1', '?', '\'', ';'] {
        assert_eq!(table.get(c, c), Some(0));
    }
}

#[test]
fn table_is_symmetric_on_samples() {
    let table = build_distance_map();
    let pairs = [('a', 's'), ('q', 'p'), ('1', '?'), ('-', 'z'), ('.', '0')];
    for (a, b) in pairs {
        let d1 = table.get(a, b);
        let d2 = table.get(b, a);
        assert!(d1.is_some());
        assert_eq!(d1, d2, "asymmetry at {a:?}, {b:?}");
    }
}

#[test]
fn home_row_neighbours_are_three_columns_apart() {
    // 'a' sits at column 2 and 's' at column 5 of the home row (the stagger
    // spaces consume column indices), so their distance is exactly 3.0 in
    // fixed point.
    let table = build_distance_map();
    assert_eq!(table.get('a', 's'), Some(3 * SCALE));
}

#[test]
fn known_distances_match_fixed_point_values() {
    let table = build_distance_map();
    // 'q' at (1, 1) and 'a' at (2, 2): squared distance 2.
    assert_eq!(table.get('q', 'a'), Some(1482910));
    // 'q' at (1, 1) and 's' at (5, 2): squared distance 17.
    assert_eq!(table.get('q', 's'), Some(4323389));
    // 'a' at (2, 2) and '?' at (30, 3): squared distance 785.
    assert_eq!(table.get('a', '?'), Some(29378846));
}

#[test]
fn digits_row_spacing() {
    let table = build_distance_map();
    // '1' at column 0 and '2' at column 3 of the digits row.
    assert_eq!(table.get('1', '2'), Some(3 * SCALE));
    // '1' at column 0 and '0' at column 27.
    assert_eq!(table.get('1', '0'), Some(27 * SCALE));
}
