use bidi::{reorder, resolve_levels, Granularity};

fn visual_order(levels: &[u8]) -> Vec<usize> {
    let mut order = vec![0; levels.len()];
    reorder(&mut order, |i| levels[i]);
    order
}

#[test]
fn left_to_right_text_is_level_zero() {
    let resolved = resolve_levels("hello", Granularity::Char, None);
    assert_eq!(resolved.base_level, 0);
    assert_eq!(resolved.levels, vec![0, 0, 0, 0, 0]);
    assert_eq!(visual_order(&resolved.levels), vec![0, 1, 2, 3, 4]);
}

#[test]
fn hebrew_text_is_level_one_and_reversed() {
    let resolved = resolve_levels("\u{5D0}\u{5D1}\u{5D2}", Granularity::Char, None);
    assert_eq!(resolved.base_level, 1);
    assert_eq!(resolved.levels, vec![1, 1, 1]);
    assert_eq!(visual_order(&resolved.levels), vec![2, 1, 0]);
}

#[test]
fn hebrew_word_behind_latin_text() {
    let resolved = resolve_levels("car is \u{5E1}\u{5E2}\u{5E3}", Granularity::Char, None);
    assert_eq!(resolved.base_level, 0);
    assert_eq!(resolved.levels, vec![0, 0, 0, 0, 0, 0, 0, 1, 1, 1]);
    assert_eq!(visual_order(&resolved.levels), vec![0, 1, 2, 3, 4, 5, 6, 9, 8, 7]);
}

#[test]
fn space_between_hebrew_and_digits() {
    let resolved = resolve_levels("\u{5D0}\u{5D1} 12", Granularity::Char, None);
    assert_eq!(resolved.base_level, 1);
    assert_eq!(resolved.levels, vec![1, 1, 1, 2, 2]);
}

#[test]
fn brackets_in_forced_right_to_left_paragraph() {
    let resolved = resolve_levels("(a)", Granularity::Char, Some(1));
    assert_eq!(resolved.base_level, 1);
    assert_eq!(resolved.levels, vec![1, 2, 1]);
}

#[test]
fn right_to_left_isolate_around_latin_text() {
    let resolved = resolve_levels("\u{2067}abc\u{2069}", Granularity::Char, None);
    assert_eq!(resolved.base_level, 0);
    assert_eq!(resolved.levels, vec![0, 2, 2, 2, 0]);
    assert_eq!(visual_order(&resolved.levels), vec![0, 1, 2, 3, 4]);
}
