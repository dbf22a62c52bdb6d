use bidi::bidi_classes::{L, R, WS};
use bidi::state::{self, State};
use bidi::{
    reorder, resolve_levels, resolve_levels_into, resolve_ranges, resolve_ranges_into, Granularity,
    Resolved, Type,
};

fn visual_order(levels: &[u8]) -> Vec<usize> {
    let mut order = vec![usize::MAX; levels.len()];
    reorder(&mut order, |i| levels[i]);
    order
}

#[test]
fn reorder_of_no_levels() {
    assert_eq!(visual_order(&[]), Vec::<usize>::new());
}

#[test]
fn reorder_at_level_zero_is_the_identity() {
    assert_eq!(visual_order(&[0]), vec![0]);
    assert_eq!(visual_order(&[0, 0, 0, 0]), vec![0, 1, 2, 3]);
}

#[test]
fn reorder_at_level_one_is_a_reversal() {
    assert_eq!(visual_order(&[1]), vec![0]);
    assert_eq!(visual_order(&[1, 1, 1, 1]), vec![3, 2, 1, 0]);
}

#[test]
fn reorder_turns_each_stretch_round() {
    assert_eq!(visual_order(&[0, 1, 1, 0, 1, 1, 1]), vec![0, 2, 1, 3, 6, 5, 4]);
    assert_eq!(visual_order(&[1, 1, 0, 0]), vec![1, 0, 2, 3]);
}

#[test]
fn reorder_of_nested_levels() {
    assert_eq!(visual_order(&[0, 1, 2, 2, 1, 0]), vec![0, 4, 2, 3, 1, 5]);
    assert_eq!(visual_order(&[1, 2, 2, 1]), vec![3, 1, 2, 0]);
    assert_eq!(visual_order(&[1, 1, 2, 2]), vec![2, 3, 1, 0]);
}

#[test]
fn reorder_leaves_even_levels_in_place() {
    // Nothing is odd: no stretch is turned round.
    assert_eq!(visual_order(&[2, 2, 2]), vec![0, 1, 2]);
    assert_eq!(visual_order(&[0, 2, 4, 2]), vec![0, 1, 2, 3]);
    // The lowest odd level is 3: level 2 is not turned round.
    assert_eq!(visual_order(&[2, 3, 3, 2]), vec![0, 2, 1, 3]);
}

#[test]
fn reorder_of_the_highest_levels() {
    assert_eq!(visual_order(&[255, 255, 0]), vec![1, 0, 2]);
    assert_eq!(visual_order(&[126, 125, 124]), vec![1, 0, 2]);
}

#[test]
fn reorder_overwrites_what_the_order_held() {
    let levels = [0u8, 1, 1];
    let mut order = vec![7, 7, 7];
    reorder(&mut order, |i| levels[i]);
    assert_eq!(order, vec![0, 2, 1]);
}

#[test]
fn levels_per_byte_repeat_the_level_of_each_character() {
    let text = "a\u{5D0}\u{20AC}\u{10400}";
    let by_char = resolve_levels(text, Granularity::Char, None);
    let by_byte = resolve_levels(text, Granularity::Byte, None);
    assert_eq!(by_char.granularity, Granularity::Char);
    assert_eq!(by_byte.granularity, Granularity::Byte);
    assert_eq!(by_char.base_level, 0);
    assert_eq!(by_byte.base_level, 0);
    assert_eq!(by_char.levels, vec![0, 1, 0, 0]);
    assert_eq!(by_byte.levels, vec![0, 1, 1, 0, 0, 0, 0, 0, 0, 0]);
    assert_eq!(by_byte.levels.len(), text.len());
}

#[test]
fn levels_per_byte_are_the_expanded_levels_per_character() {
    let texts = [
        "",
        "hello",
        "car is \u{5E1}\u{5E2}\u{5E3}",
        "\u{627}\u{644} 123 \u{20AC}",
        "\u{2067}abc\u{2069}",
        "\u{1F600}\u{5D0}\u{1F600}",
    ];
    for text in texts {
        for base_level in [None, Some(0), Some(1)] {
            let by_char = resolve_levels(text, Granularity::Char, base_level);
            let by_byte = resolve_levels(text, Granularity::Byte, base_level);
            let mut expanded = Vec::new();
            for (ch, level) in text.chars().zip(&by_char.levels) {
                for _ in 0..ch.len_utf8() {
                    expanded.push(*level);
                }
            }
            assert_eq!(by_char.levels.len(), text.chars().count());
            assert_eq!(by_byte.levels.len(), text.len());
            assert_eq!(by_byte.levels, expanded);
            assert_eq!(by_byte.base_level, by_char.base_level);
        }
    }
}

#[test]
fn levels_stay_in_range() {
    let mut deep = "\u{202B}".repeat(70);
    deep.push_str("\u{5D0}a1\u{661}");
    let texts = ["hello", "\u{5D0}1a", deep.as_str()];
    for text in texts {
        for base_level in [None, Some(0), Some(1)] {
            let resolved = resolve_levels(text, Granularity::Char, base_level);
            assert!(resolved.levels.iter().all(|level| *level <= 126));
        }
    }
}

#[test]
fn ranges_of_levels_per_character() {
    let resolved = resolve_ranges("car is \u{5E1}\u{5E2}\u{5E3}", Granularity::Char, None);
    assert_eq!(resolved.granularity, Granularity::Char);
    assert_eq!(resolved.base_level, 0);
    assert_eq!(resolved.levels, vec![(0, 0..7), (1, 7..10)]);
}

#[test]
fn ranges_of_levels_per_byte() {
    let resolved = resolve_ranges("car is \u{5E1}\u{5E2}\u{5E3}", Granularity::Byte, None);
    assert_eq!(resolved.granularity, Granularity::Byte);
    assert_eq!(resolved.levels, vec![(0, 0..7), (1, 7..13)]);
    let resolved = resolve_ranges("\u{5D0}a\u{5D1}", Granularity::Byte, Some(0));
    assert_eq!(resolved.levels, vec![(1, 0..2), (0, 2..3), (1, 3..5)]);
}

#[test]
fn ranges_of_an_empty_text() {
    let resolved = resolve_ranges("", Granularity::Char, Some(1));
    assert_eq!(resolved.base_level, 1);
    assert!(resolved.levels.is_empty());
}

#[test]
fn ranges_of_one_level() {
    let resolved = resolve_ranges("abc", Granularity::Char, None);
    assert_eq!(resolved.levels, vec![(0, 0..3)]);
    let resolved = resolve_ranges("a", Granularity::Char, Some(1));
    assert_eq!(resolved.levels, vec![(2, 0..1)]);
}

#[test]
fn to_ranges_collapses_equal_levels() {
    let resolved = Resolved {
        granularity: Granularity::Byte,
        base_level: 1,
        levels: vec![1, 1, 2, 1, 1, 1, 0],
    };
    let ranges = resolved.to_ranges();
    assert_eq!(ranges.granularity, Granularity::Byte);
    assert_eq!(ranges.base_level, 1);
    assert_eq!(ranges.levels, vec![(1, 0..2), (2, 2..3), (1, 3..6), (0, 6..7)]);
    let empty: Resolved<u8> = Resolved::default();
    assert!(empty.to_ranges().levels.is_empty());
}

#[test]
fn default_result_is_empty() {
    let resolved: Resolved<u8> = Resolved::default();
    assert_eq!(resolved.granularity, Granularity::Char);
    assert_eq!(resolved.base_level, 0);
    assert!(resolved.levels.is_empty());
}

#[test]
fn results_replace_what_the_storage_held() {
    let mut resolved = Resolved { granularity: Granularity::Byte, base_level: 1, levels: vec![9, 9, 9] };
    resolve_levels_into("ab", Granularity::Char, None, &mut resolved);
    assert_eq!(resolved.granularity, Granularity::Char);
    assert_eq!(resolved.base_level, 0);
    assert_eq!(resolved.levels, vec![0, 0]);
    let mut ranges = Resolved {
        granularity: Granularity::Char,
        base_level: 0,
        levels: vec![(7, 1..2), (7, 2..3)],
    };
    resolve_ranges_into("\u{5D0}", Granularity::Byte, None, &mut ranges);
    assert_eq!(ranges.granularity, Granularity::Byte);
    assert_eq!(ranges.base_level, 1);
    assert_eq!(ranges.levels, vec![(1, 0..2)]);
}

#[test]
fn state_can_be_used_again() {
    let texts = [
        "\u{5D0}(\u{5D1})\u{300} \u{2067}abc\u{2069}",
        "hello",
        "",
        "\u{202B}\u{5D0} \u{202C}(a)",
        "hello",
        "\u{5D0}(\u{5D1})\u{300} \u{2067}abc\u{2069}",
    ];
    let mut used = State::new();
    for text in texts {
        for granularity in [Granularity::Char, Granularity::Byte] {
            let first = state::resolve_levels(&mut used, text, granularity, None);
            let second = state::resolve_levels(&mut used, text, granularity, None);
            let fresh = state::resolve_levels(&mut State::new(), text, granularity, None);
            assert_eq!(first.levels, second.levels);
            assert_eq!(first.base_level, second.base_level);
            assert_eq!(first.levels, fresh.levels);
            assert_eq!(first.base_level, fresh.base_level);
            let first = state::resolve_ranges(&mut used, text, granularity, None);
            let fresh = state::resolve_ranges(&mut State::new(), text, granularity, None);
            assert_eq!(first.levels, fresh.levels);
        }
    }
}

#[test]
fn state_resolves_characters_with_given_classes() {
    let mut state = State::new();
    let mut resolved = Resolved::default();
    // The classes need not be those of the characters.
    let chars = [('x', Type(R)), ('y', Type(WS)), ('z', Type(L))];
    state.resolve(&chars, None, &mut resolved);
    assert_eq!(resolved.granularity, Granularity::Char);
    assert_eq!(resolved.base_level, 1);
    assert_eq!(resolved.levels, vec![1, 1, 2]);
    state.resolve(&chars, Some(0), &mut resolved);
    assert_eq!(resolved.base_level, 0);
    assert_eq!(resolved.levels, vec![1, 0, 0]);
    state.resolve(&[], None, &mut resolved);
    assert_eq!(resolved.base_level, 0);
    assert!(resolved.levels.is_empty());
}

#[test]
fn state_resolves_text_like_the_free_functions() {
    let text = "a \u{627}1,2 (\u{5D0}) b";
    let mut state = State::new();
    let mut into = Resolved::default();
    state::resolve_levels_into(&mut state, text, Granularity::Char, Some(1), &mut into);
    let free = resolve_levels(text, Granularity::Char, Some(1));
    assert_eq!(into.levels, free.levels);
    assert_eq!(into.base_level, free.base_level);
    let mut ranges = Resolved::default();
    state::resolve_ranges_into(&mut state, text, Granularity::Char, Some(1), &mut ranges);
    assert_eq!(ranges.levels, free.to_ranges().levels);
    let chars: Vec<(char, Type)> = text.chars().map(|ch| (ch, Type::from_char(ch))).collect();
    let mut by_class = Resolved::default();
    state.resolve(&chars, Some(1), &mut by_class);
    assert_eq!(by_class.levels, free.levels);
}
