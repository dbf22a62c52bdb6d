use bidi::{resolve_levels, Granularity};

fn levels(text: &str, base_level: Option<u8>) -> (u8, Vec<u8>) {
    let resolved = resolve_levels(text, Granularity::Char, base_level);
    (resolved.base_level, resolved.levels)
}

#[test]
fn empty_text_has_no_levels() {
    assert_eq!(levels("", None), (0, vec![]));
    assert_eq!(levels("", Some(1)), (1, vec![]));
}

#[test]
fn text_without_strong_character_is_left_to_right() {
    assert_eq!(levels("12 34", None), (0, vec![0, 0, 0, 0, 0]));
    assert_eq!(levels("  ", None), (0, vec![0, 0]));
}

#[test]
fn base_level_comes_from_the_first_strong_character() {
    assert_eq!(levels("1 \u{5D0}a", None).0, 1);
    assert_eq!(levels("1 a\u{5D0}", None).0, 0);
    assert_eq!(levels("\u{627}a", None).0, 1);
}

#[test]
fn base_level_passes_over_isolates() {
    // The Hebrew letter stands inside an isolate: the Latin letter decides.
    assert_eq!(levels("\u{2066}\u{5D0}\u{2069}a", None).0, 0);
    // An isolate that never ends hides everything behind it.
    assert_eq!(levels("\u{2066}\u{5D0}", None).0, 0);
    // A stray PDI closes nothing.
    assert_eq!(levels("\u{2069}\u{5D0}", None).0, 1);
}

#[test]
fn nonspacing_mark_takes_the_class_before_it() {
    assert_eq!(levels("\u{5D0}\u{300}", None), (1, vec![1, 1]));
    assert_eq!(levels("a\u{300}", Some(1)), (1, vec![2, 2]));
    // At the start of the text it takes the direction of the paragraph.
    assert_eq!(levels("\u{300}a", Some(1)), (1, vec![1, 2]));
}

#[test]
fn european_number_behind_arabic_letter_is_arabic_number() {
    assert_eq!(levels("\u{627}123", None), (1, vec![1, 2, 2, 2]));
    // In a left-to-right paragraph an Arabic number goes up by two.
    assert_eq!(levels("\u{627}1", Some(0)), (0, vec![1, 2]));
    assert_eq!(levels("\u{5D0}1", Some(0)), (0, vec![1, 2]));
}

#[test]
fn separator_between_numbers_joins_them() {
    assert_eq!(levels("1,2", Some(1)), (1, vec![2, 2, 2]));
    assert_eq!(levels("1+2", Some(1)), (1, vec![2, 2, 2]));
    // Two separators in a row stay neutral.
    assert_eq!(levels("1,,2", Some(1)), (1, vec![2, 1, 1, 2]));
    // A separator at the end of the text has no number behind it.
    assert_eq!(levels("1,", Some(1)), (1, vec![2, 1]));
}

#[test]
fn separator_between_arabic_numbers() {
    // A common separator joins Arabic numbers, a European separator does not.
    assert_eq!(levels("\u{661},\u{662}", Some(1)), (1, vec![2, 2, 2]));
    assert_eq!(levels("\u{661}+\u{662}", Some(1)), (1, vec![2, 1, 2]));
    // Behind an Arabic letter European numbers count as Arabic numbers.
    assert_eq!(levels("\u{627}1,2", None), (1, vec![1, 2, 2, 2]));
    assert_eq!(levels("\u{627}1+2", None), (1, vec![1, 2, 1, 2]));
}

#[test]
fn terminators_beside_a_number_join_it() {
    assert_eq!(levels("$5", Some(1)), (1, vec![2, 2]));
    assert_eq!(levels("5%", Some(1)), (1, vec![2, 2]));
    assert_eq!(levels("$$5%%", Some(1)), (1, vec![2, 2, 2, 2, 2]));
    // Without a number they become neutral.
    assert_eq!(levels("$a", Some(1)), (1, vec![1, 2]));
    // Beside an Arabic number they stay neutral.
    assert_eq!(levels("\u{661}%", Some(1)), (1, vec![2, 1]));
}

#[test]
fn european_number_behind_latin_letter_is_left_to_right() {
    assert_eq!(levels("\u{5D0} a1", None), (1, vec![1, 1, 2, 2]));
    assert_eq!(levels("\u{5D0} 1a", None), (1, vec![1, 1, 2, 2]));
    assert_eq!(levels("a1\u{5D0}", None), (0, vec![0, 0, 1]));
    assert_eq!(levels("\u{5D0}1a", Some(0)), (0, vec![1, 2, 0]));
}

#[test]
fn neutrals_between_equal_directions_take_that_direction() {
    assert_eq!(levels("\u{5D0} \u{5D1}", None), (1, vec![1, 1, 1]));
    assert_eq!(levels("\u{5D0} \u{5D1}", Some(0)), (0, vec![1, 1, 1]));
    assert_eq!(levels("a b", Some(1)), (1, vec![2, 2, 2]));
    // Numbers count as right-to-left beside neutrals.
    assert_eq!(levels("\u{5D0} 1", Some(0)), (0, vec![1, 1, 2]));
    assert_eq!(levels("\u{661} \u{5D0}", Some(0)), (0, vec![2, 1, 1]));
}

#[test]
fn neutrals_between_different_directions_take_the_embedding_direction() {
    assert_eq!(levels("a \u{5D0} b", None), (0, vec![0, 0, 1, 0, 0]));
    assert_eq!(levels("a \u{5D0} b", Some(1)), (1, vec![2, 1, 1, 1, 2]));
    assert_eq!(levels("\u{5D0}!", Some(0)), (0, vec![1, 0]));
    assert_eq!(levels("!\u{5D0}", Some(0)), (0, vec![0, 1]));
}

#[test]
fn implicit_levels() {
    assert_eq!(levels("a", Some(0)), (0, vec![0]));
    assert_eq!(levels("\u{5D0}", Some(0)), (0, vec![1]));
    assert_eq!(levels("\u{661}", Some(0)), (0, vec![2]));
    assert_eq!(levels("a", Some(1)), (1, vec![2]));
    assert_eq!(levels("\u{5D0}", Some(1)), (1, vec![1]));
    assert_eq!(levels("\u{661}", Some(1)), (1, vec![2]));
    assert_eq!(levels("1", Some(1)), (1, vec![2]));
}

#[test]
fn brackets_take_the_embedding_direction_found_inside() {
    // AB(CD[&ef]!)gh, with capitals for Hebrew letters.
    let text = "\u{5D0}\u{5D1}(\u{5D2}\u{5D3}[&ef]!)gh";
    assert_eq!(levels(text, None), (1, vec![1, 1, 1, 1, 1, 1, 1, 2, 2, 1, 1, 1, 2, 2]));
}

#[test]
fn brackets_take_the_opposite_direction_from_the_context() {
    assert_eq!(levels("\u{5D0}(\u{5D1})", Some(0)), (0, vec![1, 1, 1, 1]));
    assert_eq!(levels("a(b)c", Some(1)), (1, vec![2, 2, 2, 2, 2]));
    // With the embedding direction before them they take that direction.
    assert_eq!(levels("a(\u{5D1})", Some(0)), (0, vec![0, 0, 1, 0]));
    assert_eq!(levels("(\u{5D1})", Some(0)), (0, vec![0, 1, 0]));
}

#[test]
fn brackets_without_strong_character_inside_are_neutrals() {
    assert_eq!(levels("\u{5D0}(1)", Some(0)), (0, vec![1, 1, 2, 1]));
    assert_eq!(levels("\u{5D0}()", Some(0)), (0, vec![1, 0, 0]));
    assert_eq!(levels("\u{5D0}( )\u{5D1}", Some(0)), (0, vec![1, 1, 1, 1, 1]));
}

#[test]
fn canonically_equivalent_brackets_pair() {
    // U+2329 expects U+232A; U+3009 is its canonical equivalent.
    assert_eq!(levels("\u{5D0}\u{2329}\u{5D1}\u{3009}", Some(0)), (0, vec![1, 1, 1, 1]));
    assert_eq!(levels("\u{5D0}\u{3008}\u{5D1}\u{232A}", Some(0)), (0, vec![1, 1, 1, 1]));
    // Brackets of different pairs do not pair.
    assert_eq!(levels("\u{5D0}(\u{5D1}]", Some(0)), (0, vec![1, 1, 1, 0]));
}

#[test]
fn unmatched_opener_is_dropped_when_an_outer_pair_closes() {
    // The square bracket never closes; the parentheses pair across it.
    assert_eq!(levels("\u{5D0}([\u{5D1})", Some(0)), (0, vec![1, 1, 1, 1, 1]));
    // A closer without opener is a neutral.
    assert_eq!(levels("\u{5D0})\u{5D1})", Some(0)), (0, vec![1, 1, 1, 0]));
}

#[test]
fn mark_behind_a_bracket_follows_the_bracket() {
    // The mark behind the closing bracket takes the direction of the pair.
    assert_eq!(levels("\u{5D0}(\u{5D1})\u{300}", Some(0)), (0, vec![1, 1, 1, 1, 1]));
    assert_eq!(levels("a(\u{5D1})\u{300}b", Some(0)), (0, vec![0, 0, 1, 0, 0, 0]));
}

#[test]
fn embedding_raises_the_level() {
    // RLE a PDF
    assert_eq!(levels("\u{202B}a\u{202C}", Some(0)), (0, vec![0, 2, 2]));
    // LRE alef PDF
    assert_eq!(levels("\u{202A}\u{5D0}\u{202C}", Some(0)), (0, vec![0, 3, 3]));
    // x RLE y LRE z PDF PDF
    assert_eq!(
        levels("a\u{202B}\u{5D0}\u{202A}b\u{202C}\u{202C}c", Some(0)),
        (0, vec![0, 0, 1, 1, 2, 2, 2, 0])
    );
}

#[test]
fn override_sets_the_direction() {
    // RLO a b c PDF
    assert_eq!(levels("\u{202E}abc\u{202C}", None), (0, vec![0, 1, 1, 1, 1]));
    // LRO alef bet PDF
    assert_eq!(levels("\u{202D}\u{5D0}\u{5D1}\u{202C}", None), (1, vec![1, 2, 2, 2]));
    // An override reaches numbers too.
    assert_eq!(levels("\u{202E}1\u{202C}", Some(0)), (0, vec![0, 1, 1]));
}

#[test]
fn isolates_keep_the_level_of_their_surroundings() {
    // a RLI alef PDI b
    assert_eq!(levels("a\u{2067}\u{5D0}\u{2069}b", None), (0, vec![0, 0, 1, 0, 0]));
    // alef LRI a PDI bet
    assert_eq!(levels("\u{5D0}\u{2066}a\u{2069}\u{5D1}", None), (1, vec![1, 1, 2, 1, 1]));
    // The text behind the isolate sees the text before it.
    assert_eq!(levels("\u{5D0}\u{2066}a\u{2069} 1", Some(0)), (0, vec![1, 1, 2, 1, 1, 2]));
}

#[test]
fn first_strong_isolate_takes_the_direction_of_its_content() {
    assert_eq!(levels("\u{2068}\u{5D0}\u{2069}a", None), (0, vec![0, 1, 0, 0]));
    assert_eq!(levels("\u{5D0}\u{2068}a\u{2069}", None), (1, vec![1, 1, 2, 1]));
    // Without strong content it is left-to-right.
    assert_eq!(levels("\u{5D0}\u{2068}1\u{2069}", None), (1, vec![1, 1, 2, 1]));
    // A nested isolate hides its content from the outer one.
    assert_eq!(
        levels("\u{2068}\u{2066}a\u{2069}\u{5D0}\u{2069}", Some(0)),
        (0, vec![0, 1, 2, 1, 1, 0])
    );
}

#[test]
fn stray_terminators_change_nothing() {
    assert_eq!(levels("a\u{202C}\u{5D0}", None), (0, vec![0, 0, 1]));
    assert_eq!(levels("a\u{2069}\u{5D0}", None), (0, vec![0, 0, 1]));
    // A PDF inside an isolate does not close an embedding outside it.
    assert_eq!(
        levels("\u{202B}\u{2066}a\u{202C}b\u{2069}\u{5D0}", Some(0)),
        (0, vec![0, 1, 2, 2, 2, 1, 1])
    );
}

#[test]
fn isolate_terminator_closes_embeddings_inside_the_isolate() {
    // LRI RLE alef PDI bet: the PDI closes the embedding with the isolate.
    assert_eq!(
        levels("a\u{2066}\u{202B}\u{5D0}\u{2069}\u{5D1}", Some(0)),
        (0, vec![0, 0, 0, 3, 0, 1])
    );
}

#[test]
fn paragraph_separator_resets_the_embedding() {
    // RLE alef B bet
    assert_eq!(levels("\u{202B}\u{5D0}\n\u{5D1}", Some(0)), (0, vec![0, 1, 0, 1]));
    // RLI alef B a: the isolate ends with the paragraph.
    assert_eq!(levels("\u{2067}a\nb", Some(0)), (0, vec![0, 2, 0, 0]));
}

#[test]
fn embedding_stops_at_the_highest_level() {
    // 62 embeddings reach level 124; an Arabic number goes two above it.
    let mut text = "\u{202A}".repeat(62);
    text.push('\u{661}');
    let (base, found) = levels(&text, None);
    assert_eq!(base, 0);
    assert_eq!(found.len(), 63);
    assert_eq!(found[62], 126);
    assert!(found[..62].iter().all(|level| *level == 0));
    // A 63rd embedding finds no room: the level stays.
    let mut text = "\u{202A}".repeat(63);
    text.push('a');
    let (_, found) = levels(&text, Some(0));
    assert_eq!(found[63], 124);
    // 63 right-to-left embeddings reach level 125 from level 0.
    let mut text = "\u{202B}".repeat(63);
    text.push('\u{5D0}');
    text.push('a');
    let (_, found) = levels(&text, Some(0));
    assert_eq!(found[63], 125);
    assert_eq!(found[64], 126);
    // A 64th finds no room.
    let mut text = "\u{202B}".repeat(64);
    text.push('\u{5D0}');
    let (_, found) = levels(&text, Some(0));
    assert_eq!(found[64], 125);
}

#[test]
fn overflowing_embedding_is_closed_by_its_terminator() {
    // 63 LRE: the last one overflows. Its PDF closes nothing on the stack,
    // the next PDF closes the embedding at level 124.
    let mut text = "\u{202A}".repeat(63);
    text.push_str("\u{202C}a\u{202C}b");
    let (_, found) = levels(&text, Some(0));
    assert_eq!(found[64], 124);
    assert_eq!(found[66], 122);
}

#[test]
fn overflowing_isolate_is_closed_by_its_terminator() {
    // 62 LRE reach level 124. An LRI finds no room, and its PDI closes
    // nothing on the stack.
    let mut text = "\u{202A}".repeat(62);
    text.push_str("\u{2066}a\u{2069}b");
    let (_, found) = levels(&text, Some(0));
    assert_eq!(&found[62..], &[124, 124, 124, 124]);
}

#[test]
fn separators_have_the_base_level() {
    assert_eq!(levels("a\tb", Some(1)), (1, vec![2, 1, 2]));
    assert_eq!(levels("a\nb", Some(1)), (1, vec![2, 1, 2]));
    assert_eq!(levels("\u{5D0}\t\u{5D1}", Some(0)), (0, vec![1, 0, 1]));
    // Whitespace before a separator has it too.
    assert_eq!(levels("\u{5D0} \t \u{5D1}", Some(0)), (0, vec![1, 0, 0, 1, 1]));
}

#[test]
fn trailing_whitespace_has_the_base_level() {
    // RLE alef WS PDF: inside the embedding the space would be at level 3.
    assert_eq!(levels("\u{202B}\u{5D0} \u{202C}", None), (1, vec![1, 3, 1, 3]));
    assert_eq!(levels("\u{5D0}\u{5D1}  ", Some(0)), (0, vec![1, 1, 0, 0]));
    // Isolate controls at the end of the line are reset with it.
    assert_eq!(levels("\u{5D0} \u{2067}\u{2069}", Some(0)), (0, vec![1, 0, 0, 0]));
}

#[test]
fn removed_characters_take_the_level_before_them() {
    // alef BN bet
    assert_eq!(levels("\u{5D0}\u{3}\u{5D1}", None), (1, vec![1, 1, 1]));
    // BN at the start takes the base level.
    assert_eq!(levels("\u{3}\u{5D0}", Some(0)), (0, vec![0, 1]));
    // a RLE PDF alef: the controls take the level of the letter before them.
    assert_eq!(levels("a\u{202B}\u{202C}\u{5D0}", Some(1)), (1, vec![2, 2, 2, 1]));
    // Removed characters do not part a run.
    assert_eq!(levels("\u{5D0}\u{3} \u{3}\u{5D1}", Some(0)), (0, vec![1, 1, 1, 1, 1]));
}

#[test]
fn first_strong_character_has_the_base_level() {
    let texts = [
        "a",
        "\u{5D0}",
        "12 (a) \u{5D0}",
        "12 (\u{5D0}) a",
        "\u{300}\u{627}1a",
        "\t \u{3}\u{202C}\u{2069}\u{5D0}\na",
        "!, $1 b\u{5D0}",
    ];
    for text in texts {
        let (base, found) = levels(text, None);
        let at = text
            .chars()
            .position(|ch| ch.is_alphabetic() && ch != '\u{300}')
            .unwrap();
        assert_eq!(found[at], base, "in {:?}", text);
        assert_eq!(found[at] % 2, base % 2, "in {:?}", text);
    }
}

#[test]
fn first_strong_character_inside_an_isolate_does_not_set_the_base_level() {
    // RLI alef PDI a: the base level comes from the Latin letter, and the
    // Hebrew letter is one level above it.
    assert_eq!(levels("\u{2067}\u{5D0}\u{2069}a", None), (0, vec![0, 1, 0, 0]));
    // A forced base level need not fit the first strong character.
    assert_eq!(levels("\u{5D0}", Some(0)), (0, vec![1]));
}
