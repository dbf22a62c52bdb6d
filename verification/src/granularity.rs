//! Levels per code unit: every level of a character repeated for each
//! byte of the character's UTF-8 encoding.

use vstd::prelude::*;
use vstd::utf8::{encode_scalar, encode_utf8};

verus! {

/// The number of bytes of the UTF-8 encoding of a character.
pub open spec fn utf8_width(ch: char) -> nat {
    encode_scalar(ch as u32).len()
}

/// The levels of a text per byte: the level of each character, once for
/// every byte of its encoding.
pub open spec fn expanded(levels: Seq<u8>, text: Seq<char>) -> Seq<u8>
    decreases text.len(),
{
    if text.len() == 0 || levels.len() == 0 {
        Seq::empty()
    } else {
        Seq::new(utf8_width(text[0]), |i: int| levels[0]) + expanded(
            levels.drop_first(),
            text.drop_first(),
        )
    }
}

/// A text with a level for each character has as many levels per byte as
/// its UTF-8 encoding has bytes.
pub proof fn lemma_expanded_len(levels: Seq<u8>, text: Seq<char>)
    requires
        levels.len() == text.len(),
    ensures
        expanded(levels, text).len() == encode_utf8(text).len(),
    decreases text.len(),
{
    if text.len() > 0 {
        lemma_expanded_len(levels.drop_first(), text.drop_first());
    }
}

/// Every level per byte is the level of some character.
pub proof fn lemma_expanded_bound(levels: Seq<u8>, text: Seq<char>, bound: u8)
    requires
        forall|i: int| 0 <= i < levels.len() ==> levels[i] <= bound,
    ensures
        forall|i: int|
            0 <= i < expanded(levels, text).len() ==> #[trigger] expanded(levels, text)[i]
                <= bound,
    decreases text.len(),
{
    if text.len() > 0 && levels.len() > 0 {
        lemma_expanded_bound(levels.drop_first(), text.drop_first(), bound);
        let head = Seq::new(utf8_width(text[0]), |i: int| levels[0]);
        let tail = expanded(levels.drop_first(), text.drop_first());
        assert forall|i: int| 0 <= i < expanded(levels, text).len() implies #[trigger] expanded(
            levels,
            text,
        )[i] <= bound by {
            if i >= head.len() {
                assert(expanded(levels, text)[i] == tail[i - head.len()]);
            }
        }
    }
}

/// Returns the number of bytes of the UTF-8 encoding of a character.
pub fn len_utf8(ch: char) -> (width: usize)
    ensures
        width == utf8_width(ch),
        1 <= width <= 4,
{
    let code = ch as u32;
    if code < 0x80 {
        1
    } else if code < 0x800 {
        2
    } else if code < 0x10000 {
        3
    } else {
        4
    }
}

/// Expands a level for each character of a text into levels per byte.
pub fn expand_levels(text: &str, levels: &Vec<u8>) -> (bytes: Vec<u8>)
    requires
        levels.len() == text@.len(),
    ensures
        bytes@ == expanded(levels@, text@),
{
    broadcast use vstd::string::group_string_axioms;

    let mut bytes: Vec<u8> = Vec::with_capacity(text.len());
    let mut at: usize = 0;
    assert(levels@.skip(0) =~= levels@);
    assert(text@.skip(0) =~= text@);
    for ch in it: text.chars()
        invariant
            it.seq() == text@,
            levels.len() == text@.len(),
            at == it.index(),
            bytes@ + expanded(levels@.skip(at as int), text@.skip(at as int)) == expanded(
                levels@,
                text@,
            ),
    {
        let level = levels[at];
        let width = len_utf8(ch);
        let ghost before = bytes@;
        let ghost rest = expanded(levels@.skip(at + 1), text@.skip(at + 1));
        proof {
            assert(levels@.skip(at as int).drop_first() =~= levels@.skip(at + 1));
            assert(text@.skip(at as int).drop_first() =~= text@.skip(at + 1));
            assert(levels@.skip(at as int)[0] == level);
            assert(text@.skip(at as int)[0] == ch);
        }
        let mut k: usize = 0;
        while k < width
            invariant
                k <= width,
                bytes@ == before + Seq::new(k as nat, |i: int| level),
            decreases width - k,
        {
            bytes.push(level);
            assert(bytes@ =~= before + Seq::new((k + 1) as nat, |i: int| level));
            k += 1;
        }
        assert(bytes@ + rest =~= before + (Seq::new(utf8_width(ch), |i: int| level) + rest));
        at += 1;
    }
    proof {
        assert(text@.skip(at as int).len() == 0);
    }
    assert(bytes@ =~= bytes@ + Seq::<u8>::empty());
    bytes
}

} // verus!
