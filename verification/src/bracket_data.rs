//! Paired brackets.

use vstd::prelude::*;
use crate::tables::{BRACKET_CLOSERS, BRACKET_PAIRS};

verus! {

/// Bracket property of a character.
#[derive(Copy, Clone, PartialEq, Eq, Structural)]
pub enum BracketType {
    /// Not a paired bracket.
    Neither,
    /// An opening bracket, with its closing bracket.
    Open(char),
    /// A closing bracket, with its opening bracket.
    Close(char),
}

/// The pair at `i` opens with the character.
pub open spec fn pair_opens_with(i: int, ch: char) -> bool {
    0 <= i < 60 && BRACKET_PAIRS@[i].0 == ch
}

/// The pair at `i` closes with the character.
pub open spec fn pair_closes_with(i: int, ch: char) -> bool {
    0 <= i < 60 && BRACKET_PAIRS@[i].1 == ch
}

/// The bracket property of a character, read from the table of pairs.
pub closed spec fn bracket(ch: char) -> BracketType {
    if exists|i: int| pair_opens_with(i, ch) {
        BracketType::Open(BRACKET_PAIRS@[choose|i: int| pair_opens_with(i, ch)].1)
    } else if exists|i: int| pair_closes_with(i, ch) {
        BracketType::Close(BRACKET_PAIRS@[choose|i: int| pair_closes_with(i, ch)].0)
    } else {
        BracketType::Neither
    }
}

/// Where the pair at `i` stands in the table ordered by closing bracket.
pub open spec fn closer_position(i: int) -> int {
    if i == 30 {
        31
    } else if i == 31 {
        30
    } else {
        i
    }
}

/// The pair at `i` stands before the pair at `j` where `i` is before `j`.
pub open spec fn pair_before(table: Seq<(char, char)>, i: int, j: int) -> bool {
    0 <= i < j < table.len() ==> (table[i].0 as u32) < (table[j].0 as u32)
}

/// A table of pairs in strictly ascending order of the first character.
pub open spec fn pairs_ascending(table: Seq<(char, char)>) -> bool {
    forall|i: int, j: int| #[trigger] pair_before(table, i, j)
}

/// The pair at `k` stands before the pair that follows it.
pub open spec fn pairs_step(table: Seq<(char, char)>, k: int) -> bool {
    (table[k].0 as u32) < (table[k + 1].0 as u32)
}

pub proof fn lemma_pairs_ascending(table: Seq<(char, char)>, i: int, j: int)
    requires
        0 <= i < j < table.len(),
        forall|k: int| 0 <= k < table.len() - 1 ==> pairs_step(table, k),
    ensures
        (table[i].0 as u32) < (table[j].0 as u32),
    decreases j - i,
{
    assert(pairs_step(table, j - 1));
    if i + 1 < j {
        lemma_pairs_ascending(table, i, j - 1);
    }
}

/// Both bracket tables are in strictly ascending order of their first
/// column, and the second holds the pairs of the first, turned round.
pub proof fn lemma_bracket_tables()
    ensures
        pairs_ascending(BRACKET_PAIRS@),
        pairs_ascending(BRACKET_CLOSERS@),
        forall|i: int|
            0 <= i < 60 ==> BRACKET_CLOSERS@[#[trigger] closer_position(i)] == (
                BRACKET_PAIRS@[i].1,
                BRACKET_PAIRS@[i].0,
            ),
{
    assert(forall|k: int| 0 <= k < 59 ==> pairs_step(BRACKET_PAIRS@, k));
    assert(forall|k: int| 0 <= k < 59 ==> pairs_step(BRACKET_CLOSERS@, k));
    assert forall|i: int, j: int| #[trigger] pair_before(BRACKET_PAIRS@, i, j) by {
        if 0 <= i < j < 60 {
            lemma_pairs_ascending(BRACKET_PAIRS@, i, j);
        }
    }
    assert forall|i: int, j: int| #[trigger] pair_before(BRACKET_CLOSERS@, i, j) by {
        if 0 <= i < j < 60 {
            lemma_pairs_ascending(BRACKET_CLOSERS@, i, j);
        }
    }
}

/// A character that opens a pair of the table is an opening bracket, with
/// the closing bracket of that pair.
pub proof fn lemma_bracket_opens(ch: char, i: int)
    requires
        pair_opens_with(i, ch),
    ensures
        bracket(ch) == BracketType::Open(BRACKET_PAIRS@[i].1),
{
    lemma_bracket_tables();
    let k = choose|k: int| pair_opens_with(k, ch);
    assert(pair_before(BRACKET_PAIRS@, k, i));
    assert(pair_before(BRACKET_PAIRS@, i, k));
}

/// A character that closes a pair of the table and opens none is a
/// closing bracket, with the opening bracket of that pair.
pub proof fn lemma_bracket_closes(ch: char, i: int)
    requires
        pair_closes_with(i, ch),
        forall|k: int| !pair_opens_with(k, ch),
    ensures
        bracket(ch) == BracketType::Close(BRACKET_PAIRS@[i].0),
{
    lemma_bracket_tables();
    let k = choose|k: int| pair_closes_with(k, ch);
    let p = closer_position(i);
    let q = closer_position(k);
    assert(BRACKET_CLOSERS@[p] == (BRACKET_PAIRS@[i].1, BRACKET_PAIRS@[i].0));
    assert(BRACKET_CLOSERS@[q] == (BRACKET_PAIRS@[k].1, BRACKET_PAIRS@[k].0));
    assert(pair_before(BRACKET_CLOSERS@, p, q));
    assert(pair_before(BRACKET_CLOSERS@, q, p));
}

/// A character that neither opens nor closes a pair of the table is no
/// bracket.
pub proof fn lemma_bracket_neither(ch: char)
    requires
        forall|k: int| !pair_opens_with(k, ch),
        forall|k: int| !pair_closes_with(k, ch),
    ensures
        bracket(ch) == BracketType::Neither,
{
}

/// Searches a table of pairs, ascending in the first character, for the
/// pair that begins with the key.
fn search_pairs(table: &[(char, char); 60], key: char) -> (found: Option<usize>)
    requires
        pairs_ascending(table@),
    ensures
        found matches Some(i) ==> i < 60 && table@[i as int].0 == key,
        found is None ==> forall|i: int| 0 <= i < 60 ==> table@[i].0 != key,
{
    let k = key as u32;
    let mut lo: usize = 0;
    let mut hi: usize = 60;
    while lo < hi
        invariant
            lo <= hi <= 60,
            k == key as u32,
            pairs_ascending(table@),
            forall|i: int| 0 <= i < lo ==> (table@[i].0 as u32) < k,
            forall|i: int| hi <= i < 60 ==> k < (table@[i].0 as u32),
        decreases hi - lo,
    {
        let mid: usize = (lo + hi) / 2;
        let c = table[mid].0 as u32;
        if k < c {
            proof {
                assert forall|i: int| mid <= i < 60 implies k < (table@[i].0 as u32) by {
                    assert(pair_before(table@, mid as int, i));
                }
            }
            hi = mid;
        } else if k > c {
            proof {
                assert forall|i: int| 0 <= i < mid + 1 implies (table@[i].0 as u32) < k by {
                    assert(pair_before(table@, i, mid as int));
                }
            }
            lo = mid + 1;
        } else {
            proof {
                vstd::utf8::char_u32_cast(key, k);
                vstd::utf8::char_u32_cast(table@[mid as int].0, c);
            }
            return Some(mid);
        }
    }
    None
}

/// The closing bracket that pairs with an opening bracket.
fn closing_bracket(open: char) -> (close: Option<char>)
    ensures
        close == match bracket(open) {
            BracketType::Open(c) => Some(c),
            _ => None,
        },
{
    proof {
        lemma_bracket_tables();
    }
    match search_pairs(&BRACKET_PAIRS, open) {
        Some(i) => {
            proof {
                assert(pair_opens_with(i as int, open));
                let k = choose|k: int| pair_opens_with(k, open);
                assert(k == i) by {
                    assert(pair_before(BRACKET_PAIRS@, k, i as int));
                    assert(pair_before(BRACKET_PAIRS@, i as int, k));
                }
            }
            Some(BRACKET_PAIRS[i].1)
        },
        None => None,
    }
}

/// The opening bracket that pairs with a closing bracket.
fn opening_bracket(close: char) -> (open: Option<char>)
    ensures
        open == (if exists|i: int| pair_closes_with(i, close) {
            Some(BRACKET_PAIRS@[choose|i: int| pair_closes_with(i, close)].0)
        } else {
            None
        }),
{
    proof {
        lemma_bracket_tables();
    }
    match search_pairs(&BRACKET_CLOSERS, close) {
        Some(i) => {
            proof {
                let p = closer_position(i as int);
                assert(closer_position(p) == i);
                assert(BRACKET_CLOSERS@[closer_position(p)] == (BRACKET_PAIRS@[p].1, BRACKET_PAIRS@[p].0));
                assert(pair_closes_with(p, close));
                let k = choose|k: int| pair_closes_with(k, close);
                let q = closer_position(k);
                assert(BRACKET_CLOSERS@[q] == (BRACKET_PAIRS@[k].1, BRACKET_PAIRS@[k].0));
                assert(q == i) by {
                    assert(pair_before(BRACKET_CLOSERS@, q, i as int));
                    assert(pair_before(BRACKET_CLOSERS@, i as int, q));
                }
                assert(k == p);
            }
            Some(BRACKET_CLOSERS[i].1)
        },
        None => {
            proof {
                assert forall|k: int| !pair_closes_with(k, close) by {
                    if pair_closes_with(k, close) {
                        let q = closer_position(k);
                        assert(BRACKET_CLOSERS@[q] == (BRACKET_PAIRS@[k].1, BRACKET_PAIRS@[k].0));
                    }
                }
            }
            None
        },
    }
}

impl BracketType {
    /// Returns the bracket property of the specified character.
    pub fn from_char(ch: char) -> (b: BracketType)
        ensures
            b == bracket(ch),
    {
        if let Some(close) = closing_bracket(ch) {
            BracketType::Open(close)
        } else if let Some(open) = opening_bracket(ch) {
            BracketType::Close(open)
        } else {
            BracketType::Neither
        }
    }
}

} // verus!
