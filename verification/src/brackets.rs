//! Paired brackets of one isolating run sequence: rule N0.

use vstd::prelude::*;
use crate::bidi_classes::{AL, AN, EN, L, NSM, ON, R};
use crate::bracket_data::BracketType;
use crate::data::{class_from_level, level_class, Type};

verus! {

/// Capacity of the stack of opening brackets.
pub const MAX_BRACKET_STACK: usize = 63;

/// The bracket property recorded for the character at `index` of the
/// paragraph, with the character; `None` where nothing is recorded.
pub open spec fn entry_of(entries: Seq<(usize, char, BracketType)>, index: usize) -> Option<
    (char, BracketType),
>
    decreases entries.len(),
{
    if entries.len() == 0 {
        None
    } else if entries.last().0 == index {
        Some((entries.last().1, entries.last().2))
    } else {
        entry_of(entries.drop_last(), index)
    }
}

/// The recorded brackets stand in strictly ascending order of their index.
pub open spec fn entries_ascending(entries: Seq<(usize, char, BracketType)>) -> bool {
    forall|i: int, j: int| 0 <= i < j < entries.len() ==> entries[i].0 < entries[j].0
}

/// In an ascending record the entry with a given index is the one found.
pub proof fn lemma_entry_found(entries: Seq<(usize, char, BracketType)>, at: int)
    requires
        entries_ascending(entries),
        0 <= at < entries.len(),
    ensures
        entry_of(entries, entries[at].0) == Some((entries[at].1, entries[at].2)),
    decreases entries.len(),
{
    if at < entries.len() - 1 {
        lemma_entry_found(entries.drop_last(), at);
    }
}

/// An index that no entry has is not recorded.
pub proof fn lemma_entry_missing(entries: Seq<(usize, char, BracketType)>, index: usize)
    requires
        forall|k: int| 0 <= k < entries.len() ==> entries[k].0 != index,
    ensures
        entry_of(entries, index) is None,
    decreases entries.len(),
{
    if entries.len() > 0 {
        lemma_entry_missing(entries.drop_last(), index);
    }
}

/// Searches the recorded brackets for the one at `index` of the paragraph.
pub fn find_entry(brackets: &Vec<(usize, char, BracketType)>, index: usize) -> (found: Option<
    (char, BracketType),
>)
    requires
        entries_ascending(brackets@),
    ensures
        found == entry_of(brackets@, index),
{
    let mut lo: usize = 0;
    let mut hi: usize = brackets.len();
    while lo < hi
        invariant
            lo <= hi <= brackets.len(),
            entries_ascending(brackets@),
            forall|k: int| 0 <= k < lo ==> brackets@[k].0 < index,
            forall|k: int| hi <= k < brackets.len() ==> index < brackets@[k].0,
        decreases hi - lo,
    {
        let mid: usize = lo + (hi - lo) / 2;
        let entry = brackets[mid];
        if index < entry.0 {
            hi = mid;
        } else if index > entry.0 {
            lo = mid + 1;
        } else {
            proof {
                lemma_entry_found(brackets@, mid as int);
            }
            return Some((entry.1, entry.2));
        }
    }
    proof {
        lemma_entry_missing(brackets@, index);
    }
    None
}

/// The bracket entries of the positions of a sequence, each looked up by
/// the position's index in the paragraph.
pub open spec fn marks_of(entries: Seq<(usize, char, BracketType)>, indices: Seq<usize>) -> Seq<
    Option<(char, BracketType)>,
> {
    Seq::new(indices.len(), |i: int| entry_of(entries, indices[i]))
}

/// The original classes of the positions of a sequence.
pub open spec fn originals_of(classes: Seq<Type>, indices: Seq<usize>) -> Seq<Type> {
    Seq::new(indices.len(), |i: int| classes[indices[i] as int])
}

/// A closing bracket closes an opener that expects it, or that expects
/// its canonical equivalent: U+232A and U+3009 count as one bracket.
pub open spec fn closes(expected: char, closer: char) -> bool {
    expected == closer || (expected == '\u{232A}' && closer == '\u{3009}') || (expected
        == '\u{3009}' && closer == '\u{232A}')
}

/// The place in the stack of the topmost opener that the closer closes,
/// or -1 where none does.
pub open spec fn matching_opener(openers: Seq<(usize, char)>, closer: char) -> int
    decreases openers.len(),
{
    if openers.len() == 0 {
        -1
    } else if closes(openers.last().1, closer) {
        openers.len() - 1
    } else {
        matching_opener(openers.drop_last(), closer)
    }
}

/// The state of the search for bracket pairs: the openers that wait for a
/// closer, each with its position and the closer it expects; the pairs
/// found, as positions of the opener and the closer; and whether the
/// search has stopped because the stack was full.
pub struct Pairing {
    pub openers: Seq<(usize, char)>,
    pub pairs: Seq<(usize, usize)>,
    pub stopped: bool,
}

/// The search for bracket pairs after the first `count` positions of a
/// sequence.
///
/// Only positions whose class is `ON` count. An opener is pushed; with 63
/// openers waiting the search stops for good. A closer pairs with the
/// topmost opener that it closes and drops the openers above that one; a
/// closer that closes none is passed over.
pub open spec fn pairing(
    types: Seq<Type>,
    marks: Seq<Option<(char, BracketType)>>,
    count: int,
) -> Pairing
    decreases count,
{
    if count <= 0 {
        Pairing { openers: Seq::empty(), pairs: Seq::empty(), stopped: false }
    } else {
        let before = pairing(types, marks, count - 1);
        let at = count - 1;
        if before.stopped || types[at].0 != ON {
            before
        } else {
            match marks[at] {
                Some((ch, BracketType::Open(closer))) => {
                    if before.openers.len() == MAX_BRACKET_STACK {
                        Pairing { stopped: true, ..before }
                    } else {
                        Pairing {
                            openers: before.openers.push((at as usize, closer)),
                            ..before
                        }
                    }
                },
                Some((ch, BracketType::Close(_))) => {
                    let found = matching_opener(before.openers, ch);
                    if found >= 0 {
                        Pairing {
                            openers: before.openers.take(found),
                            pairs: before.pairs.push((before.openers[found].0, at as usize)),
                            stopped: false,
                        }
                    } else {
                        before
                    }
                },
                _ => before,
            }
        }
    }
}

/// A sorted sequence of pairs with one more pair put in its place: behind
/// every pair that does not open after it.
pub open spec fn inserted(sorted: Seq<(usize, usize)>, pair: (usize, usize)) -> Seq<
    (usize, usize),
>
    decreases sorted.len(),
{
    if sorted.len() > 0 && sorted.last().0 > pair.0 {
        inserted(sorted.drop_last(), pair).push(sorted.last())
    } else {
        sorted.push(pair)
    }
}

/// The pairs in ascending order of their opening position.
pub open spec fn pairs_in_order(pairs: Seq<(usize, usize)>) -> Seq<(usize, usize)>
    decreases pairs.len(),
{
    if pairs.len() == 0 {
        pairs
    } else {
        inserted(pairs_in_order(pairs.drop_last()), pairs.last())
    }
}

/// The direction that a class has for rule N0: numbers and `AL` count as
/// `R`, and a class without direction gives `ON`.
pub open spec fn strong_direction(t: Type) -> Type {
    if t.0 == EN || t.0 == AN || t.0 == AL || t.0 == R {
        Type(R)
    } else if t.0 == L {
        Type(L)
    } else {
        Type(ON)
    }
}

/// The direction found between the positions `from` and `to`: the
/// embedding direction where some class there has it; else the direction
/// of the last class there that has one; else `ON`.
pub open spec fn enclosed_direction(types: Seq<Type>, from: int, to: int, embed: Type) -> Type
    decreases to - from,
{
    if from >= to {
        Type(ON)
    } else {
        let here = strong_direction(types[from]);
        if here == embed {
            embed
        } else {
            let rest = enclosed_direction(types, from + 1, to, embed);
            if rest.0 != ON {
                rest
            } else {
                here
            }
        }
    }
}

/// The direction of the nearest class before `at` that has one, or `sos`.
pub open spec fn context_direction(types: Seq<Type>, sos: Type, at: int) -> Type
    decreases at,
{
    if at <= 0 {
        sos
    } else if strong_direction(types[at - 1]).0 != ON {
        strong_direction(types[at - 1])
    } else {
        context_direction(types, sos, at - 1)
    }
}

/// The first position at or after `from` and before `limit` whose original
/// class is not `NSM`; `limit` where there is none.
pub open spec fn marks_end(originals: Seq<Type>, from: int, limit: int) -> int
    decreases limit - from,
{
    if from < limit && originals[from].0 == NSM {
        marks_end(originals, from + 1, limit)
    } else {
        from
    }
}

/// The direction that rule N0 gives a bracket pair, `ON` where it gives
/// none.
///
/// A strong class of the embedding direction between the brackets gives
/// that direction. With only the opposite direction between them, the
/// context before the opening bracket decides: the opposite direction
/// where the context has it, else the embedding direction. With no strong
/// class between them the pair is left alone.
pub open spec fn pair_direction(types: Seq<Type>, pair: (usize, usize), level: u8, sos: Type) -> Type {
    let embed = level_class(level);
    let inner = enclosed_direction(types, pair.0 + 1, pair.1 as int, embed);
    if inner.0 == ON || inner == embed {
        inner
    } else {
        let context = context_direction(types, sos, pair.0 as int);
        if context == embed || context.0 == ON {
            embed
        } else {
            context
        }
    }
}

/// The sequence after rule N0 has been applied to one pair: both brackets
/// take the pair's direction, and so does every position behind either
/// bracket up to the first whose original class is not `NSM`.
pub open spec fn pair_resolved(
    types: Seq<Type>,
    originals: Seq<Type>,
    pair: (usize, usize),
    level: u8,
    sos: Type,
) -> Seq<Type> {
    let dir = pair_direction(types, pair, level, sos);
    if dir.0 == ON {
        types
    } else {
        let inner_end = marks_end(originals, pair.0 + 1, pair.1 as int);
        let outer_end = marks_end(originals, pair.1 + 1, types.len() as int);
        Seq::new(
            types.len(),
            |j: int|
                if j == pair.0 || j == pair.1 || (pair.0 < j < inner_end) || (pair.1 < j
                    < outer_end) {
                    dir
                } else {
                    types[j]
                },
        )
    }
}

/// The sequence after rule N0 has been applied to the first `count` pairs.
pub open spec fn pairs_resolved(
    types: Seq<Type>,
    originals: Seq<Type>,
    pairs: Seq<(usize, usize)>,
    level: u8,
    sos: Type,
    count: int,
) -> Seq<Type>
    decreases count,
{
    if count <= 0 {
        types
    } else {
        pair_resolved(
            pairs_resolved(types, originals, pairs, level, sos, count - 1),
            originals,
            pairs[count - 1],
            level,
            sos,
        )
    }
}

/// The sequence after rule N0: the bracket pairs are found, put in order
/// of their opening position, and resolved one after the other.
pub open spec fn brackets_resolved(
    types: Seq<Type>,
    originals: Seq<Type>,
    marks: Seq<Option<(char, BracketType)>>,
    level: u8,
    sos: Type,
) -> Seq<Type> {
    let pairs = pairs_in_order(pairing(types, marks, types.len() as int).pairs);
    pairs_resolved(types, originals, pairs, level, sos, pairs.len() as int)
}

/// Every pair opens before it closes, and closes before `limit`.
pub open spec fn pairs_within(pairs: Seq<(usize, usize)>, limit: int) -> bool {
    forall|k: int| 0 <= k < pairs.len() ==> (#[trigger] pairs[k]).0 < pairs[k].1 < limit
}

proof fn lemma_inserted_within(sorted: Seq<(usize, usize)>, pair: (usize, usize), limit: int)
    requires
        pairs_within(sorted, limit),
        pair.0 < pair.1 < limit,
    ensures
        pairs_within(inserted(sorted, pair), limit),
        inserted(sorted, pair).len() == sorted.len() + 1,
    decreases sorted.len(),
{
    if sorted.len() > 0 && sorted.last().0 > pair.0 {
        lemma_inserted_within(sorted.drop_last(), pair, limit);
    }
}

/// Putting pairs in order keeps their number and their bounds.
pub proof fn lemma_pairs_in_order_within(pairs: Seq<(usize, usize)>, limit: int)
    requires
        pairs_within(pairs, limit),
    ensures
        pairs_within(pairs_in_order(pairs), limit),
        pairs_in_order(pairs).len() == pairs.len(),
    decreases pairs.len(),
{
    if pairs.len() > 0 {
        lemma_pairs_in_order_within(pairs.drop_last(), limit);
        lemma_inserted_within(pairs_in_order(pairs.drop_last()), pairs.last(), limit);
    }
}

/// The pairs stand in ascending order of their opening position.
pub open spec fn pairs_ascending(pairs: Seq<(usize, usize)>) -> bool {
    forall|a: int, b: int| 0 <= a < b < pairs.len() ==> pairs[a].0 <= pairs[b].0
}

proof fn lemma_inserted(sorted: Seq<(usize, usize)>, pair: (usize, usize))
    requires
        pairs_ascending(sorted),
    ensures
        pairs_ascending(inserted(sorted, pair)),
        inserted(sorted, pair).to_multiset() == sorted.to_multiset().insert(pair),
        inserted(sorted, pair).len() == sorted.len() + 1,
        inserted(sorted, pair).last().0 >= pair.0,
        sorted.len() > 0 ==> inserted(sorted, pair).last().0 >= sorted.last().0,
    decreases sorted.len(),
{
    broadcast use vstd::seq_lib::to_multiset_build;

    if sorted.len() > 0 && sorted.last().0 > pair.0 {
        let rest = sorted.drop_last();
        lemma_inserted(rest, pair);
        let all = inserted(sorted, pair);
        assert(sorted =~= rest.push(sorted.last()));
        assert(all.to_multiset() =~= sorted.to_multiset().insert(pair));
        assert forall|a: int, b: int| 0 <= a < b < all.len() implies all[a].0 <= all[b].0 by {
            let before = inserted(rest, pair);
            if b < before.len() {
                assert(all[a] == before[a] && all[b] == before[b]);
            } else {
                assert(all[a] == before[a]);
                assert(before[a].0 <= before.last().0);
                if rest.len() > 0 {
                    assert(rest.last() == sorted[sorted.len() - 2]);
                }
            }
        }
    } else {
        let all = sorted.push(pair);
        assert forall|a: int, b: int| 0 <= a < b < all.len() implies all[a].0 <= all[b].0 by {
            if b < sorted.len() {
                assert(all[a] == sorted[a] && all[b] == sorted[b]);
            } else {
                assert(all[a] == sorted[a]);
                assert(sorted[a].0 <= sorted.last().0);
            }
        }
    }
}

/// Putting pairs in order sorts them: the result holds the same pairs, in
/// ascending order of their opening position.
pub proof fn lemma_pairs_in_order(pairs: Seq<(usize, usize)>)
    ensures
        pairs_ascending(pairs_in_order(pairs)),
        pairs_in_order(pairs).to_multiset() == pairs.to_multiset(),
    decreases pairs.len(),
{
    broadcast use vstd::seq_lib::to_multiset_build;

    if pairs.len() > 0 {
        lemma_pairs_in_order(pairs.drop_last());
        lemma_inserted(pairs_in_order(pairs.drop_last()), pairs.last());
        assert(pairs =~= pairs.drop_last().push(pairs.last()));
    }
}

/// Resolving a pair keeps the length of the sequence.
pub proof fn lemma_pairs_resolved_len(
    types: Seq<Type>,
    originals: Seq<Type>,
    pairs: Seq<(usize, usize)>,
    level: u8,
    sos: Type,
    count: int,
)
    ensures
        pairs_resolved(types, originals, pairs, level, sos, count).len() == types.len(),
    decreases count,
{
    if count > 0 {
        lemma_pairs_resolved_len(types, originals, pairs, level, sos, count - 1);
    }
}

/// The stack of opening brackets that wait for their closer.
pub struct BracketStack {
    openers: [(usize, char); 63],
    depth: usize,
}

impl BracketStack {
    /// The openers on the stack, the oldest first, each with its position
    /// and the closer it expects.
    pub closed spec fn view(&self) -> Seq<(usize, char)> {
        self.openers@.take(self.depth as int)
    }

    /// The stack holds no more than its capacity.
    pub closed spec fn wf(&self) -> bool {
        self.depth <= MAX_BRACKET_STACK
    }

    /// Creates an empty stack.
    pub fn new() -> (stack: BracketStack)
        ensures
            stack.wf(),
            stack@ == Seq::<(usize, char)>::empty(),
    {
        let stack = BracketStack { openers: [(0, '\0');63], depth: 0 };
        assert(stack.openers@.take(0) =~= Seq::<(usize, char)>::empty());
        stack
    }

    /// The number of openers on the stack.
    pub fn depth(&self) -> (depth: usize)
        requires
            self.wf(),
        ensures
            depth == self@.len(),
            depth <= MAX_BRACKET_STACK,
    {
        self.depth
    }

    /// Pushes an opener with the closer that it expects.
    pub fn push(&mut self, offset: usize, closer: char)
        requires
            old(self).wf(),
            old(self)@.len() < MAX_BRACKET_STACK,
        ensures
            final(self).wf(),
            final(self)@ == old(self)@.push((offset, closer)),
    {
        self.openers[self.depth] = (offset, closer);
        self.depth += 1;
        assert(self.openers@.take(self.depth as int) =~= old(self).openers@.take(
            old(self).depth as int,
        ).push((offset, closer)));
    }

    /// Finds the topmost opener that the closer closes, drops it and the
    /// openers above it, and returns its position.
    pub fn find_and_pop(&mut self, closer: char) -> (found: Option<usize>)
        requires
            old(self).wf(),
        ensures
            final(self).wf(),
            found == (if matching_opener(old(self)@, closer) >= 0 {
                Some(old(self)@[matching_opener(old(self)@, closer)].0)
            } else {
                None
            }),
            final(self)@ == (if matching_opener(old(self)@, closer) >= 0 {
                old(self)@.take(matching_opener(old(self)@, closer))
            } else {
                old(self)@
            }),
    {
        let mut i: usize = self.depth;
        while i > 0
            invariant
                i <= self.depth <= MAX_BRACKET_STACK,
                *self == *old(self),
                matching_opener(self@, closer) == matching_opener(
                    self.openers@.take(i as int),
                    closer,
                ),
            decreases i,
        {
            let ghost below = self.openers@.take(i as int);
            assert(below.last() == self.openers@[i - 1]);
            assert(below.drop_last() =~= self.openers@.take(i - 1));
            i -= 1;
            let c = self.openers[i].1;
            if c == closer || (c == '\u{232A}' && closer == '\u{3009}') || (c == '\u{3009}'
                && closer == '\u{232A}') {
                let offset = self.openers[i].0;
                self.depth = i;
                assert(self@ =~= old(self)@.take(i as int));
                return Some(offset);
            }
        }
        None
    }
}

/// Returns the direction that a class has for rule N0.
pub fn direction_of(t: Type) -> (d: Type)
    ensures
        d == strong_direction(t),
{
    if t.0 == EN || t.0 == AN || t.0 == AL || t.0 == R {
        Type(R)
    } else if t.0 == L {
        Type(L)
    } else {
        Type(ON)
    }
}

/// Finds the bracket pairs of a sequence, in the order in which they close.
pub fn find_pairs(
    types: &Vec<Type>,
    indices: &Vec<usize>,
    brackets: &Vec<(usize, char, BracketType)>,
    pairs: &mut Vec<(usize, usize)>,
)
    requires
        types.len() == indices.len(),
        entries_ascending(brackets@),
    ensures
        final(pairs)@ == pairing(
            types@,
            marks_of(brackets@, indices@),
            types.len() as int,
        ).pairs,
        pairs_within(final(pairs)@, types.len() as int),
{
    pairs.clear();
    let len = types.len();
    let ghost marks = marks_of(brackets@, indices@);
    let mut stack = BracketStack::new();
    let mut stopped = false;
    let mut i: usize = 0;
    while i < len && !stopped
        invariant
            len == types.len(),
            len == indices.len(),
            i <= len,
            entries_ascending(brackets@),
            marks == marks_of(brackets@, indices@),
            stack.wf(),
            pairing(types@, marks, i as int) == (Pairing {
                openers: stack@,
                pairs: pairs@,
                stopped: stopped,
            }),
            pairs_within(pairs@, i as int),
            forall|k: int| 0 <= k < stack@.len() ==> stack@[k].0 < i,
        decreases len - i,
    {
        if types[i].0 == ON {
            match find_entry(brackets, indices[i]) {
                Some((ch, BracketType::Open(closer))) => {
                    if stack.depth() == MAX_BRACKET_STACK {
                        stopped = true;
                    } else {
                        stack.push(i, closer);
                    }
                },
                Some((ch, BracketType::Close(_))) => {
                    let ghost found = matching_opener(stack@, ch);
                    proof {
                        lemma_matching_opener_bound(stack@, ch);
                    }
                    if let Some(open) = stack.find_and_pop(ch) {
                        pairs.push((open, i));
                    }
                },
                _ => {},
            }
        }
        i += 1;
    }
    proof {
        lemma_pairing_stopped(types@, marks, i as int, len as int);
    }
}

/// The place of the matching opener is a place of the stack.
pub proof fn lemma_matching_opener_bound(openers: Seq<(usize, char)>, closer: char)
    ensures
        -1 <= matching_opener(openers, closer) < openers.len(),
    decreases openers.len(),
{
    if openers.len() > 0 {
        lemma_matching_opener_bound(openers.drop_last(), closer);
    }
}

/// Once the search has stopped it finds nothing more.
pub proof fn lemma_pairing_stopped(
    types: Seq<Type>,
    marks: Seq<Option<(char, BracketType)>>,
    from: int,
    to: int,
)
    requires
        0 <= from <= to,
        pairing(types, marks, from).stopped || from == to,
    ensures
        pairing(types, marks, to) == pairing(types, marks, from),
    decreases to - from,
{
    if from < to {
        lemma_pairing_stopped(types, marks, from, to - 1);
    }
}

/// Puts the pairs in ascending order of their opening position.
pub fn sort_pairs(pairs: &mut Vec<(usize, usize)>)
    ensures
        final(pairs)@ == pairs_in_order(old(pairs)@),
{
    let n = pairs.len();
    let ghost orig = pairs@;
    let mut i: usize = 0;
    assert(pairs@.take(0) =~= pairs_in_order(orig.take(0)));
    while i < n
        invariant
            n == pairs.len(),
            n == orig.len(),
            i <= n,
            pairs@.take(i as int) == pairs_in_order(orig.take(i as int)),
            forall|k: int| i <= k < n ==> pairs@[k] == orig[k],
        decreases n - i,
    {
        let pair = pairs[i];
        let ghost sorted = pairs@.take(i as int);
        let mut j: usize = i;
        assert(sorted.take(j as int) =~= sorted);
        assert(inserted(sorted, pair) =~= inserted(sorted.take(j as int), pair)
            + sorted.subrange(j as int, i as int));
        while j > 0 && pairs[j - 1].0 > pair.0
            invariant
                n == pairs.len(),
                n == orig.len(),
                j <= i < n,
                sorted.len() == i,
                forall|k: int| 0 <= k < j ==> pairs@[k] == sorted[k],
                forall|k: int| j < k <= i ==> pairs@[k] == sorted[k - 1],
                forall|k: int| i < k < n ==> pairs@[k] == orig[k],
                inserted(sorted, pair) == inserted(sorted.take(j as int), pair) + sorted.subrange(
                    j as int,
                    i as int,
                ),
            decreases j,
        {
            proof {
                let head = sorted.take(j as int);
                assert(head.last() == sorted[j - 1]);
                assert(head.drop_last() =~= sorted.take(j - 1));
                assert(inserted(head, pair) == inserted(sorted.take(j - 1), pair).push(
                    sorted[j - 1],
                ));
                assert(inserted(sorted.take(j - 1), pair).push(sorted[j - 1]) + sorted.subrange(
                    j as int,
                    i as int,
                ) =~= inserted(sorted.take(j - 1), pair) + sorted.subrange(j - 1, i as int));
            }
            pairs[j] = pairs[j - 1];
            j -= 1;
        }
        pairs[j] = pair;
        proof {
            let head = sorted.take(j as int);
            assert(j > 0 ==> head.last() == sorted[j - 1]);
            assert(inserted(head, pair) == head.push(pair));
            assert(pairs@.take(i + 1) =~= head.push(pair) + sorted.subrange(j as int, i as int));
            assert(orig.take(i + 1).drop_last() =~= orig.take(i as int));
            assert(orig.take(i + 1).last() == orig[i as int]);
        }
        i += 1;
    }
    assert(pairs@.take(n as int) =~= pairs@);
    assert(orig.take(n as int) =~= orig);
}

/// Applies rule N0 to one bracket pair.
pub fn resolve_pair(
    types: &mut Vec<Type>,
    indices: &Vec<usize>,
    initial_classes: &Vec<Type>,
    pair: (usize, usize),
    level: u8,
    sos: Type,
)
    requires
        old(types).len() == indices.len(),
        forall|i: int| 0 <= i < indices.len() ==> indices[i] < initial_classes.len(),
        pair.0 < pair.1 < old(types).len(),
    ensures
        final(types)@ == pair_resolved(
            old(types)@,
            originals_of(initial_classes@, indices@),
            pair,
            level,
            sos,
        ),
{
    let len = types.len();
    let ghost orig = types@;
    let ghost originals = originals_of(initial_classes@, indices@);
    let embed_dir = class_from_level(level);
    let mut pair_dir = Type(ON);
    let mut i: usize = pair.0 + 1;
    while i < pair.1 && pair_dir != embed_dir
        invariant
            len == types.len(),
            types@ == orig,
            pair.0 < i <= pair.1 < len,
            embed_dir == level_class(level),
            pair_dir == embed_dir ==> enclosed_direction(orig, pair.0 + 1, pair.1 as int, embed_dir)
                == embed_dir,
            pair_dir != embed_dir ==> enclosed_direction(orig, pair.0 + 1, pair.1 as int, embed_dir)
                == (if enclosed_direction(orig, i as int, pair.1 as int, embed_dir).0 != ON {
                enclosed_direction(orig, i as int, pair.1 as int, embed_dir)
            } else {
                pair_dir
            }),
            pair_dir.0 == ON || pair_dir.0 == L || pair_dir.0 == R,
        decreases pair.1 - i,
    {
        let dir = direction_of(types[i]);
        if dir.0 != ON {
            pair_dir = dir;
        }
        i += 1;
    }
    if pair_dir.0 == ON {
        return ;
    }
    if pair_dir != embed_dir {
        pair_dir = sos;
        let mut k: usize = pair.0;
        let mut found = false;
        while k > 0 && !found
            invariant
                len == types.len(),
                types@ == orig,
                k <= pair.0 < len,
                !found ==> pair_dir == sos && context_direction(orig, sos, pair.0 as int)
                    == context_direction(orig, sos, k as int),
                found ==> pair_dir == context_direction(orig, sos, pair.0 as int),
            decreases k,
        {
            k -= 1;
            let dir = direction_of(types[k]);
            if dir.0 != ON {
                pair_dir = dir;
                found = true;
            }
        }
        if pair_dir == embed_dir || pair_dir.0 == ON {
            pair_dir = embed_dir;
        }
    }
    assert(pair_dir == pair_direction(orig, pair, level, sos));
    types[pair.0] = pair_dir;
    types[pair.1] = pair_dir;
    let mut i: usize = pair.0 + 1;
    while i < pair.1 && initial_classes[indices[i]].0 == NSM
        invariant
            len == types.len(),
            len == indices.len(),
            len == orig.len(),
            originals == originals_of(initial_classes@, indices@),
            forall|i: int| 0 <= i < indices.len() ==> indices[i] < initial_classes.len(),
            pair.0 < i <= pair.1 < len,
            marks_end(originals, pair.0 + 1, pair.1 as int) == marks_end(
                originals,
                i as int,
                pair.1 as int,
            ),
            forall|j: int|
                0 <= j < len ==> types@[j] == (if j == pair.0 || j == pair.1 || pair.0 < j < i {
                    pair_dir
                } else {
                    orig[j]
                }),
        decreases pair.1 - i,
    {
        types[i] = pair_dir;
        i += 1;
    }
    let ghost inner_end = i;
    let mut i: usize = pair.1 + 1;
    while i < len && initial_classes[indices[i]].0 == NSM
        invariant
            len == types.len(),
            len == indices.len(),
            len == orig.len(),
            originals == originals_of(initial_classes@, indices@),
            forall|i: int| 0 <= i < indices.len() ==> indices[i] < initial_classes.len(),
            pair.0 < inner_end <= pair.1 < i <= len,
            marks_end(originals, pair.1 + 1, len as int) == marks_end(
                originals,
                i as int,
                len as int,
            ),
            forall|j: int|
                0 <= j < len ==> types@[j] == (if j == pair.0 || j == pair.1 || pair.0 < j
                    < inner_end || pair.1 < j < i {
                    pair_dir
                } else {
                    orig[j]
                }),
        decreases len - i,
    {
        types[i] = pair_dir;
        i += 1;
    }
    assert(types@ =~= pair_resolved(orig, originals, pair, level, sos));
}

/// Applies rule N0 to a sequence.
pub fn resolve_brackets(
    types: &mut Vec<Type>,
    indices: &Vec<usize>,
    initial_classes: &Vec<Type>,
    brackets: &Vec<(usize, char, BracketType)>,
    pairs: &mut Vec<(usize, usize)>,
    level: u8,
    sos: Type,
)
    requires
        old(types).len() == indices.len(),
        forall|i: int| 0 <= i < indices.len() ==> indices[i] < initial_classes.len(),
        entries_ascending(brackets@),
    ensures
        final(types)@ == brackets_resolved(
            old(types)@,
            originals_of(initial_classes@, indices@),
            marks_of(brackets@, indices@),
            level,
            sos,
        ),
        final(types).len() == old(types).len(),
{
    let ghost orig = types@;
    let ghost originals = originals_of(initial_classes@, indices@);
    if brackets.is_empty() {
        proof {
            lemma_no_entries(orig, marks_of(brackets@, indices@), orig.len() as int);
        }
        return ;
    }
    find_pairs(types, indices, brackets, pairs);
    proof {
        lemma_pairs_in_order_within(pairs@, orig.len() as int);
    }
    sort_pairs(pairs);
    let count = pairs.len();
    let mut p: usize = 0;
    while p < count
        invariant
            count == pairs.len(),
            p <= count,
            types.len() == indices.len(),
            types.len() == orig.len(),
            forall|i: int| 0 <= i < indices.len() ==> indices[i] < initial_classes.len(),
            originals == originals_of(initial_classes@, indices@),
            pairs_within(pairs@, orig.len() as int),
            types@ == pairs_resolved(orig, originals, pairs@, level, sos, p as int),
        decreases count - p,
    {
        let pair = pairs[p];
        resolve_pair(types, indices, initial_classes, pair, level, sos);
        proof {
            lemma_pairs_resolved_len(orig, originals, pairs@, level, sos, p + 1);
        }
        p += 1;
    }
}

/// A sequence without recorded brackets has no pairs.
pub proof fn lemma_no_entries(
    types: Seq<Type>,
    marks: Seq<Option<(char, BracketType)>>,
    count: int,
)
    requires
        count <= marks.len(),
        forall|i: int| 0 <= i < marks.len() ==> marks[i] is None,
    ensures
        pairing(types, marks, count) == (Pairing {
            openers: Seq::empty(),
            pairs: Seq::empty(),
            stopped: false,
        }),
    decreases count,
{
    if count > 0 {
        lemma_no_entries(types, marks, count - 1);
    }
}

} // verus!
