//! Explicit levels and directions: rules X1 to X8.

use vstd::prelude::*;
use crate::bidi_classes::{B, BN, EXPLICIT_MASK, FSI, L, LRO, ON, PDF, PDI, R, RLO, RTL_MASK};
use crate::data::{is_isolate_initiator, is_within, lemma_class_sets, Type};
use crate::paragraph::{default_level_until_pdi, isolate_level};

verus! {

/// The highest embedding level; the directional status stack holds one
/// entry more.
pub const MAX_STACK: usize = 125;

/// An entry of the directional status stack: an embedding level, the
/// override status (`ON` for none, `L` or `R`) and whether an isolate
/// initiator opened the entry.
pub struct Frame {
    pub level: u8,
    pub status: Type,
    pub isolate: bool,
}

/// The state of the explicit resolver between two characters: the
/// directional status stack, the counts of isolate initiators and of
/// embedding initiators that found no room, and the count of isolate
/// initiators that have an entry on the stack.
pub struct Embedding {
    pub stack: Seq<Frame>,
    pub overflow_isolates: nat,
    pub overflow_embedding: nat,
    pub valid_isolates: nat,
}

/// The number of entries of a stack that an isolate initiator opened.
pub open spec fn isolate_count(stack: Seq<Frame>) -> nat
    decreases stack.len(),
{
    if stack.len() == 0 {
        0
    } else {
        isolate_count(stack.drop_last()) + if stack.last().isolate {
            1nat
        } else {
            0nat
        }
    }
}

/// The stack once the innermost isolate has been closed: the entries
/// above the topmost isolate entry go, and that entry with them. The
/// bottom entry always stays.
pub open spec fn closed_isolate(stack: Seq<Frame>) -> Seq<Frame>
    decreases stack.len(),
{
    if stack.len() <= 1 {
        stack
    } else if stack.last().isolate {
        stack.drop_last()
    } else {
        closed_isolate(stack.drop_last())
    }
}

/// The least odd level above `level` for a right-to-left initiator, the
/// least even level above it for any other.
pub open spec fn next_level(level: u8, rtl: bool) -> int {
    if rtl == (level % 2 == 0) {
        level + 1
    } else {
        level + 2
    }
}

/// The override status that an initiator sets.
pub open spec fn initiated_status(t: Type) -> Type {
    if t.0 == LRO {
        Type(L)
    } else if t.0 == RLO {
        Type(R)
    } else {
        Type(ON)
    }
}

/// Whether the initiator at `at` opens a right-to-left level. A first
/// strong isolate takes its direction from the classes behind it.
pub open spec fn initiates_rtl(classes: Seq<Type>, at: int) -> bool {
    if classes[at].0 == FSI {
        isolate_level(classes, at + 1) == 1
    } else {
        classes[at].is_rtl_initiator()
    }
}

/// The state before the first character of a paragraph.
pub open spec fn initial_embedding(base: u8) -> Embedding {
    Embedding {
        stack: seq![Frame { level: base, status: Type(ON), isolate: false }],
        overflow_isolates: 0,
        overflow_embedding: 0,
        valid_isolates: 0,
    }
}

/// The state behind the character at `at`, from the state before it.
///
/// An initiator pushes an entry where its level is at most 125 and
/// nothing has overflowed; else it is counted as an overflow. A `PDI`
/// takes back an overflowing isolate initiator, or else closes the
/// innermost isolate. A `PDF` takes back an overflowing embedding
/// initiator, or else pops an entry that an embedding opened. A `B`
/// empties the stack down to the paragraph's entry.
pub open spec fn embedding_step(e: Embedding, classes: Seq<Type>, at: int) -> Embedding {
    let t = classes[at];
    let top = e.stack.last();
    if t.is_explicit() {
        let level = next_level(top.level, initiates_rtl(classes, at));
        if level <= MAX_STACK && e.overflow_isolates == 0 && e.overflow_embedding == 0 {
            Embedding {
                stack: e.stack.push(
                    Frame {
                        level: level as u8,
                        status: initiated_status(t),
                        isolate: t.is_isolate_initiator(),
                    },
                ),
                valid_isolates: if t.is_isolate_initiator() {
                    e.valid_isolates + 1
                } else {
                    e.valid_isolates
                },
                ..e
            }
        } else if t.is_isolate_initiator() {
            Embedding { overflow_isolates: e.overflow_isolates + 1, ..e }
        } else if e.overflow_isolates == 0 {
            Embedding { overflow_embedding: e.overflow_embedding + 1, ..e }
        } else {
            e
        }
    } else if t.0 == PDI {
        if e.overflow_isolates > 0 {
            Embedding { overflow_isolates: (e.overflow_isolates - 1) as nat, ..e }
        } else if e.valid_isolates == 0 {
            e
        } else {
            Embedding {
                stack: closed_isolate(e.stack),
                overflow_isolates: e.overflow_isolates,
                overflow_embedding: 0,
                valid_isolates: (e.valid_isolates - 1) as nat,
            }
        }
    } else if t.0 == PDF {
        if e.overflow_isolates > 0 {
            e
        } else if e.overflow_embedding > 0 {
            Embedding { overflow_embedding: (e.overflow_embedding - 1) as nat, ..e }
        } else if !top.isolate && e.stack.len() >= 2 {
            Embedding { stack: e.stack.drop_last(), ..e }
        } else {
            e
        }
    } else if t.0 == B {
        Embedding {
            stack: e.stack.take(1),
            overflow_isolates: 0,
            overflow_embedding: 0,
            valid_isolates: 0,
        }
    } else {
        e
    }
}

/// The state of the explicit resolver before the character at `at`.
pub open spec fn embedding_before(classes: Seq<Type>, base: u8, at: int) -> Embedding
    decreases at,
{
    if at <= 0 {
        initial_embedding(base)
    } else {
        embedding_step(embedding_before(classes, base, at - 1), classes, at - 1)
    }
}

/// A class under an override status: the status where one is set.
pub open spec fn overridden(t: Type, status: Type) -> Type {
    if status.0 != ON {
        status
    } else {
        t
    }
}

/// The explicit level of the character at `at`.
///
/// An isolate initiator has the level before its own entry, a `PDI` the
/// level behind the isolate it closes, a `PDF` the level before it pops,
/// a `B` the paragraph level. An embedding or override initiator gets
/// level 0: rule X9 removes it.
pub open spec fn explicit_level(classes: Seq<Type>, base: u8, at: int) -> u8 {
    let e = embedding_before(classes, base, at);
    let t = classes[at];
    if t.is_explicit() && !t.is_isolate_initiator() {
        0
    } else if t.0 == PDI {
        embedding_step(e, classes, at).stack.last().level
    } else if t.0 == B {
        base
    } else {
        e.stack.last().level
    }
}

/// The class of the character at `at` behind the explicit rules: its own
/// class, or the override status in force for an isolate initiator (the
/// status before its own entry), a `PDI` (the status behind the isolate it
/// closes) and any character that is no explicit code, `B` or `BN`.
pub open spec fn explicit_class(classes: Seq<Type>, base: u8, at: int) -> Type {
    let e = embedding_before(classes, base, at);
    let t = classes[at];
    if t.is_explicit() && !t.is_isolate_initiator() {
        t
    } else if t.0 == PDI {
        overridden(t, embedding_step(e, classes, at).stack.last().status)
    } else if t.0 == PDF || t.0 == B || t.0 == BN {
        t
    } else {
        overridden(t, e.stack.last().status)
    }
}

/// The explicit levels of a paragraph.
pub open spec fn explicit_levels(classes: Seq<Type>, base: u8) -> Seq<u8> {
    Seq::new(classes.len(), |i: int| explicit_level(classes, base, i))
}

/// The classes of a paragraph behind the explicit rules.
pub open spec fn explicit_classes(classes: Seq<Type>, base: u8) -> Seq<Type> {
    Seq::new(classes.len(), |i: int| explicit_class(classes, base, i))
}

/// What holds of the state of the explicit resolver at every character:
/// the stack is never empty, its levels rise from entry to entry and stay
/// at or under 125, its bottom entry is the paragraph's, an override
/// status is `ON`, `L` or `R`, and the count of valid isolates is the
/// number of isolate entries.
pub open spec fn embedding_wf(e: Embedding) -> bool {
    &&& e.stack.len() >= 1
    &&& !e.stack[0].isolate
    &&& forall|k: int|
        0 <= k < e.stack.len() ==> k <= (#[trigger] e.stack[k]).level <= MAX_STACK
    &&& forall|k: int|
        0 <= k < e.stack.len() ==> {
            let s = (#[trigger] e.stack[k]).status.0;
            s == ON || s == L || s == R
        }
    &&& e.valid_isolates == isolate_count(e.stack)
}

/// Closing the innermost isolate leaves a shorter stack, a prefix of the
/// old one, with one isolate entry less.
pub proof fn lemma_closed_isolate(stack: Seq<Frame>)
    requires
        stack.len() >= 1,
        !stack[0].isolate,
        isolate_count(stack) > 0,
    ensures
        1 <= closed_isolate(stack).len() < stack.len(),
        closed_isolate(stack) == stack.take(closed_isolate(stack).len() as int),
        isolate_count(closed_isolate(stack)) == isolate_count(stack) - 1,
    decreases stack.len(),
{
    if stack.len() == 1 {
        assert(stack.drop_last().len() == 0);
        assert(isolate_count(stack.drop_last()) == 0);
    } else if stack.last().isolate {
        assert(stack.drop_last() =~= stack.take(stack.len() - 1));
    } else {
        let rest = stack.drop_last();
        lemma_closed_isolate(rest);
        assert(rest.take(closed_isolate(rest).len() as int) =~= stack.take(
            closed_isolate(rest).len() as int,
        ));
    }
}

/// A stack of one entry that no isolate opened holds no isolate entry.
pub proof fn lemma_isolate_count_bottom(stack: Seq<Frame>)
    requires
        stack.len() == 1,
        !stack[0].isolate,
    ensures
        isolate_count(stack) == 0,
{
    assert(stack.drop_last().len() == 0);
    assert(isolate_count(stack.drop_last()) == 0);
}

/// Every step of the explicit resolver keeps its state well-formed.
pub proof fn lemma_embedding_step(e: Embedding, classes: Seq<Type>, at: int)
    requires
        embedding_wf(e),
    ensures
        embedding_wf(embedding_step(e, classes, at)),
{
    let t = classes[at];
    let top = e.stack.last();
    let next = embedding_step(e, classes, at);
    if t.is_explicit() {
        let level = next_level(top.level, initiates_rtl(classes, at));
        if level <= MAX_STACK && e.overflow_isolates == 0 && e.overflow_embedding == 0 {
            assert(next.stack.drop_last() =~= e.stack);
            assert forall|k: int| 0 <= k < next.stack.len() implies k <= (
            #[trigger] next.stack[k]).level <= MAX_STACK by {
                if k < e.stack.len() {
                    assert(next.stack[k] == e.stack[k]);
                }
            }
            assert forall|k: int| 0 <= k < next.stack.len() implies {
                let s = (#[trigger] next.stack[k]).status.0;
                s == ON || s == L || s == R
            } by {
                if k < e.stack.len() {
                    assert(next.stack[k] == e.stack[k]);
                }
            }
        }
    } else if t.0 == PDI {
        if e.overflow_isolates == 0 && e.valid_isolates > 0 {
            lemma_closed_isolate(e.stack);
        }
    } else if t.0 == PDF {
        if e.overflow_isolates == 0 && e.overflow_embedding == 0 && !top.isolate && e.stack.len()
            >= 2 {
            assert(next.stack == e.stack.drop_last());
        }
    } else if t.0 == B {
        lemma_isolate_count_bottom(e.stack.take(1));
    }
}

/// The state of the explicit resolver is well-formed at every character.
pub proof fn lemma_embedding_before(classes: Seq<Type>, base: u8, at: int)
    requires
        base <= 1,
    ensures
        embedding_wf(embedding_before(classes, base, at)),
    decreases at,
{
    if at <= 0 {
        lemma_isolate_count_bottom(initial_embedding(base).stack);
    } else {
        lemma_embedding_before(classes, base, at - 1);
        lemma_embedding_step(embedding_before(classes, base, at - 1), classes, at - 1);
    }
}

/// No explicit level is above 125.
pub proof fn lemma_explicit_level(classes: Seq<Type>, base: u8, at: int)
    requires
        base <= 1,
    ensures
        explicit_level(classes, base, at) <= MAX_STACK,
{
    lemma_embedding_before(classes, base, at);
    lemma_embedding_step(embedding_before(classes, base, at), classes, at);
}

/// The directional status stack.
pub struct Stack {
    embedding_level: [u8; 126],
    override_status: [Type; 126],
    isolate_status: [bool; 126],
    depth: usize,
}

impl Stack {
    /// The entries of the stack, the paragraph's entry first.
    pub closed spec fn view(&self) -> Seq<Frame> {
        Seq::new(
            self.depth as nat,
            |k: int|
                Frame {
                    level: self.embedding_level@[k],
                    status: self.override_status@[k],
                    isolate: self.isolate_status@[k],
                },
        )
    }

    /// The stack holds no more than its capacity.
    pub closed spec fn wf(&self) -> bool {
        self.depth <= MAX_STACK + 1
    }

    /// Creates an empty stack.
    pub fn new() -> (stack: Stack)
        ensures
            stack.wf(),
            stack@.len() == 0,
    {
        Stack {
            depth: 0,
            embedding_level: [0;126],
            override_status: [Type(ON);126],
            isolate_status: [false;126],
        }
    }

    /// Pushes an entry.
    pub fn push(&mut self, level: u8, override_status: Type, isolate_status: bool)
        requires
            old(self).wf(),
            old(self)@.len() <= MAX_STACK,
        ensures
            final(self).wf(),
            final(self)@ == old(self)@.push(
                Frame { level: level, status: override_status, isolate: isolate_status },
            ),
    {
        let d = self.depth;
        self.embedding_level[d] = level;
        self.override_status[d] = override_status;
        self.isolate_status[d] = isolate_status;
        self.depth += 1;
        assert(self@ =~= old(self)@.push(
            Frame { level: level, status: override_status, isolate: isolate_status },
        ));
    }

    /// Pops the top entry, unless it is the only one.
    pub fn pop(&mut self)
        requires
            old(self).wf(),
        ensures
            final(self).wf(),
            final(self)@ == (if old(self)@.len() > 1 {
                old(self)@.drop_last()
            } else {
                old(self)@
            }),
    {
        if self.depth > 1 {
            self.depth -= 1;
            assert(self@ =~= old(self)@.drop_last());
        }
    }

    /// Drops every entry but the paragraph's.
    pub fn reset(&mut self)
        requires
            old(self).wf(),
            old(self)@.len() >= 1,
        ensures
            final(self).wf(),
            final(self)@ == old(self)@.take(1),
    {
        self.depth = 1;
        assert(self@ =~= old(self)@.take(1));
    }

    /// The number of entries.
    pub fn depth(&self) -> (depth: usize)
        requires
            self.wf(),
        ensures
            depth == self@.len(),
    {
        self.depth
    }

    /// The embedding level of the top entry.
    pub fn embedding_level(&self) -> (level: u8)
        requires
            self.wf(),
            self@.len() >= 1,
        ensures
            level == self@.last().level,
    {
        self.embedding_level[self.depth - 1]
    }

    /// The override status of the top entry.
    pub fn override_status(&self) -> (status: Type)
        requires
            self.wf(),
            self@.len() >= 1,
        ensures
            status == self@.last().status,
    {
        self.override_status[self.depth - 1]
    }

    /// Whether an isolate initiator opened the top entry.
    pub fn isolate_status(&self) -> (isolate: bool)
        requires
            self.wf(),
            self@.len() >= 1,
        ensures
            isolate == self@.last().isolate,
    {
        self.isolate_status[self.depth - 1]
    }
}

/// Computes the level that an initiator opens above `level`.
fn level_above(level: u8, rtl: bool) -> (above: u8)
    requires
        level <= MAX_STACK,
    ensures
        above == next_level(level, rtl),
{
    if rtl {
        assert(((level + 1) as u8 | 1) == (if level % 2 == 0 {
            (level + 1) as u8
        } else {
            (level + 2) as u8
        })) by (bit_vector)
            requires
                level <= 125,
        ;
        (level + 1) | 1
    } else {
        assert(((level + 2) as u8 & !1u8) == (if level % 2 == 0 {
            (level + 2) as u8
        } else {
            (level + 1) as u8
        })) by (bit_vector)
            requires
                level <= 125,
        ;
        (level + 2) & !1
    }
}

/// Assigns the explicit level of every character and applies the override
/// status in force to its class.
pub fn resolve_levels(classes: &Vec<Type>, base: u8, types: &mut Vec<Type>, levels: &mut Vec<u8>)
    requires
        base <= 1,
    ensures
        final(types)@ == explicit_classes(classes@, base),
        final(levels)@ == explicit_levels(classes@, base),
{
    let len = classes.len();
    types.clear();
    levels.clear();
    let mut stack = Stack::new();
    let mut overflow_isolates: usize = 0;
    let mut overflow_embedding: usize = 0;
    let mut valid_isolates: usize = 0;
    stack.push(base, Type(ON), false);
    proof {
        lemma_embedding_before(classes@, base, 0);
        assert(stack@ =~= initial_embedding(base).stack);
    }
    let mut i: usize = 0;
    while i < len
        invariant
            base <= 1,
            len == classes.len(),
            i <= len,
            types.len() == i,
            levels.len() == i,
            stack.wf(),
            overflow_isolates <= i,
            overflow_embedding <= i,
            embedding_before(classes@, base, i as int) == (Embedding {
                stack: stack@,
                overflow_isolates: overflow_isolates as nat,
                overflow_embedding: overflow_embedding as nat,
                valid_isolates: valid_isolates as nat,
            }),
            embedding_wf(embedding_before(classes@, base, i as int)),
            forall|j: int| 0 <= j < i ==> types@[j] == explicit_class(classes@, base, j),
            forall|j: int| 0 <= j < i ==> levels@[j] == explicit_level(classes@, base, j),
        decreases len - i,
    {
        let t = classes[i];
        let ghost before = embedding_before(classes@, base, i as int);
        proof {
            lemma_class_sets(t.0);
            lemma_embedding_step(before, classes@, i as int);
            lemma_isolate_count_bound(stack@);
        }
        let mut level: u8 = 0;
        let mut class = t;
        if is_within(t, EXPLICIT_MASK) {
            let is_isolate = is_isolate_initiator(t);
            let is_rtl = if t.0 == FSI {
                default_level_until_pdi(classes, i + 1) == 1
            } else {
                is_within(t, RTL_MASK)
            };
            if is_isolate {
                level = stack.embedding_level();
                let os = stack.override_status();
                if os.0 != ON {
                    class = os;
                }
            }
            let new_level = level_above(stack.embedding_level(), is_rtl);
            if new_level <= MAX_STACK as u8 && overflow_isolates == 0 && overflow_embedding == 0 {
                if is_isolate {
                    valid_isolates += 1;
                }
                stack.push(
                    new_level,
                    if t.0 == LRO {
                        Type(L)
                    } else if t.0 == RLO {
                        Type(R)
                    } else {
                        Type(ON)
                    },
                    is_isolate,
                );
            } else if is_isolate {
                overflow_isolates += 1;
            } else if overflow_isolates == 0 {
                overflow_embedding += 1;
            }
        } else if t.0 == PDI {
            if overflow_isolates > 0 {
                overflow_isolates -= 1;
            } else if valid_isolates == 0 {
            } else {
                overflow_embedding = 0;
                while !stack.isolate_status()
                    invariant
                        stack.wf(),
                        stack@.len() >= 1,
                        !stack@[0].isolate,
                        isolate_count(stack@) > 0,
                        closed_isolate(stack@) == closed_isolate(before.stack),
                    decreases stack@.len(),
                {
                    proof {
                        if stack@.len() == 1 {
                            lemma_isolate_count_bottom(stack@);
                        }
                    }
                    stack.pop();
                }
                proof {
                    if stack@.len() == 1 {
                        lemma_isolate_count_bottom(stack@);
                    }
                }
                stack.pop();
                valid_isolates -= 1;
            }
            level = stack.embedding_level();
            let os = stack.override_status();
            if os.0 != ON {
                class = os;
            }
        } else if t.0 == PDF {
            level = stack.embedding_level();
            if overflow_isolates > 0 {
            } else if overflow_embedding > 0 {
                overflow_embedding -= 1;
            } else if !stack.isolate_status() && stack.depth() >= 2 {
                stack.pop();
            }
        } else if t.0 == B {
            stack.reset();
            overflow_isolates = 0;
            overflow_embedding = 0;
            valid_isolates = 0;
            level = base;
        } else {
            level = stack.embedding_level();
            if t.0 != BN {
                let os = stack.override_status();
                if os.0 != ON {
                    class = os;
                }
            }
        }
        types.push(class);
        levels.push(level);
        i += 1;
    }
    assert(types@ =~= explicit_classes(classes@, base));
    assert(levels@ =~= explicit_levels(classes@, base));
}

/// A stack holds no more isolate entries than entries.
pub proof fn lemma_isolate_count_bound(stack: Seq<Frame>)
    ensures
        isolate_count(stack) <= stack.len(),
    decreases stack.len(),
{
    if stack.len() > 0 {
        lemma_isolate_count_bound(stack.drop_last());
    }
}

} // verus!
