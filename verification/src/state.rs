//! Bidirectional algorithm state.

use vstd::prelude::*;
use vstd::utf8::encode_utf8;
use crate::bidi_classes::BIDI_MASK;
use crate::bracket_data::{bracket, BracketType};
use crate::brackets::entries_ascending;
use crate::data::{bidi_class, is_within, lemma_class_sets, Type};
use crate::explicit::{self, explicit_classes, explicit_levels, lemma_explicit_level};
use crate::granularity::{expand_levels, expanded};
use crate::laws::{lemma_levels_bound, lemma_text_levels_bound, lemma_text_levels_len};
use crate::line::{line_reset, reset_levels};
use crate::paragraph::{default_level, paragraph_level};
use crate::ranges::{compress_levels, ranges_of};
use crate::runs::{isolating_runs, lemma_isolating_runs, resolve_runs, runs_wf, Run};
use crate::sequence::{collect_sequence, resolve_sequence, sequences_resolved};
use crate::{Granularity, Level, LevelRange, Resolved};

verus! {

/// The classes of a paragraph given as characters with their classes.
pub open spec fn classes_of(chars: Seq<(char, Type)>) -> Seq<Type> {
    Seq::new(chars.len(), |i: int| chars[i].1)
}

/// The characters of a text, each with its bidirectional class.
pub open spec fn classified(text: Seq<char>) -> Seq<(char, Type)> {
    Seq::new(text.len(), |i: int| (text[i], bidi_class(text[i])))
}

/// The brackets of a paragraph: for every character that is a paired
/// bracket its index, the character and its bracket property, in the
/// order of the paragraph.
pub open spec fn bracket_entries(chars: Seq<(char, Type)>) -> Seq<(usize, char, BracketType)>
    decreases chars.len(),
{
    if chars.len() == 0 {
        Seq::empty()
    } else {
        let before = bracket_entries(chars.drop_last());
        let ch = chars.last().0;
        if bracket(ch) != BracketType::Neither {
            before.push(((chars.len() - 1) as usize, ch, bracket(ch)))
        } else {
            before
        }
    }
}

/// Some class of the paragraph is an explicit initiator, `R`, `AL` or
/// `AN`.
pub open spec fn needs_resolving(classes: Seq<Type>) -> bool
    decreases classes.len(),
{
    classes.len() > 0 && (needs_resolving(classes.drop_last()) || classes.last().needs_bidi())
}

/// The base level of a paragraph: the level that the caller sets, or the
/// level of the first strong class.
pub open spec fn base_level_of(classes: Seq<Type>, base_level: Option<Level>) -> Level {
    match base_level {
        Some(level) => level,
        None => paragraph_level(classes),
    }
}

/// The levels that the rules give a paragraph with the given classes and
/// brackets at the given base level: the paragraph goes through the
/// explicit rules, is cut into runs, has its isolating run sequences
/// resolved one after the other, and is then laid out as one line.
pub open spec fn levels_by_rules(
    classes: Seq<Type>,
    entries: Seq<(usize, char, BracketType)>,
    base: Level,
) -> Seq<Level> {
    let types = explicit_classes(classes, base);
    let explicit = explicit_levels(classes, base);
    let runs = isolating_runs(types, classes, explicit, base);
    let implicit = sequences_resolved(explicit, types, classes, entries, runs, runs.len() as int);
    line_reset(implicit, classes, base)
}

/// The levels of a paragraph with the given classes and brackets.
///
/// A paragraph at base level 0 without a class that needs resolving has
/// level 0 throughout. Any other paragraph has the levels that the rules
/// give it.
pub open spec fn levels_of(
    classes: Seq<Type>,
    entries: Seq<(usize, char, BracketType)>,
    base_level: Option<Level>,
) -> Seq<Level> {
    let base = base_level_of(classes, base_level);
    if !needs_resolving(classes) && base == 0 {
        Seq::new(classes.len(), |i: int| 0u8)
    } else {
        levels_by_rules(classes, entries, base)
    }
}

/// The resolved level of every character of a paragraph, given as
/// characters with their classes.
pub open spec fn resolved_levels(chars: Seq<(char, Type)>, base_level: Option<Level>) -> Seq<
    Level,
> {
    levels_of(classes_of(chars), bracket_entries(chars), base_level)
}

/// What [`State::resolve`] leaves in `resolved`, whatever the state held
/// before the call.
pub open spec fn resolved_as(
    chars: Seq<(char, Type)>,
    base_level: Option<Level>,
    resolved: Resolved<Level>,
) -> bool {
    &&& resolved.granularity == Granularity::Char
    &&& resolved.base_level == base_level_of(classes_of(chars), base_level)
    &&& resolved.levels@ == resolved_levels(chars, base_level)
}

/// The base level of a text: the level that the caller sets, or the level
/// of the first strong character.
pub open spec fn text_base_level(text: Seq<char>, base_level: Option<Level>) -> Level {
    base_level_of(classes_of(classified(text)), base_level)
}

/// The resolved levels of a text at the given granularity: a level for
/// each character, or a level for each byte of the text's UTF-8 encoding.
pub open spec fn text_levels(
    text: Seq<char>,
    granularity: Granularity,
    base_level: Option<Level>,
) -> Seq<Level> {
    let levels = resolved_levels(classified(text), base_level);
    match granularity {
        Granularity::Char => levels,
        Granularity::Byte => expanded(levels, text),
    }
}

/// The number of levels of a text at the given granularity: the number of
/// its characters, or the number of bytes of its UTF-8 encoding.
pub open spec fn level_count(text: Seq<char>, granularity: Granularity) -> nat {
    match granularity {
        Granularity::Char => text.len(),
        Granularity::Byte => encode_utf8(text).len(),
    }
}

/// Bidirectional algorithm state; reusable to avoid repeated allocations.
pub struct State {
    base_level: u8,
    initial_classes: Vec<Type>,
    types: Vec<Type>,
    sequence_types: Vec<Type>,
    brackets: Vec<(usize, char, BracketType)>,
    bracket_pairs: Vec<(usize, usize)>,
    runs: Vec<Run>,
    indices: Vec<usize>,
    flags: u16,
}

impl State {
    /// The state holds nothing of an earlier paragraph: its base level and
    /// its flags are 0, and every one of its buffers is empty.
    pub closed spec fn is_clear(&self) -> bool {
        &&& self.base_level == 0
        &&& self.flags == 0
        &&& self.initial_classes@ == Seq::<Type>::empty()
        &&& self.types@ == Seq::<Type>::empty()
        &&& self.sequence_types@ == Seq::<Type>::empty()
        &&& self.brackets@ == Seq::<(usize, char, BracketType)>::empty()
        &&& self.bracket_pairs@ == Seq::<(usize, usize)>::empty()
        &&& self.runs@ == Seq::<Run>::empty()
        &&& self.indices@ == Seq::<usize>::empty()
    }

    /// Creates a new resolver.
    pub fn new() -> (state: State)
        ensures
            state.is_clear(),
    {
        State {
            base_level: 0,
            initial_classes: Vec::new(),
            types: Vec::new(),
            sequence_types: Vec::new(),
            brackets: Vec::new(),
            bracket_pairs: Vec::new(),
            runs: Vec::new(),
            indices: Vec::new(),
            flags: 0,
        }
    }

    /// Clears the resolver state.
    fn clear(&mut self)
        ensures
            final(self).is_clear(),
    {
        self.initial_classes.clear();
        self.types.clear();
        self.sequence_types.clear();
        self.brackets.clear();
        self.bracket_pairs.clear();
        self.runs.clear();
        self.indices.clear();
        self.flags = 0;
        self.base_level = 0;
    }

    /// Takes in one character of a paragraph: its class, and its bracket
    /// property where it has one.
    fn load_char(&mut self, Ghost(chars): Ghost<Seq<(char, Type)>>, ch: char, t: Type) -> (needs_bidi:
        bool)
        requires
            old(self).initial_classes@ == classes_of(chars),
            old(self).brackets@ == bracket_entries(chars),
            entries_ascending(old(self).brackets@),
            forall|k: int|
                0 <= k < old(self).brackets@.len() ==> old(self).brackets@[k].0 < chars.len(),
        ensures
            final(self).initial_classes@ == classes_of(chars.push((ch, t))),
            final(self).brackets@ == bracket_entries(chars.push((ch, t))),
            entries_ascending(final(self).brackets@),
            forall|k: int|
                0 <= k < final(self).brackets@.len() ==> final(self).brackets@[k].0 < chars.len()
                    + 1,
            needs_bidi == t.needs_bidi(),
    {
        let i = self.initial_classes.len();
        self.initial_classes.push(t);
        let bracket = BracketType::from_char(ch);
        match bracket {
            BracketType::Neither => {},
            _ => {
                self.brackets.push((i, ch, bracket));
            },
        }
        proof {
            lemma_class_sets(t.0);
            assert(chars.push((ch, t)).drop_last() =~= chars);
            assert(self.initial_classes@ =~= classes_of(chars.push((ch, t))));
        }
        is_within(t, BIDI_MASK)
    }

    /// Resolves a paragraph specified by characters and their associated
    /// bidirectional classes.
    pub fn resolve(
        &mut self,
        chars: &[(char, Type)],
        base_level: Option<Level>,
        resolved: &mut Resolved<Level>,
    )
        requires
            base_level matches Some(level) ==> level <= 1,
        ensures
            resolved_as(chars@, base_level, *final(resolved)),
            final(resolved).levels@.len() == chars@.len(),
            forall|i: int| 0 <= i < chars@.len() ==> final(resolved).levels@[i] <= 126,
    {
        self.clear();
        resolved.granularity = Granularity::Char;
        resolved.base_level = 0;
        resolved.levels.clear();
        let mut needs_bidi = false;
        let len = chars.len();
        let mut i: usize = 0;
        assert(chars@.take(0) =~= Seq::<(char, Type)>::empty());
        while i < len
            invariant
                len == chars@.len(),
                i <= len,
                self.initial_classes@ == classes_of(chars@.take(i as int)),
                self.brackets@ == bracket_entries(chars@.take(i as int)),
                entries_ascending(self.brackets@),
                forall|k: int| 0 <= k < self.brackets@.len() ==> self.brackets@[k].0 < i,
                needs_bidi == needs_resolving(classes_of(chars@.take(i as int))),
            decreases len - i,
        {
            let (ch, t) = chars[i];
            let ghost before = chars@.take(i as int);
            let found = self.load_char(Ghost(before), ch, t);
            proof {
                assert(before.push((ch, t)) =~= chars@.take(i + 1));
                assert(classes_of(chars@.take(i + 1)).drop_last() =~= classes_of(before));
            }
            needs_bidi = needs_bidi || found;
            i += 1;
        }
        assert(chars@.take(len as int) =~= chars@);
        self.resolve_loaded(needs_bidi, base_level, resolved);
        proof {
            lemma_levels_bound(classes_of(chars@), bracket_entries(chars@), base_level);
        }
    }

    /// Resolves a paragraph specified by its text.
    pub fn resolve_text(
        &mut self,
        text: &str,
        base_level: Option<Level>,
        resolved: &mut Resolved<Level>,
    )
        requires
            base_level matches Some(level) ==> level <= 1,
        ensures
            resolved_as(classified(text@), base_level, *final(resolved)),
            final(resolved).levels@.len() == text@.len(),
    {
        self.clear();
        resolved.granularity = Granularity::Char;
        resolved.base_level = 0;
        resolved.levels.clear();
        let mut needs_bidi = false;
        let ghost chars = classified(text@);
        assert(chars.take(0) =~= Seq::<(char, Type)>::empty());
        broadcast use vstd::string::group_string_axioms;

        for ch in it: text.chars()
            invariant
                it.seq() == text@,
                chars == classified(text@),
                self.initial_classes@ == classes_of(chars.take(it.index())),
                self.brackets@ == bracket_entries(chars.take(it.index())),
                entries_ascending(self.brackets@),
                forall|k: int| 0 <= k < self.brackets@.len() ==> self.brackets@[k].0 < it.index(),
                needs_bidi == needs_resolving(classes_of(chars.take(it.index()))),
                it.index() == self.initial_classes@.len(),
        {
            let t = Type::from_char(ch);
            let ghost before = chars.take(it.index());
            let found = self.load_char(Ghost(before), ch, t);
            proof {
                assert(before.push((ch, t)) =~= chars.take(it.index() + 1));
                assert(classes_of(chars.take(it.index() + 1)).drop_last() =~= classes_of(before));
            }
            needs_bidi = needs_bidi || found;
        }
        assert(chars.take(chars.len() as int) =~= chars);
        self.resolve_loaded(needs_bidi, base_level, resolved);
    }

    /// Resolves the paragraph that the state has taken in.
    fn resolve_loaded(
        &mut self,
        needs_bidi: bool,
        base_level: Option<Level>,
        resolved: &mut Resolved<Level>,
    )
        requires
            base_level matches Some(level) ==> level <= 1,
            needs_bidi == needs_resolving(old(self).initial_classes@),
            entries_ascending(old(self).brackets@),
            old(resolved).levels@.len() == 0,
        ensures
            final(resolved).granularity == old(resolved).granularity,
            final(resolved).base_level == base_level_of(
                old(self).initial_classes@,
                base_level,
            ),
            final(resolved).levels@ == levels_of(
                old(self).initial_classes@,
                old(self).brackets@,
                base_level,
            ),
            final(resolved).levels@.len() == old(self).initial_classes@.len(),
    {
        let len = self.initial_classes.len();
        let base = match base_level {
            Some(level) => level,
            None => default_level(&self.initial_classes),
        };
        self.base_level = base;
        resolved.base_level = base;
        let ghost classes = self.initial_classes@;
        let ghost entries = self.brackets@;
        if !needs_bidi && base == 0 {
            self.flags = self.flags | 1;
            let mut i: usize = 0;
            while i < len
                invariant
                    i <= len,
                    base == 0,
                    resolved.levels@.len() == i,
                    forall|k: int| 0 <= k < i ==> resolved.levels@[k] == 0,
                    resolved.granularity == old(resolved).granularity,
                    resolved.base_level == base,
                decreases len - i,
            {
                resolved.levels.push(base);
                i += 1;
            }
            assert(resolved.levels@ =~= Seq::new(classes.len(), |i: int| 0u8));
            return ;
        }
        explicit::resolve_levels(
            &self.initial_classes,
            base,
            &mut self.types,
            &mut resolved.levels,
        );
        resolve_runs(
            &self.types,
            &self.initial_classes,
            &resolved.levels,
            base,
            &mut self.runs,
        );
        let ghost types = self.types@;
        let ghost explicit = resolved.levels@;
        let ghost runs = self.runs@;
        proof {
            assert forall|i: int| 0 <= i < explicit.len() implies explicit[i] <= 125 by {
                lemma_explicit_level(classes, base, i);
            }
            lemma_isolating_runs(types, classes, explicit, base);
        }
        let count = self.runs.len();
        let mut i: usize = 0;
        while i < count
            invariant
                i <= count,
                count == runs.len(),
                self.runs@ == runs,
                self.types@ == types,
                self.initial_classes@ == classes,
                self.brackets@ == entries,
                entries_ascending(entries),
                types.len() == classes.len(),
                explicit.len() == classes.len(),
                runs_wf(runs, types.len() as int),
                resolved.granularity == old(resolved).granularity,
                resolved.base_level == base,
                resolved.levels@.len() == classes.len(),
                resolved.levels@ == sequences_resolved(
                    explicit,
                    types,
                    classes,
                    entries,
                    runs,
                    i as int,
                ),
            decreases count - i,
        {
            let run = self.runs[i];
            if !run.in_sequence {
                let eos = collect_sequence(
                    &self.types,
                    &self.runs,
                    i,
                    &mut self.indices,
                    &mut self.sequence_types,
                );
                resolve_sequence(
                    &mut self.sequence_types,
                    &self.indices,
                    &self.initial_classes,
                    &self.brackets,
                    &mut self.bracket_pairs,
                    run.level,
                    run.sos,
                    eos,
                    &mut resolved.levels,
                );
            }
            i += 1;
        }
        reset_levels(&self.initial_classes, base, &mut resolved.levels);
    }
}

/// Resolves the bidirectional levels for the specified text and granularity.
/// Stores the result in preallocated storage.
///
/// Detects the base level if not provided.
pub fn resolve_levels_into(
    state: &mut State,
    text: &str,
    granularity: Granularity,
    base_level: Option<Level>,
    resolved: &mut Resolved<Level>,
)
    requires
        base_level matches Some(level) ==> level <= 1,
    ensures
        final(resolved).granularity == granularity,
        final(resolved).base_level == text_base_level(text@, base_level),
        final(resolved).levels@ == text_levels(text@, granularity, base_level),
        final(resolved).levels@.len() == level_count(text@, granularity),
        forall|i: int|
            0 <= i < final(resolved).levels@.len() ==> final(resolved).levels@[i] <= 126,
{
    resolved.base_level = 0;
    resolved.levels.clear();
    state.resolve_text(text, base_level, resolved);
    proof {
        assert(resolved.levels.len() == text@.len());
        lemma_text_levels_len(text@, granularity, base_level);
        lemma_text_levels_bound(text@, granularity, base_level);
    }
    resolved.granularity = granularity;
    match granularity {
        Granularity::Char => {},
        Granularity::Byte => {
            let levels = expand_levels(text, &resolved.levels);
            resolved.levels = levels;
        },
    }
}

/// Resolves the bidirectional levels for the specified text and granularity.
///
/// Detects the base level if not provided.
pub fn resolve_levels(
    state: &mut State,
    text: &str,
    granularity: Granularity,
    base_level: Option<Level>,
) -> (resolved: Resolved<Level>)
    requires
        base_level matches Some(level) ==> level <= 1,
    ensures
        resolved.granularity == granularity,
        resolved.base_level == text_base_level(text@, base_level),
        resolved.levels@ == text_levels(text@, granularity, base_level),
        resolved.levels@.len() == level_count(text@, granularity),
        forall|i: int| 0 <= i < resolved.levels@.len() ==> resolved.levels@[i] <= 126,
{
    let mut resolved = Resolved { granularity, base_level: 0, levels: Vec::new() };
    resolve_levels_into(state, text, granularity, base_level, &mut resolved);
    resolved
}

/// Resolves the bidirectional level ranges for the specified text and granularity.
/// Stores the result in preallocated storage.
///
/// Detects the base level if not provided.
pub fn resolve_ranges_into(
    state: &mut State,
    text: &str,
    granularity: Granularity,
    base_level: Option<Level>,
    resolved: &mut Resolved<LevelRange>,
)
    requires
        base_level matches Some(level) ==> level <= 1,
    ensures
        final(resolved).granularity == granularity,
        final(resolved).base_level == text_base_level(text@, base_level),
        final(resolved).levels@ == ranges_of(text_levels(text@, granularity, base_level)),
{
    let by_char = resolve_levels(state, text, granularity, base_level);
    resolved.granularity = granularity;
    resolved.base_level = by_char.base_level;
    compress_levels(&by_char.levels, &mut resolved.levels);
}

/// Resolves the bidirectional level ranges for the specified text and granularity.
///
/// Detects the base level if not provided.
pub fn resolve_ranges(
    state: &mut State,
    text: &str,
    granularity: Granularity,
    base_level: Option<Level>,
) -> (resolved: Resolved<LevelRange>)
    requires
        base_level matches Some(level) ==> level <= 1,
    ensures
        resolved.granularity == granularity,
        resolved.base_level == text_base_level(text@, base_level),
        resolved.levels@ == ranges_of(text_levels(text@, granularity, base_level)),
{
    let mut resolved = Resolved { granularity, base_level: 0, levels: Vec::new() };
    resolve_ranges_into(state, text, granularity, base_level, &mut resolved);
    resolved
}

} // verus!
