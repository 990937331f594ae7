//! One-syllable patterns.
//!
//! A pattern is a syllable written the same way a value is, except that any part of
//! it may be replaced by a wildcard glyph, and a part that is simply not written is
//! a wildcard too. So the pattern only ever constrains what it actually says.
//!
//! ```text
//! p?       声母 p, 韵母 and 声调 free        value & 0x801F == 0x000E
//! p        the same as p?                   value & 0x801F == 0x000E
//! ?ang     韵母 ang, 声母 and 声调 free      value & 0x7F00 == 0x0600
//! zhong    声母 and 韵母 of zhong           value & 0xFF1F == 0x8E16
//! zhong1   ... and 阴平                     value & 0xFFFF == 0x8E96
//! *        any syllable                     value & 0 == 0
//! /        零声母                           value & 0x801F == 0x0002
//! &        the pseudo-initial R             value & 0x801F == 0x8010
//! ??0      any syllable, 声调 free          value & 0 == 0
//! ```
//!
//! The codes of `p`, `ang` and `zhong` are those that [`crate::standard`] states of every
//! set of tables.
use crate::fields::{Final, Initial, Tone, FINAL_MASK, INITIAL_MASK, TONE_MASK};
use crate::parse::split_tone;
use crate::standard::is_standard;
use crate::tables::{code_named, TableModel, Tables};
use crate::text::{chars_of, normalized, same_text};
use crate::tone::{split_lowered, split_written};
use vstd::prelude::*;
use vstd::slice::slice_subrange;

verus! {

/// A compiled one-syllable pattern.
///
/// Every pattern reduces to one masked compare on the packed syllable: a
/// constraint on 声母 is a test of `0x801F`, on 韵母 of `0x7F00`, on 声调 of
/// `0x00E0`, and leaving a field out simply drops it from the mask.
#[derive(Clone, Copy, Debug, PartialEq, Eq, Structural)]
pub enum Pattern {
    /// Match when `value & mask == expect`.
    Mask { mask: u16, expect: u16 },
    /// A pattern that names nothing legal, and so matches nothing.
    Never,
}

impl Pattern {
    /// What it means for a value to match.
    pub open spec fn accepts(self, value: u16) -> bool {
        match self {
            Pattern::Mask { mask, expect } => value & mask == expect,
            Pattern::Never => false,
        }
    }

    /// Match a packed syllable.
    pub fn matches(&self, value: u16) -> (r: bool)
        ensures
            r == self.accepts(value),
    {
        match self {
            Pattern::Mask { mask, expect } => value & *mask == *expect,
            Pattern::Never => false,
        }
    }
}

/// A compiled pattern is one masked compare: every bit of the mask has to be as in the
/// constant, and the constant has no other bit.
pub proof fn law_masked_compare(mask: u16, expect: u16, value: u16)
    ensures
        (Pattern::Mask { mask, expect }).accepts(value) <==> (value ^ expect) & mask == 0 && expect
            & !mask == 0,
        !Pattern::Never.accepts(value),
{
    assert(value & mask == expect <==> ((value ^ expect) & mask == 0 && expect & !mask == 0))
        by (bit_vector);
}

// --- what a pattern says ------------------------------------------------------

/// Stands for one part of a syllable, or for the whole of it.
pub const WILDCARD_ANY: char = '?';

/// Stands for 声母 and 韵母 but not 声调.
pub const WILDCARD_SYLLABLE: char = '*';

/// Writes the zero initial.
pub const ZERO_INITIAL: char = '/';

/// Writes the pseudo-initial R.
pub const SPECIAL_R: char = '&';

/// One of the four glyphs of a pattern.
pub open spec fn is_glyph(c: char) -> bool {
    c == WILDCARD_ANY || c == WILDCARD_SYLLABLE || c == ZERO_INITIAL || c == SPECIAL_R
}

/// Some glyph stands in the text.
pub open spec fn has_glyph(s: Seq<char>) -> bool {
    exists|i: int| 0 <= i < s.len() && is_glyph(#[trigger] s[i])
}

/// The 声母 and the 韵母 that a pattern asks for; `None` leaves the part free.
pub struct Slots {
    pub initial: Option<u16>,
    pub final_: Option<u16>,
}

/// A part that is asked for contributes its mask.
pub open spec fn slot_mask(slot: Option<u16>, mask: u16) -> u16 {
    match slot {
        Some(_) => mask,
        None => 0,
    }
}

/// A part that is asked for contributes its code.
pub open spec fn slot_code(slot: Option<u16>) -> u16 {
    match slot {
        Some(code) => code,
        None => 0,
    }
}

/// The tone that a pattern asks for. The explicit wildcard `0` leaves it free, as
/// leaving the tone out does.
pub open spec fn tone_slot(tone: Option<u16>) -> Option<u16> {
    if tone == Some(Tone::UNSPEC) {
        None
    } else {
        tone
    }
}

/// The masked compare that asks for the given parts and no others.
pub open spec fn pattern_for(slots: Slots, tone: Option<u16>) -> Pattern {
    Pattern::Mask {
        mask: slot_mask(tone, TONE_MASK) | slot_mask(slots.initial, INITIAL_MASK) | slot_mask(
            slots.final_,
            FINAL_MASK,
        ),
        expect: slot_code(tone) | slot_code(slots.initial) | slot_code(slots.final_),
    }
}

/// A 声母 that is written with one letter.
pub open spec fn is_initial_letter(c: char) -> bool {
    ||| c == 'b' || c == 'p' || c == 'm' || c == 'f'
    ||| c == 'd' || c == 't' || c == 'n' || c == 'l'
    ||| c == 'g' || c == 'k' || c == 'h'
    ||| c == 'j' || c == 'q' || c == 'x'
    ||| c == 'r' || c == 'z' || c == 'c' || c == 's'
    ||| c == 'y' || c == 'w'
}

/// How many letters of a text write a 声母 at its start: two for `zh`, `ch` and
/// `sh`, which beat `z`, `c` and `s`. The zero initial is not written.
pub open spec fn initial_length(s: Seq<char>) -> nat {
    if s.len() >= 2 && (s[0] == 'z' || s[0] == 'c' || s[0] == 's') && s[1] == 'h' {
        2
    } else if s.len() >= 1 && is_initial_letter(s[0]) {
        1
    } else {
        0
    }
}

/// The written 声母 that a text starts with, and the text after it.
pub open spec fn leading_initial(m: TableModel, s: Seq<char>) -> Option<(u16, Seq<char>)> {
    let n = initial_length(s);
    if n == 0 {
        None
    } else {
        match code_named(m.initials, s.take(n as int)) {
            Some(code) => Some((code, s.skip(n as int))),
            None => None,
        }
    }
}

/// A 声母 as it is written, with nothing after it.
pub open spec fn is_written_initial(name: Seq<char>) -> bool {
    name.len() > 0 && initial_length(name) == name.len()
}

/// A name has a 声母 code, and not that of the zero initial.
pub open spec fn names_initial(m: TableModel, name: Seq<char>) -> bool {
    code_named(m.initials, name) matches Some(code) && code != Initial::NUL
}

/// Every written 声母 has a code, and none has that of the zero initial.
pub open spec fn initials_complete(m: TableModel) -> bool {
    forall|name: Seq<char>| #[trigger] is_written_initial(name) ==> names_initial(m, name)
}

/// No two written 声母 have the same code.
pub open spec fn initials_distinct(m: TableModel) -> bool {
    forall|a: Seq<char>, b: Seq<char>| #[trigger]
        is_written_initial(a) && #[trigger] is_written_initial(b) && code_named(m.initials, a)
            == code_named(m.initials, b) ==> a == b
}

/// With all written 声母 in the tables, one is found at the start of every text that
/// starts with one, the text goes on after it, and the zero initial is never found.
pub proof fn law_written_initial_found(m: TableModel, s: Seq<char>)
    requires
        initials_complete(m),
    ensures
        leading_initial(m, s) is Some <==> initial_length(s) > 0,
        leading_initial(m, s) matches Some((code, rest)) ==> {
            let name = s.take(initial_length(s) as int);
            &&& is_written_initial(name)
            &&& code_named(m.initials, name) == Some(code)
            &&& code != Initial::NUL
            &&& s == name + rest
        },
{
    let n = initial_length(s) as int;
    if n > 0 {
        let name = s.take(n);
        assert(name[0] == s[0]);
        if n == 2 {
            assert(name[1] == s[1]);
        }
        assert(is_written_initial(name));
        assert(s =~= name + s.skip(n));
    }
}

/// The phonemic name of a written 韵母.
pub open spec fn phonemic(s: Seq<char>) -> Seq<char> {
    if s == "iu"@ {
        "iou"@
    } else if s == "ui"@ {
        "uei"@
    } else if s == "in"@ {
        "ien"@
    } else if s == "un"@ {
        "uen"@
    } else if s == "ing"@ {
        "ieng"@
    } else if s == "ie"@ {
        "ieh"@
    } else if s == "ê"@ {
        "eh"@
    } else if s == "ü"@ {
        "v"@
    } else if s == "üe"@ {
        "veh"@
    } else if s == "üan"@ {
        "van"@
    } else if s == "ün"@ {
        "ven"@
    } else {
        s
    }
}

/// The 韵母 that a text names.
pub open spec fn final_spelled(m: TableModel, s: Seq<char>) -> Option<u16> {
    code_named(m.finals, phonemic(s))
}

/// A written 韵母 names the one that is listed under its own letters, but for eleven that
/// are written otherwise than they sound.
pub proof fn law_final_names(m: TableModel, s: Seq<char>)
    ensures
        final_spelled(m, "iu"@) == code_named(m.finals, "iou"@),
        final_spelled(m, "ui"@) == code_named(m.finals, "uei"@),
        final_spelled(m, "in"@) == code_named(m.finals, "ien"@),
        final_spelled(m, "un"@) == code_named(m.finals, "uen"@),
        final_spelled(m, "ing"@) == code_named(m.finals, "ieng"@),
        final_spelled(m, "ie"@) == code_named(m.finals, "ieh"@),
        final_spelled(m, "ê"@) == code_named(m.finals, "eh"@),
        final_spelled(m, "ü"@) == code_named(m.finals, "v"@),
        final_spelled(m, "üe"@) == code_named(m.finals, "veh"@),
        final_spelled(m, "üan"@) == code_named(m.finals, "van"@),
        final_spelled(m, "ün"@) == code_named(m.finals, "ven"@),
        s != "iu"@ && s != "ui"@ && s != "in"@ && s != "un"@ && s != "ing"@ && s != "ie"@ && s != "ê"@ && s != "ü"@ && s != "üe"@ && s != "üan"@ && s != "ün"@ ==> final_spelled(m, s) == code_named(
            m.finals,
            s,
        ),
{
    reveal_strlit("iu");
    reveal_strlit("ui");
    reveal_strlit("in");
    reveal_strlit("un");
    reveal_strlit("ing");
    reveal_strlit("ie");
    reveal_strlit("ê");
    reveal_strlit("ü");
    reveal_strlit("üe");
    reveal_strlit("üan");
    reveal_strlit("ün");
    assert("iu"@.len() == 2 && "iu"@[0] == 'i' && "iu"@[1] == 'u');
    assert("ui"@.len() == 2 && "ui"@[0] == 'u' && "ui"@[1] == 'i');
    assert("in"@.len() == 2 && "in"@[0] == 'i' && "in"@[1] == 'n');
    assert("un"@.len() == 2 && "un"@[0] == 'u' && "un"@[1] == 'n');
    assert("ing"@.len() == 3 && "ing"@[0] == 'i' && "ing"@[1] == 'n' && "ing"@[2] == 'g');
    assert("ie"@.len() == 2 && "ie"@[0] == 'i' && "ie"@[1] == 'e');
    assert("ê"@.len() == 1 && "ê"@[0] == 'ê');
    assert("ü"@.len() == 1 && "ü"@[0] == 'ü');
    assert("üe"@.len() == 2 && "üe"@[0] == 'ü' && "üe"@[1] == 'e');
    assert("üan"@.len() == 3 && "üan"@[0] == 'ü' && "üan"@[1] == 'a' && "üan"@[2] == 'n');
    assert("ün"@.len() == 2 && "ün"@[0] == 'ü' && "ün"@[1] == 'n');
}

/// The written 声母 are these, and no others.
pub proof fn law_written_initials(s: Seq<char>)
    ensures
        is_written_initial(s) <==> {
            ||| s.len() == 1 && {
                ||| s[0] == 'b' || s[0] == 'p' || s[0] == 'm' || s[0] == 'f'
                ||| s[0] == 'd' || s[0] == 't' || s[0] == 'n' || s[0] == 'l'
                ||| s[0] == 'g' || s[0] == 'k' || s[0] == 'h'
                ||| s[0] == 'j' || s[0] == 'q' || s[0] == 'x'
                ||| s[0] == 'r' || s[0] == 'z' || s[0] == 'c' || s[0] == 's'
                ||| s[0] == 'y' || s[0] == 'w'
            }
            ||| s.len() == 2 && s[1] == 'h' && (s[0] == 'z' || s[0] == 'c' || s[0] == 's')
        },
{
}

/// The longest written 声母 that a text starts with is the one that is taken.
pub proof fn law_longest_initial(name: Seq<char>, rest: Seq<char>)
    requires
        is_written_initial(name),
    ensures
        initial_length(name + rest) >= name.len(),
        is_written_initial((name + rest).take(initial_length(name + rest) as int)),
{
    let s = name + rest;
    let n = initial_length(s) as int;
    assert(s[0] == name[0]);
    if name.len() == 2 {
        assert(s[1] == name[1]);
    }
    assert(s.take(n)[0] == s[0]);
    if n == 2 {
        assert(s.take(n)[1] == s[1]);
    }
}

/// A text that starts with a character that starts no written 声母 starts with none.
pub proof fn law_no_initial(s: Seq<char>)
    requires
        s.len() > 0 ==> !is_written_initial(seq![s[0]]),
    ensures
        initial_length(s) == 0,
{
    if s.len() > 0 {
        law_written_initials(seq![s[0]]);
    }
}

/// A pattern without glyphs: a syllable, or failing that a whole 声母 such as `p`,
/// or a whole 韵母 such as `ang`.
pub open spec fn plain_slots(m: TableModel, body: Seq<char>) -> Option<Slots> {
    match m.lookup(body) {
        Some((initial, final_)) => Some(Slots { initial: Some(initial), final_: Some(final_) }),
        None => match leading_initial(m, body) {
            Some((initial, rest)) if rest.len() == 0 => Some(
                Slots { initial: Some(initial), final_: None },
            ),
            _ => match final_spelled(m, body) {
                Some(final_) => Some(Slots { initial: None, final_: Some(final_) }),
                None => None,
            },
        },
    }
}

/// The 声母 part of a pattern with glyphs, and the text after it. `*` covers the
/// 韵母 as well, so nothing may follow it.
pub open spec fn initial_part(m: TableModel, body: Seq<char>) -> Option<(Option<u16>, Seq<char>)> {
    let rest = body.skip(1);
    if body[0] == ZERO_INITIAL {
        Some((Some(Initial::NUL), rest))
    } else if body[0] == SPECIAL_R {
        Some((Some(Initial::R), rest))
    } else if body[0] == WILDCARD_SYLLABLE {
        if rest.len() == 0 {
            Some((None, rest))
        } else {
            None
        }
    } else if body[0] == WILDCARD_ANY {
        Some((None, rest))
    } else {
        match leading_initial(m, body) {
            Some((initial, after)) => Some((Some(initial), after)),
            None => Some((None, body)),
        }
    }
}

/// The text without one leading `?`.
pub open spec fn without_wildcard(s: Seq<char>) -> Seq<char> {
    if s.len() > 0 && s[0] == WILDCARD_ANY {
        s.skip(1)
    } else {
        s
    }
}

/// The 韵母 part of a pattern with glyphs: free where it is a wildcard or not
/// written, and otherwise a written 韵母.
pub open spec fn final_part(m: TableModel, rest: Seq<char>) -> Option<Option<u16>> {
    let name = without_wildcard(rest);
    if name.len() == 0 || name == seq![WILDCARD_SYLLABLE] {
        Some(None)
    } else {
        match final_spelled(m, name) {
            Some(final_) => Some(Some(final_)),
            None => None,
        }
    }
}

/// A pattern with glyphs: first its 声母 part, then its 韵母 part.
pub open spec fn glyph_slots(m: TableModel, body: Seq<char>) -> Option<Slots> {
    match initial_part(m, body) {
        Some((initial, rest)) => match final_part(m, rest) {
            Some(final_) => Some(Slots { initial, final_ }),
            None => None,
        },
        None => None,
    }
}

/// The parts that the body of a pattern asks for, or `None` where it names nothing
/// legal. An empty body, as in a bare tone digit, asks for none.
pub open spec fn slots_of(m: TableModel, body: Seq<char>) -> Option<Slots> {
    if body.len() == 0 {
        Some(Slots { initial: None, final_: None })
    } else if has_glyph(body) {
        glyph_slots(m, body)
    } else {
        plain_slots(m, body)
    }
}

/// The pattern that a body and a tone compile to.
pub open spec fn compiled(m: TableModel, body: Seq<char>, tone: Option<u16>) -> Pattern {
    match slots_of(m, body) {
        Some(slots) => pattern_for(slots, tone_slot(tone)),
        None => Pattern::Never,
    }
}

/// The pattern that a text compiles to, already trimmed and in lower case.
pub open spec fn compiled_lowered(m: TableModel, text: Seq<char>) -> Pattern {
    match split_written(text) {
        Some((body, tone)) => compiled(m, body, tone),
        None => Pattern::Never,
    }
}

/// The pattern that a text compiles to.
pub open spec fn compiled_text(m: TableModel, text: Seq<char>) -> Pattern {
    compiled_lowered(m, normalized(text))
}

// --- compiling ----------------------------------------------------------------

/// Turn a written 韵母 into its phonemic name.
pub(crate) fn phonemic_name(spelling: &[char]) -> (r: Vec<char>)
    ensures
        r@ == phonemic(spelling@),
{
    if same_text(spelling, "iu") {
        chars_of("iou")
    } else if same_text(spelling, "ui") {
        chars_of("uei")
    } else if same_text(spelling, "in") {
        chars_of("ien")
    } else if same_text(spelling, "un") {
        chars_of("uen")
    } else if same_text(spelling, "ing") {
        chars_of("ieng")
    } else if same_text(spelling, "ie") {
        chars_of("ieh")
    } else if same_text(spelling, "ê") {
        chars_of("eh")
    } else if same_text(spelling, "ü") {
        chars_of("v")
    } else if same_text(spelling, "üe") {
        chars_of("veh")
    } else if same_text(spelling, "üan") {
        chars_of("van")
    } else if same_text(spelling, "ün") {
        chars_of("ven")
    } else {
        let mut name: Vec<char> = Vec::new();
        name.extend_from_slice(spelling);
        name
    }
}

/// The 韵母 a written final names, following the same phonemic spelling rules the
/// value parser uses.
pub fn final_from_spelling(tables: &Tables, spelling: &[char]) -> (r: Option<Final>)
    ensures
        match r {
            Some(final_) => final_spelled(tables@, spelling@) == Some(final_@),
            None => final_spelled(tables@, spelling@) is None,
        },
{
    let name: Vec<char> = phonemic_name(spelling);
    tables.final_named(name.as_slice())
}

/// How many letters of a text write a 声母 at its start.
pub(crate) fn written_initial_length(spelling: &[char]) -> (r: usize)
    ensures
        r == initial_length(spelling@),
        r <= spelling.len(),
{
    if spelling.len() == 0 {
        return 0;
    }
    if spelling.len() >= 2 && (spelling[0] == 'z' || spelling[0] == 'c' || spelling[0] == 's')
        && spelling[1] == 'h' {
        return 2;
    }
    match spelling[0] {
        'b' | 'p' | 'm' | 'f' | 'd' | 't' | 'n' | 'l' | 'g' | 'k' | 'h' | 'j' | 'q' | 'x' | 'r'
        | 'z' | 'c' | 's' | 'y' | 'w' => 1,
        _ => 0,
    }
}

/// The written 声母 a pattern starts with, and the remainder after it.
///
/// Longest match wins, so `zh` beats `z`; the zero initial is not written and so is
/// never returned here.
pub fn split_written_initial<'a>(tables: &Tables, spelling: &'a [char]) -> (r: Option<
    (Initial, &'a [char]),
>)
    ensures
        match r {
            Some((initial, rest)) => leading_initial(tables@, spelling@) == Some(
                (initial@, rest@),
            ),
            None => leading_initial(tables@, spelling@) is None,
        },
        r is Some <==> initial_length(spelling@) > 0,
        r matches Some((initial, _)) ==> initial@ != Initial::NUL,
{
    proof {
        use_type_invariant(tables);
        assert(initials_complete(tables@)) by {
            reveal(is_standard);
        }
        law_written_initial_found(tables@, spelling@);
    }
    let n: usize = written_initial_length(spelling);
    if n == 0 {
        return None;
    }
    let name: &[char] = slice_subrange(spelling, 0, n);
    assert(name@ =~= spelling@.take(n as int));
    match tables.initial_named(name) {
        Some(initial) => {
            let rest: &[char] = slice_subrange(spelling, n, spelling.len());
            assert(rest@ =~= spelling@.skip(n as int));
            Some((initial, rest))
        },
        None => None,
    }
}

/// Whether some glyph stands in the text.
fn contains_glyph(body: &[char]) -> (r: bool)
    ensures
        r == has_glyph(body@),
{
    let mut i: usize = 0;
    while i < body.len()
        invariant
            i <= body.len(),
            forall|j: int| 0 <= j < i ==> !is_glyph(#[trigger] body@[j]),
        decreases body.len() - i,
    {
        let c: char = body[i];
        if c == WILDCARD_ANY || c == WILDCARD_SYLLABLE || c == ZERO_INITIAL || c == SPECIAL_R {
            assert(is_glyph(body@[i as int]));
            return true;
        }
        i = i + 1;
    }
    false
}

/// Compile the body of a pattern, given the mask and the code of its tone.
fn compile_body(tables: &Tables, body: &[char], tone_mask: u16, tone_code: u16) -> (r: Pattern)
    ensures
        match slots_of(tables@, body@) {
            Some(slots) => r == (Pattern::Mask {
                mask: tone_mask | slot_mask(slots.initial, INITIAL_MASK) | slot_mask(
                    slots.final_,
                    FINAL_MASK,
                ),
                expect: tone_code | slot_code(slots.initial) | slot_code(slots.final_),
            }),
            None => r == Pattern::Never,
        },
{
    let mut mask: u16 = tone_mask;
    let mut expect: u16 = tone_code;
    assert(forall|x: u16| #[trigger] (x | 0) == x) by (bit_vector);

    // A bare tone digit constrains only the 声调, so it is a complete pattern.
    if body.len() == 0 {
        return Pattern::Mask { mask, expect };
    }
    // A pattern with no glyphs is a plain syllable, or failing that a bare 声母 such
    // as `p`, or a bare 韵母 such as `ang`.
    if !contains_glyph(body) {
        if let Some((initial, final_)) = tables.find(body) {
            mask = mask | INITIAL_MASK | FINAL_MASK;
            expect = expect | initial.bits() | final_.bits();
            return Pattern::Mask { mask, expect };
        }
        // Only a *whole* 声母 counts: a pattern that resolves to an initial and then
        // trails off into something unrecognisable is a typo, not a filter. Without
        // this `zzz` would quietly match every `z` syllable.
        if let Some((initial, rest)) = split_written_initial(tables, body) {
            if rest.len() == 0 {
                mask = mask | INITIAL_MASK;
                expect = expect | initial.bits();
                return Pattern::Mask { mask, expect };
            }
        }
        if let Some(final_) = final_from_spelling(tables, body) {
            mask = mask | FINAL_MASK;
            expect = expect | final_.bits();
            return Pattern::Mask { mask, expect };
        }
        return Pattern::Never;
    }
    // Otherwise walk the glyphs. The 声母 slot is filled first, then the 韵母; a slot
    // nothing claims stays free.
    let tail: &[char] = slice_subrange(body, 1, body.len());
    assert(tail@ =~= body@.skip(1));
    let mut rest: &[char] = body;
    if body[0] == ZERO_INITIAL {
        mask = mask | INITIAL_MASK;
        expect = expect | Initial::NUL;
        rest = tail;
    } else if body[0] == SPECIAL_R {
        mask = mask | INITIAL_MASK;
        expect = expect | Initial::R;
        rest = tail;
    } else if body[0] == WILDCARD_SYLLABLE {
        // `*` covers 声母 and 韵母 in one go.
        if tail.len() > 0 {
            return Pattern::Never;
        }
        rest = tail;
    } else if body[0] == WILDCARD_ANY {
        rest = tail;
    } else if let Some((initial, after)) = split_written_initial(tables, body) {
        mask = mask | INITIAL_MASK;
        expect = expect | initial.bits();
        rest = after;
    }
    assert(initial_part(tables@, body@) matches Some((initial, after)) && after == rest@ && mask
        == tone_mask | slot_mask(initial, INITIAL_MASK) && expect == tone_code | slot_code(initial));

    // Whatever is left addresses the 韵母.
    let name: &[char] = if rest.len() > 0 && rest[0] == WILDCARD_ANY {
        slice_subrange(rest, 1, rest.len())
    } else {
        rest
    };
    assert(name@ =~= without_wildcard(rest@));
    if name.len() == 0 || (name.len() == 1 && name[0] == WILDCARD_SYLLABLE) {
        assert(name@.len() == 0 || name@ =~= seq![WILDCARD_SYLLABLE]);
        return Pattern::Mask { mask, expect };
    }
    match final_from_spelling(tables, name) {
        Some(final_) => Pattern::Mask { mask: mask | FINAL_MASK, expect: expect | final_.bits() },
        None => Pattern::Never,
    }
}

/// Compile a pattern that was split into its body and its tone.
fn compile_parts(tables: &Tables, body: &[char], tone: Option<Tone>) -> (r: Pattern)
    ensures
        r == compiled(
            tables@,
            body@,
            match tone {
                Some(tone) => Some(tone@),
                None => None,
            },
        ),
{
    if let Some(tone) = tone {
        // `0` is the explicit 声调 wildcard; leaving the tone out means the same
        // thing, so neither adds to the mask.
        if tone.bits() != Tone::UNSPEC {
            return compile_body(tables, body, TONE_MASK, tone.bits());
        }
    }
    compile_body(tables, body, 0, 0)
}

/// Compile a pattern that is already trimmed and in lower case.
pub fn compile_lowered(tables: &Tables, text: &str) -> (r: Pattern)
    ensures
        r == compiled_lowered(tables@, text@),
{
    match split_lowered(text) {
        Some((body, tone)) => compile_parts(tables, body.as_slice(), tone),
        None => Pattern::Never,
    }
}

/// Compile a match pattern.
///
/// `zh` constrains the 声母 to the variant, so `z?` does not match `zha`: the
/// variant-select bit is part of the 声母 field, so a pattern cannot ask for `z` and
/// `zh` at once. A 声调 *class* is the same story: 平声 spans two codes, which no
/// single pattern reaches. Both are a masked compare on the value.
pub fn compile_pattern(tables: &Tables, pattern: &str) -> (r: Pattern)
    ensures
        tables@.valid(),
        is_standard(tables@),
        r == compiled_text(tables@, pattern@),
{
    proof {
        use_type_invariant(tables);
    }
    match split_tone(pattern) {
        Ok((body, tone)) => compile_parts(tables, body.as_slice(), tone),
        Err(_) => Pattern::Never,
    }
}

} // verus!
