//! The tables of standard pinyin.
//!
//! Rows that hold together may still hold anything. The tables of standard pinyin also
//! give `ch`, `sh` and `zh` the codes of `c`, `s` and `z` with the variant-select bit,
//! use the codes that queries are written with, split syllables by sound rather than
//! by letter, know every written 声母 by a code of its own, put each syllable on the
//! 声母 that it is written with, and leave the pseudo-initial R unused.
use crate::fields::{
    law_fields_read_back, Initial, Tone, INITIAL_BASE_MASK, INITIAL_MASK, INITIAL_VARIANT,
};
use crate::laws::{
    law_digit_after_pattern, law_final_pattern, law_free_patterns, law_initial_pattern,
    law_initial_with_wildcard, law_special_initials, law_syllable_pattern, law_three_ways_agree,
    law_tone_pattern, law_wildcards_are_toneless, lemma_marked_form_reads, lemma_tone_read,
};
use crate::parse::read_text;
use crate::pattern::{
    compiled_text, final_spelled, initial_length, initials_complete, initials_distinct,
    is_initial_letter, is_written_initial, names_initial, phonemic_name, written_initial_length,
};
use crate::render::{is_lone_letter, law_marked_by_rule, with_tone, written};
use crate::tables::{code_named, is_spelling, lemma_lookup_fits, Rows, TableModel};
use crate::text::{chars_of, normalized, same_chars, same_text};
use crate::tone::{digit_tone, lemma_tone_codes_in_field, split_written};
use vstd::prelude::*;
use vstd::slice::slice_subrange;

verus! {

// --- what the tables hold -----------------------------------------------------

/// One 声母 is the variant of another: the same base with the variant-select bit.
pub open spec fn is_variant_of(m: TableModel, variant: Seq<char>, base: Seq<char>) -> bool {
    code_named(m.initials, base) matches Some(code) && code & INITIAL_BASE_MASK == code
        && code_named(m.initials, variant) == Some(code | INITIAL_VARIANT)
}

/// `ch`, `sh` and `zh` are the variants of `c`, `s` and `z`.
pub open spec fn variants_selected(m: TableModel) -> bool {
    &&& is_variant_of(m, "ch"@, "c"@)
    &&& is_variant_of(m, "sh"@, "s"@)
    &&& is_variant_of(m, "zh"@, "z"@)
}

/// The codes that queries are written with. `p` is a 声母 and no syllable.
pub open spec fn codes_assigned(m: TableModel) -> bool {
    &&& code_named(m.initials, "c"@) == Some(0x0004u16)
    &&& code_named(m.initials, "p"@) == Some(0x000Eu16)
    &&& code_named(m.initials, "z"@) == Some(0x0016u16)
    &&& final_spelled(m, "ang"@) == Some(0x0600u16)
    &&& m.lookup("p"@) is None
    &&& m.lookup("shang"@) == Some((0x8011u16, 0x0600u16))
    &&& m.lookup("zhong"@) == Some((0x8016u16, 0x0E00u16))
}

/// A written syllable is made of a 声母 and a 韵母.
pub open spec fn is_made_of(
    m: TableModel,
    name: Seq<char>,
    initial: Seq<char>,
    final_: Seq<char>,
) -> bool {
    m.lookup(name) matches Some((i, f)) && code_named(m.initials, initial) == Some(i)
        && final_spelled(m, final_) == Some(f)
}

/// A written 声母 is neither the zero initial nor a variant of it.
pub open spec fn is_independent(m: TableModel, name: Seq<char>) -> bool {
    code_named(m.initials, name) matches Some(code) && code & INITIAL_BASE_MASK != Initial::NUL
}

/// The split is phonemic, not orthographic: `ju` is j + v, `liu` is l + iou, `yan` is
/// y + ian, `chi` is ch + ri and `zi` is z + ii, where `ri`, `ii` and `i` are three
/// different 韵母. `y` and `w` are 声母 of their own.
pub open spec fn split_is_phonemic(m: TableModel) -> bool {
    &&& is_made_of(m, "ju"@, "j"@, "ü"@)
    &&& is_made_of(m, "liu"@, "l"@, "iu"@)
    &&& is_made_of(m, "yan"@, "y"@, "ian"@)
    &&& is_made_of(m, "chi"@, "ch"@, "ri"@)
    &&& is_made_of(m, "zi"@, "z"@, "ii"@)
    &&& final_spelled(m, "i"@) is Some
    &&& final_spelled(m, "ri"@) != final_spelled(m, "ii"@)
    &&& final_spelled(m, "ri"@) != final_spelled(m, "i"@)
    &&& final_spelled(m, "ii"@) != final_spelled(m, "i"@)
    &&& is_independent(m, "y"@)
    &&& is_independent(m, "w"@)
}

/// A written syllable is the canonical spelling of its own codes.
pub open spec fn is_canonical(m: TableModel, name: Seq<char>) -> bool {
    m.lookup(name) matches Some((i, f)) && m.spelling(i | f) == Some(name)
}

/// Syllables that are written out as they are spelled.
pub open spec fn spellings_canonical(m: TableModel) -> bool {
    &&& is_canonical(m, "zhong"@)
    &&& is_canonical(m, "guo"@)
    &&& is_canonical(m, "shang"@)
    &&& is_canonical(m, "liu"@)
    &&& is_canonical(m, "ê"@)
}

/// The syllabic nasals, which stand on 声母 that are not written.
pub open spec fn is_syllabic_nasal(name: Seq<char>) -> bool {
    name == "m"@ || name == "n"@ || name == "ng"@ || name == "hm"@ || name == "hng"@
}

/// The 声母 that a syllable is written with, which is nothing for the zero initial.
pub open spec fn written_initial(name: Seq<char>) -> Seq<char> {
    name.take(initial_length(name) as int)
}

/// A code is that of the 声母 that a syllable is written with, or that of the zero
/// initial where none is written.
pub open spec fn starts_as_written(m: TableModel, name: Seq<char>, code: u16) -> bool {
    if initial_length(name) == 0 {
        code == Initial::NUL
    } else {
        code_named(m.initials, written_initial(name)) == Some(code)
    }
}

/// Every syllable stands on the 声母 that it is written with, but for the syllabic
/// nasals.
pub open spec fn initials_as_written(m: TableModel) -> bool {
    forall|i: int|
        0 <= i < m.syllables.len() && !is_syllabic_nasal((#[trigger] m.syllables[i]).0)
            ==> starts_as_written(m, m.syllables[i].0, m.syllables[i].1)
}

/// The tables are those of standard pinyin.
#[verifier::opaque]
pub open spec fn is_standard(m: TableModel) -> bool {
    &&& variants_selected(m)
    &&& codes_assigned(m)
    &&& split_is_phonemic(m)
    &&& spellings_canonical(m)
    &&& initials_complete(m)
    &&& initials_distinct(m)
    &&& initials_as_written(m)
    &&& !m.uses_initial(Initial::R)
}

// --- testing for it -----------------------------------------------------------

/// The code of a 声母 by name.
fn initial_code(rows: &Rows, name: &[char]) -> (r: Option<u16>)
    ensures
        r == code_named(rows@.initials, name@),
{
    match rows.initial_named(name) {
        Some(initial) => Some(initial.bits()),
        None => None,
    }
}

/// The code of a 韵母 by spelling.
fn final_code(rows: &Rows, spelling: &str) -> (r: Option<u16>)
    ensures
        r == final_spelled(rows@, spelling@),
{
    match rows.final_named(phonemic_name(chars_of(spelling).as_slice()).as_slice()) {
        Some(final_) => Some(final_.bits()),
        None => None,
    }
}

/// The codes of a written syllable.
fn syllable_codes(rows: &Rows, name: &str) -> (r: Option<(u16, u16)>)
    requires
        rows@.syllables_ordered(),
    ensures
        r == rows@.lookup(name@),
{
    match rows.lookup(chars_of(name).as_slice()) {
        Some((initial, final_)) => Some((initial.bits(), final_.bits())),
        None => None,
    }
}

/// Whether one 声母 is the variant of another.
fn check_variant(rows: &Rows, variant: &str, base: &str) -> (r: bool)
    ensures
        r == is_variant_of(rows@, variant@, base@),
{
    match (
        initial_code(rows, chars_of(base).as_slice()),
        initial_code(rows, chars_of(variant).as_slice()),
    ) {
        (Some(code), Some(other)) => code & INITIAL_BASE_MASK == code && other == code
            | INITIAL_VARIANT,
        _ => false,
    }
}

/// Whether a 声母 has a given code.
fn check_initial(rows: &Rows, name: &[char], code: u16) -> (r: bool)
    ensures
        r == (code_named(rows@.initials, name@) == Some(code)),
{
    match initial_code(rows, name) {
        Some(found) => found == code,
        None => false,
    }
}

/// Whether a written syllable has given codes.
fn check_syllable(rows: &Rows, name: &str, initial: u16, final_: u16) -> (r: bool)
    requires
        rows@.syllables_ordered(),
    ensures
        r == (rows@.lookup(name@) == Some((initial, final_))),
{
    match syllable_codes(rows, name) {
        Some((i, f)) => i == initial && f == final_,
        None => false,
    }
}

/// Whether the codes are those that queries are written with.
fn check_codes(rows: &Rows) -> (r: bool)
    requires
        rows@.syllables_ordered(),
    ensures
        r == codes_assigned(rows@),
{
    let ang: bool = match final_code(rows, "ang") {
        Some(code) => code == 0x0600,
        None => false,
    };
    ang && check_initial(rows, chars_of("c").as_slice(), 0x0004) && check_initial(
        rows,
        chars_of("p").as_slice(),
        0x000E,
    ) && check_initial(rows, chars_of("z").as_slice(), 0x0016) && syllable_codes(
        rows,
        "p",
    ).is_none() && check_syllable(rows, "shang", 0x8011, 0x0600) && check_syllable(
        rows,
        "zhong",
        0x8016,
        0x0E00,
    )
}

/// Whether a written syllable is made of a 声母 and a 韵母.
fn check_made_of(rows: &Rows, name: &str, initial: &str, final_: &str) -> (r: bool)
    requires
        rows@.syllables_ordered(),
    ensures
        r == is_made_of(rows@, name@, initial@, final_@),
{
    match (
        syllable_codes(rows, name),
        initial_code(rows, chars_of(initial).as_slice()),
        final_code(rows, final_),
    ) {
        (Some((i, f)), Some(initial_found), Some(final_found)) => i == initial_found && f
            == final_found,
        _ => false,
    }
}

/// Whether a 声母 is neither the zero initial nor a variant of it.
fn check_independent(rows: &Rows, name: &str) -> (r: bool)
    ensures
        r == is_independent(rows@, name@),
{
    match initial_code(rows, chars_of(name).as_slice()) {
        Some(code) => code & INITIAL_BASE_MASK != Initial::NUL,
        None => false,
    }
}

/// Whether the split is phonemic.
fn check_split(rows: &Rows) -> (r: bool)
    requires
        rows@.syllables_ordered(),
    ensures
        r == split_is_phonemic(rows@),
{
    let distinct: bool = match (
        final_code(rows, "ri"),
        final_code(rows, "ii"),
        final_code(rows, "i"),
    ) {
        (Some(ri), Some(ii), Some(i)) => ri != ii && ri != i && ii != i,
        _ => false,
    };
    distinct && check_made_of(rows, "ju", "j", "ü") && check_made_of(rows, "liu", "l", "iu")
        && check_made_of(rows, "yan", "y", "ian") && check_made_of(rows, "chi", "ch", "ri")
        && check_made_of(rows, "zi", "z", "ii") && check_independent(rows, "y")
        && check_independent(rows, "w")
}

/// Whether a written syllable is the canonical spelling of its own codes.
fn check_canonical(rows: &Rows, name: &str) -> (r: bool)
    requires
        rows@.syllables_ordered(),
        rows@.spellings_ordered(),
    ensures
        r == is_canonical(rows@, name@),
{
    match syllable_codes(rows, name) {
        Some((i, f)) => match rows.spelling(i | f) {
            Some(spelling) => same_text(chars_of(spelling).as_slice(), name),
            None => false,
        },
        None => false,
    }
}

/// The letters that write a 声母 are those of a list.
proof fn lemma_initial_letters(s: Seq<char>, c: char)
    requires
        s == "bpmfdtnlgkhjqxrzcsyw"@,
    ensures
        is_initial_letter(c) <==> s.contains(c),
{
    reveal_strlit("bpmfdtnlgkhjqxrzcsyw");
    assert({
        &&& s[0] == 'b' && s[1] == 'p' && s[2] == 'm' && s[3] == 'f'
        &&& s[4] == 'd' && s[5] == 't' && s[6] == 'n' && s[7] == 'l'
        &&& s[8] == 'g' && s[9] == 'k' && s[10] == 'h' && s[11] == 'j'
        &&& s[12] == 'q' && s[13] == 'x' && s[14] == 'r' && s[15] == 'z'
        &&& s[16] == 'c' && s[17] == 's' && s[18] == 'y' && s[19] == 'w'
    });
}

/// Place `i` of a list of names holds `name`.
spec fn is_listed_at(names: Seq<Vec<char>>, i: int, name: Seq<char>) -> bool {
    0 <= i < names.len() && names[i]@ == name
}

/// The written 声母, those of two letters last.
fn written_initials() -> (r: Vec<Vec<char>>)
    ensures
        forall|i: int| 0 <= i < r.len() ==> is_written_initial((#[trigger] r@[i])@),
        forall|name: Seq<char>| #[trigger]
            is_written_initial(name) ==> exists|i: int| is_listed_at(r@, i, name),
{
    let letters: Vec<char> = chars_of("bpmfdtnlgkhjqxrzcsyw");
    let mut r: Vec<Vec<char>> = Vec::new();
    let mut i: usize = 0;
    while i < letters.len()
        invariant
            i <= letters.len(),
            letters@ == "bpmfdtnlgkhjqxrzcsyw"@,
            r.len() == i,
            forall|j: int| 0 <= j < i ==> (#[trigger] r@[j])@ == seq![letters@[j]],
        decreases letters.len() - i,
    {
        let name: Vec<char> = vec![letters[i]];
        assert(name@ =~= seq![letters@[i as int]]);
        r.push(name);
        i = i + 1;
    }
    let ghost n = letters.len() as int;
    let ghost one_letter = r@;
    r.push(vec!['z', 'h']);
    r.push(vec!['c', 'h']);
    r.push(vec!['s', 'h']);
    proof {
        assert(r@[n]@ =~= seq!['z', 'h']);
        assert(r@[n + 1]@ =~= seq!['c', 'h']);
        assert(r@[n + 2]@ =~= seq!['s', 'h']);
        assert forall|j: int| 0 <= j < r.len() implies is_written_initial((#[trigger] r@[j])@) by {
            if j < n {
                assert(r@[j] == one_letter[j]);
                assert(letters@.contains(letters@[j]));
                lemma_initial_letters(letters@, letters@[j]);
            }
        }
        assert forall|name: Seq<char>| #[trigger] is_written_initial(name) implies exists|i: int|
            is_listed_at(r@, i, name) by {
            if name.len() == 1 {
                lemma_initial_letters(letters@, name[0]);
                let j = choose|j: int| 0 <= j < letters@.len() && letters@[j] == name[0];
                assert(r@[j] == one_letter[j]);
                assert(name =~= seq![letters@[j]]);
                assert(is_listed_at(r@, j, name));
            } else if name[0] == 'z' {
                assert(name =~= seq!['z', 'h']);
                assert(is_listed_at(r@, n, name));
            } else if name[0] == 'c' {
                assert(name =~= seq!['c', 'h']);
                assert(is_listed_at(r@, n + 1, name));
            } else {
                assert(name =~= seq!['s', 'h']);
                assert(is_listed_at(r@, n + 2, name));
            }
        }
    }
    r
}

/// Whether every written 声母 has a code that is not that of the zero initial.
fn check_complete(rows: &Rows) -> (r: bool)
    ensures
        r == initials_complete(rows@),
{
    let names: Vec<Vec<char>> = written_initials();
    let mut i: usize = 0;
    while i < names.len()
        invariant
            i <= names.len(),
            forall|j: int| 0 <= j < names.len() ==> is_written_initial((#[trigger] names@[j])@),
            forall|j: int| 0 <= j < i ==> names_initial(rows@, (#[trigger] names@[j])@),
        decreases names.len() - i,
    {
        let named: bool = match initial_code(rows, names[i].as_slice()) {
            Some(code) => code != Initial::NUL,
            None => false,
        };
        if !named {
            assert(is_written_initial(names@[i as int]@));
            assert(!names_initial(rows@, names@[i as int]@));
            return false;
        }
        i = i + 1;
    }
    assert forall|name: Seq<char>| #[trigger] is_written_initial(name) implies names_initial(
        rows@,
        name,
    ) by {
        let j = choose|j: int| is_listed_at(names@, j, name);
        assert(names@[j]@ == name);
    }
    true
}

/// Whether no two written 声母 have the same code.
fn check_distinct(rows: &Rows) -> (r: bool)
    ensures
        r == initials_distinct(rows@),
{
    let names: Vec<Vec<char>> = written_initials();
    let mut i: usize = 0;
    while i < names.len()
        invariant
            i <= names.len(),
            forall|k: int| 0 <= k < names.len() ==> is_written_initial((#[trigger] names@[k])@),
            forall|k: int, l: int|
                0 <= k < i && 0 <= l < names.len() && code_named(
                    rows@.initials,
                    (#[trigger] names@[k])@,
                ) == code_named(rows@.initials, (#[trigger] names@[l])@) ==> names@[k]@
                    == names@[l]@,
        decreases names.len() - i,
    {
        let code: Option<u16> = initial_code(rows, names[i].as_slice());
        let mut j: usize = 0;
        while j < names.len()
            invariant
                i < names.len(),
                j <= names.len(),
                code == code_named(rows@.initials, names@[i as int]@),
                forall|k: int| 0 <= k < names.len() ==> is_written_initial((#[trigger] names@[k])@),
                forall|l: int|
                    0 <= l < j && code == code_named(rows@.initials, (#[trigger] names@[l])@)
                        ==> names@[i as int]@ == names@[l]@,
            decreases names.len() - j,
        {
            let other: Option<u16> = initial_code(rows, names[j].as_slice());
            if code == other && !same_chars(names[i].as_slice(), names[j].as_slice()) {
                assert(is_written_initial(names@[i as int]@));
                assert(is_written_initial(names@[j as int]@));
                return false;
            }
            j = j + 1;
        }
        i = i + 1;
    }
    assert forall|a: Seq<char>, b: Seq<char>| #[trigger]
        is_written_initial(a) && #[trigger] is_written_initial(b) && code_named(rows@.initials, a)
            == code_named(rows@.initials, b) implies a == b by {
        let k = choose|k: int| is_listed_at(names@, k, a);
        let l = choose|l: int| is_listed_at(names@, l, b);
        assert(names@[k]@ == a);
        assert(names@[l]@ == b);
    }
    true
}

/// Whether a name is that of a syllabic nasal.
fn check_nasal(name: &[char]) -> (r: bool)
    ensures
        r == is_syllabic_nasal(name@),
{
    same_text(name, "m") || same_text(name, "n") || same_text(name, "ng") || same_text(name, "hm")
        || same_text(name, "hng")
}

/// Whether a code is that of the 声母 that a syllable is written with.
fn check_start(rows: &Rows, name: &[char], code: u16) -> (r: bool)
    ensures
        r == starts_as_written(rows@, name@, code),
{
    let n: usize = written_initial_length(name);
    if n == 0 {
        code == Initial::NUL
    } else {
        let initial: &[char] = slice_subrange(name, 0, n);
        assert(initial@ =~= written_initial(name@));
        check_initial(rows, initial, code)
    }
}

/// Whether every syllable but the nasals stands on the 声母 that it is written with.
fn check_as_written(rows: &Rows) -> (r: bool)
    ensures
        r == initials_as_written(rows@),
{
    let mut i: usize = 0;
    while i < rows.len()
        invariant
            i <= rows@.syllables.len(),
            forall|j: int|
                0 <= j < i && !is_syllabic_nasal((#[trigger] rows@.syllables[j]).0)
                    ==> starts_as_written(rows@, rows@.syllables[j].0, rows@.syllables[j].1),
        decreases rows@.syllables.len() - i,
    {
        let (name, initial): (&[char], Initial) = rows.syllable(i);
        if !check_nasal(name) && !check_start(rows, name, initial.bits()) {
            assert(!is_syllabic_nasal(rows@.syllables[i as int].0));
            return false;
        }
        i = i + 1;
    }
    true
}

/// Whether some syllable stands on a 声母.
fn check_used(rows: &Rows, code: u16) -> (r: bool)
    ensures
        r == rows@.uses_initial(code),
{
    let mut i: usize = 0;
    while i < rows.len()
        invariant
            i <= rows@.syllables.len(),
            forall|j: int| 0 <= j < i ==> (#[trigger] rows@.syllables[j]).1 != code,
        decreases rows@.syllables.len() - i,
    {
        let (_, initial): (&[char], Initial) = rows.syllable(i);
        if initial.bits() == code {
            assert(rows@.syllables[i as int].1 == code);
            return true;
        }
        i = i + 1;
    }
    false
}

/// Whether the tables are those of standard pinyin.
pub(crate) fn check_standard(rows: &Rows) -> (r: bool)
    requires
        rows@.syllables_ordered(),
        rows@.spellings_ordered(),
    ensures
        r == is_standard(rows@),
{
    proof {
        reveal(is_standard);
    }
    check_variant(rows, "ch", "c") && check_variant(rows, "sh", "s") && check_variant(
        rows,
        "zh",
        "z",
    ) && check_codes(rows) && check_split(rows) && check_canonical(rows, "zhong")
        && check_canonical(rows, "guo") && check_canonical(rows, "shang") && check_canonical(
        rows,
        "liu",
    ) && check_canonical(rows, "ê") && check_complete(rows) && check_distinct(rows)
        && check_as_written(rows) && !check_used(rows, Initial::R)
}

// --- laws of the standard tables ----------------------------------------------

/// Masking the variant-select bit off collapses a variant 声母 onto its base, so one
/// masked compare covers both and nothing else.
pub proof fn law_variant_or_base(
    m: TableModel,
    variant: Seq<char>,
    base: Seq<char>,
    value: u16,
)
    requires
        is_variant_of(m, variant, base),
    ensures
        ({
            let code = code_named(m.initials, base)->0;
            let other = code_named(m.initials, variant)->0;
            &&& code != other
            &&& code & INITIAL_BASE_MASK == code
            &&& other & INITIAL_BASE_MASK == code
            &&& value & INITIAL_BASE_MASK == code <==> value & INITIAL_MASK == code || value
                & INITIAL_MASK == other
        }),
{
    let code = code_named(m.initials, base)->0;
    assert((code | INITIAL_VARIANT) & INITIAL_BASE_MASK == code && code != code | INITIAL_VARIANT
        && (value & INITIAL_BASE_MASK == code <==> (value & INITIAL_MASK == code || value
        & INITIAL_MASK == code | INITIAL_VARIANT))) by (bit_vector)
        requires
            code & INITIAL_BASE_MASK == code,
    ;
}

/// What one masked compare of the base accepts is what the pattern for a 声母 and the
/// pattern for its variant accept together.
pub proof fn law_base_covers_variant(
    m: TableModel,
    variant: Seq<char>,
    base: Seq<char>,
    value: u16,
)
    requires
        m.valid(),
        is_written_initial(variant),
        is_written_initial(base),
        is_variant_of(m, variant, base),
    ensures
        Some(value & INITIAL_BASE_MASK) == code_named(m.initials, base) <==> compiled_text(
            m,
            base.push('?'),
        ).accepts(value) || compiled_text(m, variant.push('?')).accepts(value),
{
    law_variant_or_base(m, variant, base, value);
    law_initial_with_wildcard(m, base, '?', value);
    law_initial_with_wildcard(m, variant, '?', value);
}

/// The base 22 covers `z` and `zh`, and the base 4 covers `c` and `ch`.
pub proof fn law_standard_bases(m: TableModel, value: u16)
    requires
        is_standard(m),
    ensures
        value & 31 == 22 <==> Some(value & INITIAL_MASK) == code_named(m.initials, "z"@) || Some(
            value & INITIAL_MASK,
        ) == code_named(m.initials, "zh"@),
        value & 31 == 4 <==> Some(value & INITIAL_MASK) == code_named(m.initials, "c"@) || Some(
            value & INITIAL_MASK,
        ) == code_named(m.initials, "ch"@),
{
    assert(codes_assigned(m) && variants_selected(m)) by {
        reveal(is_standard);
    }
    law_variant_or_base(m, "zh"@, "z"@, value);
    law_variant_or_base(m, "ch"@, "c"@, value);
}

/// The names of a few 声母, letter by letter.
proof fn lemma_short_names()
    ensures
        "c"@ == seq!['c'],
        "p"@ == seq!['p'],
        "z"@ == seq!['z'],
        "ch"@ == seq!['c', 'h'],
        "zh"@ == seq!['z', 'h'],
        is_written_initial("c"@),
        is_written_initial("p"@),
        is_written_initial("z"@),
        is_written_initial("ch"@),
        is_written_initial("zh"@),
{
    reveal_strlit("c");
    reveal_strlit("p");
    reveal_strlit("z");
    reveal_strlit("ch");
    reveal_strlit("zh");
    assert("c"@ =~= seq!['c']);
    assert("p"@ =~= seq!['p']);
    assert("z"@ =~= seq!['z']);
    assert("ch"@ =~= seq!['c', 'h']);
    assert("zh"@ =~= seq!['z', 'h']);
}

/// The masked compare that stands for a 声母 by itself.
pub proof fn law_standard_initial(m: TableModel, value: u16)
    requires
        m.valid(),
        is_standard(m),
    ensures
        compiled_text(m, "p"@).accepts(value) <==> value & 0x801F == 0x000E,
        compiled_text(m, "p?"@).accepts(value) <==> value & 0x801F == 0x000E,
{
    assert(codes_assigned(m)) by {
        reveal(is_standard);
    }
    lemma_short_names();
    reveal_strlit("p?");
    assert("p?"@ =~= "p"@.push('?'));
    law_initial_pattern(m, "p"@, value);
}

/// The masked compare that stands for a 韵母 by itself.
pub proof fn law_standard_final(m: TableModel, value: u16)
    requires
        m.valid(),
        is_standard(m),
    ensures
        compiled_text(m, "?ang"@).accepts(value) <==> value & 0x7F00 == 0x0600,
{
    assert(codes_assigned(m)) by {
        reveal(is_standard);
    }
    reveal_strlit("?ang");
    reveal_strlit("ang");
    assert("?ang"@ =~= seq!['?'] + "ang"@);
    law_final_pattern(m, "ang"@, value);
}

/// The masked compares that stand for a whole syllable, in any tone and in one.
pub proof fn law_standard_syllable(m: TableModel, value: u16)
    requires
        m.valid(),
        is_standard(m),
    ensures
        compiled_text(m, "zhong"@).accepts(value) <==> value & 0xFF1F == 0x8E16,
        compiled_text(m, "zhong1"@).accepts(value) <==> value == 0x8E96,
{
    assert(codes_assigned(m)) by {
        reveal(is_standard);
    }
    reveal_strlit("zhong");
    reveal_strlit("zhong1");
    assert("zhong1"@ =~= "zhong"@.push('1'));
    law_syllable_pattern(m, "zhong"@, '1', value);
    assert(0x8016u16 | 0x0E00u16 == 0x8E16 && 0x8016u16 | 0x0E00u16 | 0x0080u16 == 0x8E96)
        by (bit_vector);
}

/// The masked compares of the patterns that name no syllable. They rest on no code of
/// the tables.
pub proof fn law_glyph_patterns(m: TableModel, value: u16)
    requires
        m.valid(),
    ensures
        compiled_text(m, "1"@).accepts(value) <==> value & 0x00E0 == 0x0080,
        compiled_text(m, "?1"@).accepts(value) <==> value & 0x00E0 == 0x0080,
        compiled_text(m, "??0"@).accepts(value),
        compiled_text(m, "/"@).accepts(value) <==> value & 0x801F == 0x0002,
        compiled_text(m, "&"@).accepts(value) <==> value & 0x801F == 0x8010,
{
    reveal_strlit("1");
    reveal_strlit("?1");
    reveal_strlit("??0");
    reveal_strlit("/");
    reveal_strlit("&");
    assert("1"@ =~= seq!['1']);
    assert("?1"@ =~= seq!['?'].push('1'));
    assert("??0"@ =~= seq!['?', '?'].push('0'));
    assert("/"@ =~= seq!['/']);
    assert("&"@ =~= seq!['&']);
    law_tone_pattern(m, '1', value);
    law_free_patterns(m, value);
    law_wildcards_are_toneless();
    law_digit_after_pattern(m, seq!['?'], '1', value);
    law_digit_after_pattern(m, seq!['?', '?'], '0', value);
    law_special_initials(m, value);
}

/// The values that written syllables stand for.
pub proof fn law_standard_values(m: TableModel)
    requires
        m.valid(),
        is_standard(m),
    ensures
        read_text(m, "zhong"@) == Some(0x8E16u16),
        read_text(m, "zhong1"@) == Some(0x8E96u16),
        read_text(m, "zhōng"@) == Some(0x8E96u16),
        read_text(m, "shǎng"@) == Some(34513u16),
{
    assert(codes_assigned(m)) by {
        reveal(is_standard);
    }
    reveal_strlit("zhong");
    reveal_strlit("zhong1");
    reveal_strlit("zhōng");
    reveal_strlit("shang");
    reveal_strlit("shǎng");
    assert("zhong1"@ =~= "zhong"@.push('1'));
    assert("zhōng"@ =~= "zhong"@.update(2, 'ō'));
    assert("shǎng"@ =~= "shang"@.update(2, 'ǎ'));
    lemma_lookup_fits(m, "zhong"@);
    lemma_lookup_fits(m, "shang"@);
    law_three_ways_agree(m, "zhong"@, Tone::T1, '1');
    lemma_marked_form_reads("zhong"@, 2, 'ō', Tone::T1);
    lemma_marked_form_reads("shang"@, 2, 'ǎ', Tone::T3);
    assert(0x8016u16 | 0x0E00u16 | 0u16 == 0x8E16 && 0x8016u16 | 0x0E00u16 | 0x0080u16 == 0x8E96
        && 0x8011u16 | 0x0600u16 | 0x00C0u16 == 34513) by (bit_vector);
}

/// The 韵母 is phonemic: `ju` has that of `ü`, `liu` that of `iu` and `yan` that of
/// `ian`, while `chi`, `zi` and `i` have three different ones; and `yan` does not start
/// with the zero initial, nor with a variant of it.
pub proof fn law_split_is_phonemic(m: TableModel)
    requires
        is_standard(m),
    ensures
        m.lookup("ju"@) matches Some((_, f)) && final_spelled(m, "ü"@) == Some(f),
        m.lookup("liu"@) matches Some((_, f)) && final_spelled(m, "iu"@) == Some(f),
        m.lookup("yan"@) matches Some((i, f)) && final_spelled(m, "ian"@) == Some(f) && i
            & INITIAL_BASE_MASK != Initial::NUL && i != Initial::NUL,
        m.lookup("chi"@) matches Some((_, ri)) && m.lookup("zi"@) matches Some((_, ii))
            && final_spelled(m, "i"@) matches Some(i) && ri != ii && ri != i && ii != i,
{
    assert(split_is_phonemic(m)) by {
        reveal(is_standard);
    }
    assert(0x0002u16 & INITIAL_BASE_MASK == 0x0002) by (bit_vector);
}

/// No value that is read carries the pseudo-initial R, so `&` matches none of them.
pub proof fn law_special_r_unused(m: TableModel, text: Seq<char>)
    requires
        m.valid(),
        is_standard(m),
        read_text(m, text) is Some,
    ensures
        read_text(m, text)->0 & INITIAL_MASK != Initial::R,
        !compiled_text(m, "&"@).accepts(read_text(m, text)->0),
{
    assert(!m.uses_initial(Initial::R)) by {
        reveal(is_standard);
    }
    let value = read_text(m, text)->0;
    let (name, tone) = split_written(normalized(text))->0;
    let code = match tone {
        Some(code) => code,
        None => Tone::MISSING,
    };
    lemma_tone_read(normalized(text));
    lemma_tone_codes_in_field();
    lemma_lookup_fits(m, name);
    let (initial, final_) = m.lookup(name)->0;
    let i = choose|i: int| m.is_syllable_row(i, name);
    assert(m.is_syllable_row(i, name));
    assert(m.syllables[i].1 == initial);
    law_fields_read_back(initial, final_, code);
    reveal_strlit("&");
    assert("&"@ =~= seq!['&']);
    law_special_initials(m, value);
}

/// The spelling that a text is read as, without its tone.
pub open spec fn spelling_read(text: Seq<char>) -> Seq<char> {
    (split_written(normalized(text))->0).0
}

/// A value that is read stands on the 声母 that its spelling is written with, or on the
/// zero initial where none is written. The syllabic nasals are left out.
pub proof fn law_initial_as_written(m: TableModel, text: Seq<char>)
    requires
        m.valid(),
        is_standard(m),
        read_text(m, text) is Some,
        !is_syllabic_nasal(spelling_read(text)),
    ensures
        is_spelling(spelling_read(text)),
        starts_as_written(m, spelling_read(text), read_text(m, text)->0 & INITIAL_MASK),
{
    let (name, tone) = split_written(normalized(text))->0;
    let code = match tone {
        Some(code) => code,
        None => Tone::MISSING,
    };
    assert(initials_as_written(m)) by {
        reveal(is_standard);
    }
    lemma_tone_read(normalized(text));
    lemma_tone_codes_in_field();
    lemma_lookup_fits(m, name);
    let (initial, final_) = m.lookup(name)->0;
    law_fields_read_back(initial, final_, code);
    let i = choose|i: int| m.is_syllable_row(i, name);
    assert(m.is_syllable_row(i, name));
    assert(m.syllables[i].0 == name);
}

/// A 声母 as a pattern, with `?` or `*` after it, accepts a value that is read exactly
/// when the spelling is written with that 声母, so that `z?` is not matched by `zha`;
/// and `/` accepts it exactly when the spelling is written without one. The syllabic
/// nasals are left out.
pub proof fn law_initial_selects(m: TableModel, text: Seq<char>, initial: Seq<char>, glyph: char)
    requires
        m.valid(),
        is_standard(m),
        read_text(m, text) is Some,
        !is_syllabic_nasal(spelling_read(text)),
        is_written_initial(initial),
        glyph == '?' || glyph == '*',
    ensures
        compiled_text(m, initial.push(glyph)).accepts(read_text(m, text)->0) <==> written_initial(
            spelling_read(text),
        ) == initial,
        compiled_text(m, seq!['/']).accepts(read_text(m, text)->0) <==> written_initial(
            spelling_read(text),
        ).len() == 0,
{
    let value = read_text(m, text)->0;
    let name = spelling_read(text);
    assert(initials_complete(m) && initials_distinct(m)) by {
        reveal(is_standard);
    }
    law_initial_as_written(m, text);
    law_initial_with_wildcard(m, initial, glyph, value);
    law_special_initials(m, value);
    assert(names_initial(m, initial));
    lemma_written_initial(name);
    if initial_length(name) > 0 {
        assert(is_written_initial(written_initial(name)));
        assert(names_initial(m, written_initial(name)));
    }
}

/// What a syllable is written with is a written 声母, or nothing.
proof fn lemma_written_initial(name: Seq<char>)
    ensures
        written_initial(name).len() == initial_length(name),
        initial_length(name) > 0 ==> is_written_initial(written_initial(name)),
{
    let n = initial_length(name) as int;
    if n > 0 {
        assert(name.take(n)[0] == name[0]);
        if n == 2 {
            assert(name.take(n)[1] == name[1]);
        }
    }
}

/// The base of a value that is read is 22 exactly when the spelling starts with `z`, as
/// those of `z` and `zh` do, and 4 exactly when it starts with `c`. The syllabic nasals
/// are left out.
pub proof fn law_base_is_first_letter(m: TableModel, text: Seq<char>)
    requires
        m.valid(),
        is_standard(m),
        read_text(m, text) is Some,
        !is_syllabic_nasal(spelling_read(text)),
    ensures
        read_text(m, text)->0 & 31 == 22 <==> spelling_read(text)[0] == 'z',
        read_text(m, text)->0 & 31 == 4 <==> spelling_read(text)[0] == 'c',
{
    let value = read_text(m, text)->0;
    let name = spelling_read(text);
    let start = written_initial(name);
    assert(initials_distinct(m) && codes_assigned(m) && variants_selected(m)) by {
        reveal(is_standard);
    }
    law_initial_as_written(m, text);
    law_standard_bases(m, value);
    lemma_written_initial(name);
    lemma_short_names();
    assert(0x0016u16 | 0x8000u16 != 0x0002 && 0x0004u16 | 0x8000u16 != 0x0002) by (bit_vector);
    if initial_length(name) > 0 {
        assert(is_written_initial(start));
        assert(start[0] == name[0]);
        if name[0] == 'z' || name[0] == 'c' {
            assert(start =~= seq![name[0]] || start =~= seq![name[0], 'h']);
        }
    }
}

/// A syllable that is the canonical spelling of its own codes is written out as it is
/// spelled, with its tone.
pub proof fn law_canonical_written(m: TableModel, name: Seq<char>, digit: char)
    requires
        m.valid(),
        is_canonical(m, name),
        digit_tone(digit) is Some,
    ensures
        read_text(m, name) matches Some(value) && written(m, value) == name,
        read_text(m, name.push(digit)) matches Some(value) && written(m, value) == with_tone(
            name,
            digit_tone(digit)->0,
        ),
{
    let tone = digit_tone(digit)->0;
    let (initial, final_) = m.lookup(name)->0;
    lemma_lookup_fits(m, name);
    lemma_tone_codes_in_field();
    law_three_ways_agree(m, name, tone, digit);
    law_fields_read_back(initial, final_, tone);
    law_fields_read_back(initial, final_, Tone::MISSING);
}

/// `zhong1` is written `zhōng`, `zhong` as it is, and the value 34513 `shǎng`.
pub proof fn law_standard_values_written(m: TableModel)
    requires
        m.valid(),
        is_standard(m),
    ensures
        written(m, 0x8E96) == "zhōng"@,
        written(m, 0x8E16) == "zhong"@,
        written(m, 34513) == "shǎng"@,
{
    assert(is_canonical(m, "zhong"@) && is_canonical(m, "shang"@) && codes_assigned(m)) by {
        reveal(is_standard);
    }
    assert(written(m, 0x8E96) == "zhōng"@ && written(m, 0x8E16) == "zhong"@) by {
        reveal_strlit("zhong");
        reveal_strlit("zhong1");
        reveal_strlit("zhōng");
        assert("zhong1"@ =~= "zhong"@.push('1'));
        law_canonical_written(m, "zhong"@, '1');
        law_standard_values(m);
        law_marked_by_rule("zhong"@, 2, Tone::T1, 'ō');
        assert("zhong"@.update(2, 'ō') =~= "zhōng"@);
    }
    assert(written(m, 34513) == "shǎng"@) by {
        reveal_strlit("shang");
        reveal_strlit("shǎng");
        law_canonical_written(m, "shang"@, '3');
        lemma_lookup_fits(m, "shang"@);
        law_three_ways_agree(m, "shang"@, Tone::T3, '3');
        assert(0x8011u16 | 0x0600u16 | 0x00C0u16 == 34513) by (bit_vector);
        law_marked_by_rule("shang"@, 2, Tone::T3, 'ǎ');
        assert("shang"@.update(2, 'ǎ') =~= "shǎng"@);
    }
}

/// `liu2` is written `liú`, with the mark on the last vowel, and `guo2` is written
/// `guó`.
pub proof fn law_standard_marks(m: TableModel)
    requires
        m.valid(),
        is_standard(m),
    ensures
        read_text(m, "liu2"@) matches Some(value) && written(m, value) == "liú"@,
        read_text(m, "guo2"@) matches Some(value) && written(m, value) == "guó"@,
{
    assert(is_canonical(m, "liu"@) && is_canonical(m, "guo"@)) by {
        reveal(is_standard);
    }
    assert(read_text(m, "liu2"@) matches Some(value) && written(m, value) == "liú"@) by {
        reveal_strlit("liu");
        reveal_strlit("liu2");
        reveal_strlit("liú");
        assert("liu2"@ =~= "liu"@.push('2'));
        law_canonical_written(m, "liu"@, '2');
        law_marked_by_rule("liu"@, 2, Tone::T2, 'ú');
        assert("liu"@.update(2, 'ú') =~= "liú"@);
    }
    assert(read_text(m, "guo2"@) matches Some(value) && written(m, value) == "guó"@) by {
        reveal_strlit("guo");
        reveal_strlit("guo2");
        reveal_strlit("guó");
        assert("guo2"@ =~= "guo"@.push('2'));
        law_canonical_written(m, "guo"@, '2');
        law_marked_by_rule("guo"@, 2, Tone::T2, 'ó');
        assert("guo"@.update(2, 'ó') =~= "guó"@);
    }
}

/// `ê` has no marked form in 上声, so `ê3` is written with its digit.
pub proof fn law_standard_digit(m: TableModel)
    requires
        m.valid(),
        is_standard(m),
    ensures
        read_text(m, "ê3"@) matches Some(value) && written(m, value) == "ê3"@,
{
    assert(is_canonical(m, "ê"@)) by {
        reveal(is_standard);
    }
    reveal_strlit("ê");
    reveal_strlit("ê3");
    assert("ê3"@ =~= "ê"@.push('3'));
    law_canonical_written(m, "ê"@, '3');
    assert(is_lone_letter("ê"@));
}

} // verus!
