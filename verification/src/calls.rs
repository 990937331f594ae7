//! What holds between the results of calls.
//!
//! Each law here takes the arguments and the results of one or more calls, and states
//! what the results have to do with each other and with the arguments.
use crate::fields::{
    encode, law_fields_read_back, syllable_of, tone_digit, tone_of, Final, Initial, Tone,
};
use crate::laws::{
    differ_in_case, is_blank, law_digit_after_pattern, law_digit_after_syllable, law_final_pattern,
    law_initial_with_wildcard, law_mark_changes_one_letter, law_mark_says_the_digit,
    law_render_inverts_parse, law_space_and_case, law_syllable_pattern, law_three_ways_agree,
    law_value_matches_its_text, law_written_reads_back,
};
use crate::parse::{parse, parse_lowered, read_text, split_tone, ParseError};
use crate::pattern::{
    compile_pattern, compiled_text, final_from_spelling, initial_length, is_written_initial,
    law_longest_initial, split_written_initial, Pattern,
};
use crate::render::{
    law_mark_placement, law_marked_by_rule, law_unmarked_tones, marked, render, takes_mark,
};
use crate::rows::{
    is_illegal_match, is_unreadable, law_cells, law_texts, mask_is_set, match_list_rows,
    match_rows, parse_rows, render_rows, row_is_valid, texts_of, Column, PatternError,
};
use crate::sequence::{compile_sequence, is_single_word, law_phrase_with_run, match_sequence, Elem};
use crate::tables::{
    code_named, is_spelling, lemma_lookup_fits, lemma_spelling_reads_back, lookup, plain, Tables,
};
use crate::text::trimmed;
use crate::tone::{
    combining_tone, demark, digit_tone, is_toneless, law_accents, law_combining_accents,
    law_tone_digits, lemma_tone_codes_in_field, mark_vowel, unmarked,
};
use vstd::prelude::*;

verus! {

// --- fields -------------------------------------------------------------------

/// What was packed is taken out again: the tone by `tone_of`, and the rest by
/// `syllable_of`, which drops nothing but the tone.
pub proof fn law_pack_and_take_out(
    initial: Initial,
    final_: Final,
    tone: Tone,
    value: u16,
    taken: Tone,
    rest: u16,
)
    requires
        call_ensures(encode, (initial, final_, tone), value),
        call_ensures(tone_of, (value,), taken),
        call_ensures(syllable_of, (value,), rest),
    ensures
        taken@ == tone@,
        value & 0x801F == initial@,
        value & 0x7F00 == final_@,
        rest & 0x00E0 == 0,
        rest | taken@ == value,
{
    assert((value & 0xFF1F) & 0x00E0 == 0 && (value & 0xFF1F) | (value & 0x00E0) == value)
        by (bit_vector);
}

/// A tone is written with the digit that names it, and only the tones 1 to 5 are.
pub proof fn law_digit_of_tone(tone: Tone, digit: Option<u8>)
    requires
        call_ensures(Tone::digit, (tone,), digit),
    ensures
        tone@ == 0x0080 ==> digit == Some(1u8),
        tone@ == 0x00A0 ==> digit == Some(2u8),
        tone@ == 0x00C0 ==> digit == Some(3u8),
        tone@ == 0x00E0 ==> digit == Some(4u8),
        tone@ == 0x0060 ==> digit == Some(5u8),
        tone@ == 0x0000 || tone@ == 0x0020 || tone@ == 0x0040 ==> digit is None,
{
}

// --- marks --------------------------------------------------------------------

/// A mark put on a vowel comes off again as that vowel in that tone, and each accent is
/// its own tone: the form of `a` with macron, acute, caron and grave, and so on.
pub proof fn law_mark_and_demark(
    vowel: char,
    tone: Tone,
    mark: Option<char>,
    taken: Option<(char, Tone)>,
)
    requires
        call_ensures(mark_vowel, (vowel, tone), mark),
        mark matches Some(c) ==> call_ensures(demark, (c,), taken),
    ensures
        mark is Some ==> (taken matches Some((base, back)) && base == vowel && back@ == tone@),
        mark matches Some(c) ==> (c == '\u{0101}' <==> vowel == 'a' && tone@ == 0x0080),
        mark matches Some(c) ==> (c == '\u{00E1}' <==> vowel == 'a' && tone@ == 0x00A0),
        mark matches Some(c) ==> (c == '\u{01CE}' <==> vowel == 'a' && tone@ == 0x00C0),
        mark matches Some(c) ==> (c == '\u{00E0}' <==> vowel == 'a' && tone@ == 0x00E0),
        mark is Some <==> (vowel == 'a' || vowel == 'e' || vowel == 'i' || vowel == 'o' || vowel
            == 'u' || vowel == '\u{00FC}') && (tone@ == 0x0080 || tone@ == 0x00A0 || tone@ == 0x00C0
            || tone@ == 0x00E0),
{
}

/// A combining mark is a tone by its accent: macron, acute, caron and grave, in that
/// order, and no other character is one.
pub proof fn law_combining_call(c: char, tone: Option<Tone>)
    requires
        call_ensures(combining_tone, (c,), tone),
    ensures
        c == '\u{0304}' ==> (tone matches Some(t) && t@ == 0x0080),
        c == '\u{0301}' ==> (tone matches Some(t) && t@ == 0x00A0),
        c == '\u{030C}' ==> (tone matches Some(t) && t@ == 0x00C0),
        c == '\u{0300}' ==> (tone matches Some(t) && t@ == 0x00E0),
        tone is Some ==> c == '\u{0304}' || c == '\u{0301}' || c == '\u{030C}' || c == '\u{0300}',
{
    law_combining_accents(c);
}

/// A marked spelling is the spelling with one letter changed, the one that the rule of
/// pinyin names, and that letter comes off as the letter it was in the tone.
pub proof fn law_marked_call(
    spelling: &str,
    tone: Tone,
    text: Option<String>,
    i: int,
    mark: Option<char>,
)
    requires
        call_ensures(marked, (spelling, tone), text),
        takes_mark(spelling@, i),
        call_ensures(mark_vowel, (spelling@[i], tone), mark),
    ensures
        match mark {
            Some(c) => text matches Some(t) && t@ == spelling@.update(i, c),
            None => text is None,
        },
{
    if let Some(c) = mark {
        law_marked_by_rule(spelling@, i, tone@, c);
    } else {
        law_mark_changes_one_letter(spelling@, tone@);
        if let Some(t) = text {
            law_mark_placement(spelling@, i);
        }
    }
}

// --- tables -------------------------------------------------------------------

/// The canonical spelling of a packed syllable is looked up as the codes of the very
/// syllable, whatever its tone.
pub proof fn law_plain_is_looked_up(
    tables: &Tables,
    value: u16,
    name: &str,
    found: Option<(Initial, Final)>,
)
    requires
        call_ensures(plain, (tables, value), name),
        call_ensures(lookup, (tables, name), found),
        name@.len() > 0,
    ensures
        found matches Some((initial, final_)) && initial@ | final_@ == value & 0xFF1F && initial@
            == value & 0x801F && final_@ == value & 0x7F00,
{
    lemma_spelling_reads_back(tables@, value & 0xFF1F);
    lemma_lookup_fits(tables@, name@);
    let (i, f) = tables@.lookup(name@)->0;
    assert(i == value & 0x801F && f == value & 0x7F00) by (bit_vector)
        requires
            i | f == value & 0xFF1F,
            i & 0x801F == i,
            f & 0x7F00 == f,
    ;
}

// --- reading and writing ------------------------------------------------------

/// A written syllable, the same with a digit behind it, and its value: the value is that
/// of the looked-up codes with the tone of the digit.
pub proof fn law_parse_is_lookup(
    tables: &Tables,
    name: &str,
    found: Option<(Initial, Final)>,
    digit: char,
    toned: &str,
    read: Result<u16, ParseError>,
    read_toned: Result<u16, ParseError>,
)
    requires
        call_ensures(lookup, (tables, name), found),
        found is Some,
        '0' <= digit <= '5',
        toned@ == name@.push(digit),
        call_ensures(parse, (tables, name), read),
        call_ensures(parse, (tables, toned), read_toned),
    ensures
        ({
            let (initial, final_) = found->0;
            let tone: int = if digit == '0' {
                0x0020
            } else if digit == '5' {
                0x0060
            } else {
                0x0060 + 0x0020 * (digit as int - '0' as int)
            };
            &&& read matches Ok(value) && value & 0x801F == initial@ && value & 0x7F00 == final_@
                && value & 0x00E0 == 0
            &&& read_toned matches Ok(value) && value & 0x801F == initial@ && value & 0x7F00
                == final_@ && value & 0x00E0 == tone
        }),
{
    law_tone_digits(digit);
    let tone = digit_tone(digit)->0;
    law_three_ways_agree(tables@, name@, tone, digit);
    lemma_lookup_fits(tables@, name@);
    lemma_tone_codes_in_field();
    let (initial, final_) = tables@.lookup(name@)->0;
    law_fields_read_back(initial, final_, tone);
    law_fields_read_back(initial, final_, 0);
}

/// A text that reads as a syllable without a tone reads with a digit behind it as the
/// same syllable in that tone, and with a digit above 5 not at all.
pub proof fn law_parse_with_digit(
    tables: &Tables,
    text: &str,
    digit: char,
    toned: &str,
    read: Result<u16, ParseError>,
    read_toned: Result<u16, ParseError>,
)
    requires
        trimmed(text@) == text@,
        '0' <= digit <= '9',
        toned@ == text@.push(digit),
        call_ensures(parse, (tables, text), read),
        call_ensures(parse, (tables, toned), read_toned),
        read matches Ok(value) && value & 0x00E0 == 0,
    ensures
        digit <= '5' ==> read_toned is Ok,
        '1' <= digit <= '4' ==> read_toned->Ok_0 == read->Ok_0 | ((0x0060 + 0x0020 * (digit as int
            - '0' as int)) as u16),
        digit == '5' ==> read_toned->Ok_0 == read->Ok_0 | 0x0060u16,
        digit == '0' ==> read_toned->Ok_0 == read->Ok_0 | 0x0020u16,
        digit > '5' ==> (read_toned matches Err(error) && error.input@ == toned@),
{
    law_tone_digits(digit);
    law_digit_after_syllable(tables@, text@, digit);
}

/// A tone mark reads as the digit of its tone, wherever the mark stands: as a combining
/// mark behind some letter, or as the marked form of the letter.
pub proof fn law_parse_with_mark(
    tables: &Tables,
    before: Seq<char>,
    c: char,
    after: Seq<char>,
    digit: char,
    marked_text: &str,
    toned: &str,
    read: Option<u16>,
    read_toned: Option<u16>,
)
    requires
        is_toneless(before + after),
        marked_text@ == before.push(c) + after,
        toned@ == (before + after).push(digit),
        (c == '\u{0304}' && digit == '1') || (c == '\u{0301}' && digit == '2') || (c == '\u{030C}'
            && digit == '3') || (c == '\u{0300}' && digit == '4'),
        call_ensures(parse_lowered, (tables, marked_text), read),
        call_ensures(parse_lowered, (tables, toned), read_toned),
    ensures
        read == read_toned,
{
    law_combining_accents(c);
    law_tone_digits(digit);
    law_mark_says_the_digit(tables@, before, c, after, digit);
}

/// Neither white space around a text nor letter case changes what it reads as.
pub proof fn law_parse_space_and_case(
    tables: &Tables,
    before: Seq<char>,
    a: Seq<char>,
    after: Seq<char>,
    written_text: &str,
    plain_text: &str,
    read: Result<u16, ParseError>,
    read_plain: Result<u16, ParseError>,
)
    requires
        is_blank(before),
        is_blank(after),
        differ_in_case(a, plain_text@),
        written_text@ == before + a + after,
        call_ensures(parse, (tables, written_text), read),
        call_ensures(parse, (tables, plain_text), read_plain),
    ensures
        read is Ok <==> read_plain is Ok,
        read is Ok ==> read->Ok_0 == read_plain->Ok_0,
{
    law_space_and_case(tables@, before, a, after, plain_text@);
}

/// What was read is written so that it reads again as the same value; a tone that was
/// left free is not written.
pub proof fn law_parse_render_parse(
    tables: &Tables,
    input: &str,
    read: Result<u16, ParseError>,
    text: String,
    written_text: &str,
    again: Result<u16, ParseError>,
)
    requires
        call_ensures(parse, (tables, input), read),
        read is Ok,
        call_ensures(render, (tables, read->Ok_0), text),
        written_text@ == text@,
        call_ensures(parse, (tables, written_text), again),
    ensures
        again matches Ok(value) && value == if read->Ok_0 & 0x00E0 == 0x0020 {
            read->Ok_0 & 0xFF1F
        } else {
            read->Ok_0
        },
{
    law_render_inverts_parse(tables@, input@);
}

/// A value is written as its canonical spelling with the mark of its own tone on the
/// letter that takes it.
pub proof fn law_render_marks_plain(
    tables: &Tables,
    value: u16,
    name: &str,
    text: String,
    i: int,
    mark: char,
)
    requires
        call_ensures(plain, (tables, value), name),
        call_ensures(render, (tables, value), text),
        takes_mark(name@, i),
        unmarked(mark) == Some((name@[i], value & 0x00E0)),
    ensures
        text@ == name@.update(i, mark),
{
    law_accents(mark);
    law_marked_by_rule(name@, i, value & 0x00E0, mark);
}

/// A value without a tone that is written, or with a free one, is written as its
/// spelling, and one in 轻声 with the digit 5 behind it.
pub proof fn law_render_without_mark(tables: &Tables, value: u16, name: &str, text: String)
    requires
        call_ensures(plain, (tables, value), name),
        call_ensures(render, (tables, value), text),
    ensures
        value & 0x00E0 == 0 || value & 0x00E0 == 0x0020 || value & 0x00E0 == 0x0040 ==> text@
            == name@,
        value & 0x00E0 == 0x0060 ==> text@ == name@.push('5'),
{
    law_unmarked_tones(name@, value & 0x00E0);
}

/// The messages quote what was given.
pub proof fn law_messages_quote(
    unread: ParseError,
    unread_message: String,
    illegal: PatternError,
    illegal_message: String,
)
    requires
        call_ensures(ParseError::message, (&unread,), unread_message),
        call_ensures(PatternError::message, (&illegal,), illegal_message),
    ensures
        unread_message@ == "Invalid pinyin syllable: '"@ + unread.input@ + "'"@,
        illegal_message@ == "Invalid pinyin pattern: '"@ + illegal.pattern@ + "'"@,
{
}

// --- matching -----------------------------------------------------------------

/// A value matches the text that it was read from.
pub proof fn law_parsed_value_matches(
    tables: &Tables,
    text: &str,
    read: Result<u16, ParseError>,
    pattern: Pattern,
    answer: bool,
)
    requires
        call_ensures(parse, (tables, text), read),
        read is Ok,
        call_ensures(compile_pattern, (tables, text), pattern),
        call_ensures(Pattern::matches, (&pattern, read->Ok_0), answer),
    ensures
        answer,
        pattern != Pattern::Never,
{
    law_value_matches_its_text(tables@, text@);
}

/// A looked-up syllable as a pattern matches exactly the values with its two codes, and
/// with a digit from 1 to 5 behind it only in that tone.
pub proof fn law_syllable_call(
    tables: &Tables,
    name: &str,
    found: Option<(Initial, Final)>,
    digit: char,
    toned: &str,
    pattern: Pattern,
    toned_pattern: Pattern,
    value: u16,
    tone: Tone,
    answer: bool,
    toned_answer: bool,
)
    requires
        call_ensures(lookup, (tables, name), found),
        found is Some,
        '1' <= digit <= '5',
        toned@ == name@.push(digit),
        call_ensures(compile_pattern, (tables, name), pattern),
        call_ensures(compile_pattern, (tables, toned), toned_pattern),
        call_ensures(Pattern::matches, (&pattern, value), answer),
        call_ensures(Pattern::matches, (&toned_pattern, value), toned_answer),
        call_ensures(tone_of, (value,), tone),
    ensures
        answer <==> value & 0xFF1F == (found->0).0@ | (found->0).1@,
        toned_answer <==> answer && tone@ == if digit == '5' {
            0x0060
        } else {
            0x0060 + 0x0020 * (digit as int - '0' as int)
        },
{
    let (initial, final_) = tables@.lookup(name@)->0;
    law_tone_digits(digit);
    let code = digit_tone(digit)->0;
    lemma_lookup_fits(tables@, name@);
    lemma_tone_codes_in_field();
    law_syllable_pattern(tables@, name@, digit, value);
    assert(value == initial | final_ | code <==> (value & 0xFF1F == initial | final_ && value
        & 0x00E0 == code)) by (bit_vector)
        requires
            initial & 0x801F == initial,
            final_ & 0x7F00 == final_,
            code & 0x00E0 == code,
    ;
}

/// A digit behind a pattern that says no tone leaves it legal or not as it was, and asks
/// for that tone besides; `0` asks for nothing, and above 5 there is no tone.
pub proof fn law_pattern_with_digit(
    tables: &Tables,
    text: &str,
    digit: char,
    toned: &str,
    split: Result<(Vec<char>, Option<Tone>), ParseError>,
    pattern: Pattern,
    toned_pattern: Pattern,
    value: u16,
    answer: bool,
    toned_answer: bool,
)
    requires
        trimmed(text@) == text@,
        '0' <= digit <= '9',
        toned@ == text@.push(digit),
        call_ensures(split_tone, (text,), split),
        split matches Ok((_, tone)) && tone is None,
        call_ensures(compile_pattern, (tables, text), pattern),
        call_ensures(compile_pattern, (tables, toned), toned_pattern),
        call_ensures(Pattern::matches, (&pattern, value), answer),
        call_ensures(Pattern::matches, (&toned_pattern, value), toned_answer),
    ensures
        digit == '0' ==> toned_pattern == pattern,
        digit > '5' ==> toned_pattern == Pattern::Never,
        '1' <= digit <= '5' ==> (toned_pattern == Pattern::Never <==> pattern == Pattern::Never),
        '1' <= digit <= '5' ==> (toned_answer <==> answer && value & 0x00E0 == if digit == '5' {
            0x0060
        } else {
            0x0060 + 0x0020 * (digit as int - '0' as int)
        }),
{
    law_tone_digits(digit);
    law_digit_after_pattern(tables@, text@, digit, value);
}

/// A 声母 with a wildcard behind it, as it is split off a text, matches exactly the values
/// with that 声母.
pub proof fn law_initial_call<'a>(
    tables: &Tables,
    letters: &'a [char],
    split: Option<(Initial, &'a [char])>,
    glyph: char,
    text: &str,
    pattern: Pattern,
    value: u16,
    answer: bool,
)
    requires
        call_ensures(split_written_initial, (tables, letters), split),
        is_written_initial(letters@),
        glyph == '?' || glyph == '*',
        text@ == letters@.push(glyph),
        call_ensures(compile_pattern, (tables, text), pattern),
        call_ensures(Pattern::matches, (&pattern, value), answer),
    ensures
        split matches Some((initial, rest)) && rest@.len() == 0 && (answer <==> value & 0x801F
            == initial@),
{
    assert(letters@.take(letters@.len() as int) =~= letters@);
    law_initial_with_wildcard(tables@, letters@, glyph, value);
}

/// The longest written 声母 at the start of a text is split off, and the rest is what
/// stands behind it.
pub proof fn law_split_initial_call<'a>(
    tables: &Tables,
    letters: &'a [char],
    split: Option<(Initial, &'a [char])>,
    name: Seq<char>,
    behind: Seq<char>,
)
    requires
        call_ensures(split_written_initial, (tables, letters), split),
        is_written_initial(name),
        letters@ == name + behind,
        !(name.len() == 1 && behind.len() > 0 && is_written_initial(name.push(behind[0]))),
    ensures
        split matches Some((initial, rest)) && rest@ == behind && code_named(
            tables@.initials,
            name,
        ) == Some(initial@),
{
    law_longest_initial(name, behind);
    let s = name + behind;
    let n = initial_length(s) as int;
    if n > name.len() {
        assert(s.take(n) =~= name.push(behind[0]));
    }
    assert(s.take(n) =~= name);
    assert(s.skip(n) =~= behind);
}

/// A wildcard and a written 韵母, as it is found by its spelling, match exactly the values
/// with that 韵母.
pub proof fn law_final_call(
    tables: &Tables,
    letters: &[char],
    found: Option<Final>,
    text: &str,
    pattern: Pattern,
    value: u16,
    answer: bool,
)
    requires
        call_ensures(final_from_spelling, (tables, letters), found),
        found is Some,
        is_spelling(letters@),
        text@ == seq!['?'] + letters@,
        call_ensures(compile_pattern, (tables, text), pattern),
        call_ensures(Pattern::matches, (&pattern, value), answer),
    ensures
        answer <==> value & 0x7F00 == (found->0)@,
{
    law_final_pattern(tables@, letters@, value);
}

/// A phrase of two one-syllable patterns with `**` between them matches exactly the lists
/// of two syllables or more whose first matches the one and whose last matches the other.
pub proof fn law_phrase_call(
    tables: &Tables,
    first: &str,
    last: &str,
    text: &str,
    first_pattern: Pattern,
    last_pattern: Pattern,
    elems: Option<Vec<Elem>>,
    list: &[Elem],
    values: &[u16],
    answer: bool,
)
    requires
        is_single_word(first@),
        is_single_word(last@),
        text@ == (first@.push(' ') + "**"@).push(' ') + last@,
        call_ensures(compile_pattern, (tables, first), first_pattern),
        call_ensures(compile_pattern, (tables, last), last_pattern),
        first_pattern != Pattern::Never,
        last_pattern != Pattern::Never,
        call_ensures(compile_sequence, (tables, text), elems),
        elems matches Some(found) ==> list@ == found@,
        call_ensures(match_sequence, (list, values), answer),
    ensures
        elems is Some,
        answer <==> values@.len() >= 2 && first_pattern.accepts(values@[0])
            && last_pattern.accepts(values@[values@.len() - 1]),
{
    law_phrase_with_run(tables@, first@, last@, values@);
}

// --- rows ---------------------------------------------------------------------

/// A row of a mask is one bit, counted from the lowest of the first word on.
pub proof fn law_validity_call(mask: Option<&[u64]>, row: usize, set: bool)
    requires
        call_ensures(row_is_valid, (mask, row), set),
    ensures
        match mask {
            Some(bits) => set <==> (bits@[row as int / 64] >> ((row % 64) as u64)) & 1 == 1,
            None => set,
        },
{
}

/// Matching rows is matching each value that is there by its own pattern: where a row has
/// both, its answer is the one that the compiled pattern gives for the value, and the
/// pattern is legal; and where one of them is null, so is the answer.
pub proof fn law_match_rows_call(
    tables: &Tables,
    values: &Column<u16>,
    patterns: &[Option<String>],
    r: Result<Vec<Option<bool>>, PatternError>,
    i: int,
    text: &str,
    pattern: Pattern,
    answer: bool,
)
    requires
        call_ensures(match_rows, (tables, values, patterns), r),
        values.data@.len() == patterns@.len(),
        0 <= i < patterns@.len(),
        patterns@[i] matches Some(own) ==> text@ == own@,
        call_ensures(compile_pattern, (tables, text), pattern),
        call_ensures(Pattern::matches, (&pattern, values.data@[i]), answer),
    ensures
        r matches Ok(answers) ==> {
            &&& answers@.len() == patterns@.len()
            &&& mask_is_set(values.validity, i) && patterns@[i] is Some ==> answers@[i] == Some(
                answer,
            ) && pattern != Pattern::Never
            &&& !mask_is_set(values.validity, i) || patterns@[i] is None ==> answers@[i] is None
        },
{
    if let Ok(answers) = r {
        assert(answers@[i] == answers@[i]);
        if let Some(own) = patterns@[i] {
            assert(own@ == text@);
        }
    }
}

/// The pattern that stops a match is illegal, and is that of a row; and a row that has a
/// value and an illegal pattern stops it, unless an earlier row does.
pub proof fn law_match_rows_error(
    tables: &Tables,
    values: &Column<u16>,
    patterns: &[Option<String>],
    r: Result<Vec<Option<bool>>, PatternError>,
    i: int,
    text: &str,
    pattern: Pattern,
)
    requires
        call_ensures(match_rows, (tables, values, patterns), r),
        values.data@.len() == patterns@.len(),
        0 <= i < patterns@.len(),
        mask_is_set(values.validity, i),
        patterns@[i] matches Some(own) && text@ == own@,
        call_ensures(compile_pattern, (tables, text), pattern),
    ensures
        pattern == Pattern::Never ==> (r matches Err(error) && exists|j: int|
            0 <= j <= i && ((#[trigger] patterns@[j]) matches Some(own) && own@
                == error.pattern@)),
        r matches Err(error) ==> compiled_text(tables@, error.pattern@) == Pattern::Never,
{
    let cells = values.cells();
    let texts = texts_of(patterns@);
    law_cells(*values, i);
    law_texts(patterns@, i);
    if let Err(error) = r {
        let j = choose|j: int|
            {
                &&& 0 <= j < patterns@.len()
                &&& is_illegal_match(tables@, #[trigger] cells[j], texts[j])
                &&& forall|k: int|
                    0 <= k < j ==> !is_illegal_match(
                        tables@,
                        #[trigger] cells[k],
                        texts[k],
                    )
                &&& Some(error.pattern@) == texts[j]
            };
        law_texts(patterns@, j);
        if pattern == Pattern::Never {
            assert(is_illegal_match(tables@, cells[i], texts[i]));
            assert(j <= i);
            assert(patterns@[j] matches Some(own) && own@ == error.pattern@);
        }
    } else {
        assert(!is_illegal_match(tables@, cells[i], texts[i]));
    }
}

/// A column matched by the texts that it was parsed from is answered true in every row
/// that has a text.
pub proof fn law_parsed_rows_match(
    tables: &Tables,
    rows: &[Option<String>],
    read: Result<Vec<Option<u16>>, ParseError>,
    values: &Column<u16>,
    r: Result<Vec<Option<bool>>, PatternError>,
    i: int,
)
    requires
        tables@.valid(),
        call_ensures(parse_rows, (tables, rows, false), read),
        read matches Ok(found) && found@ == values.cells(),
        call_ensures(match_rows, (tables, values, rows), r),
        0 <= i < rows@.len(),
    ensures
        r matches Ok(answers) && answers@[i] == if rows@[i] is Some {
            Some(true)
        } else {
            None
        },
{
    let found = read->Ok_0;
    let cells = values.cells();
    let texts = texts_of(rows@);
    assert forall|j: int| 0 <= j < rows@.len() implies !is_illegal_match(
        tables@,
        #[trigger] cells[j],
        texts[j],
    ) by {
        law_texts(rows@, j);
        assert(found@[j] == cells[j]);
        if let Some(text) = rows@[j] {
            if read_text(tables@, text@) is Some {
                law_value_matches_its_text(tables@, text@);
            }
        }
    }
    law_texts(rows@, i);
    assert(found@[i] == cells[i]);
    assert(!is_unreadable(tables@, texts[i]));
    if let Some(text) = rows@[i] {
        law_value_matches_its_text(tables@, text@);
    }
}

/// Matching rows of lists is matching each list that is there, whole, by its own pattern,
/// unless one of its elements is null.
pub proof fn law_match_list_rows_call(
    tables: &Tables,
    entries: &Column<(usize, usize)>,
    elements: &Column<u16>,
    patterns: &[Option<String>],
    r: Result<Vec<Option<bool>>, PatternError>,
    i: int,
    text: &str,
    elems: Option<Vec<Elem>>,
    list: &[Elem],
    values: &[u16],
    answer: bool,
)
    requires
        call_ensures(match_list_rows, (tables, entries, elements, patterns), r),
        entries.data@.len() == patterns@.len(),
        0 <= i < patterns@.len(),
        patterns@[i] matches Some(own) && text@ == own@,
        mask_is_set(entries.validity, i),
        entries.data@[i].0 + entries.data@[i].1 <= elements.data@.len(),
        call_ensures(compile_sequence, (tables, text), elems),
        elems matches Some(found) ==> list@ == found@,
        values@.len() == entries.data@[i].1,
        forall|k: int|
            0 <= k < values@.len() ==> #[trigger] values@[k] == elements.data@[entries.data@[i].0
                + k],
        call_ensures(match_sequence, (list, values), answer),
    ensures
        r matches Ok(answers) ==> {
            &&& answers@.len() == patterns@.len()
            &&& elems is Some
            &&& answers@[i] == if exists|k: int|
                entries.data@[i].0 <= k < entries.data@[i].0 + entries.data@[i].1
                    && !(#[trigger] mask_is_set(elements.validity, k)) {
                None
            } else {
                Some(answer)
            }
        },
{
    if let Ok(answers) = r {
        let (start, length) = entries.data@[i];
        assert(values@ =~= elements.data@.subrange(start as int, start + length));
        assert(answers@[i] == answers@[i]);
    }
}

/// A row of lists with `P ** Q` as its pattern is answered true exactly when the list has
/// two elements or more, the first of which matches `P` and the last of which matches
/// `Q`.
pub proof fn law_match_list_rows_with_run(
    tables: &Tables,
    entries: &Column<(usize, usize)>,
    elements: &Column<u16>,
    patterns: &[Option<String>],
    r: Result<Vec<Option<bool>>, PatternError>,
    i: int,
    first: &str,
    last: &str,
    first_pattern: Pattern,
    last_pattern: Pattern,
)
    requires
        call_ensures(match_list_rows, (tables, entries, elements, patterns), r),
        entries.data@.len() == patterns@.len(),
        0 <= i < patterns@.len(),
        is_single_word(first@),
        is_single_word(last@),
        patterns@[i] matches Some(own) && own@ == (first@.push(' ') + "**"@).push(' ') + last@,
        mask_is_set(entries.validity, i),
        entries.data@[i].0 + entries.data@[i].1 <= elements.data@.len(),
        forall|k: int|
            entries.data@[i].0 <= k < entries.data@[i].0 + entries.data@[i].1
                ==> #[trigger] mask_is_set(elements.validity, k),
        call_ensures(compile_pattern, (tables, first), first_pattern),
        call_ensures(compile_pattern, (tables, last), last_pattern),
        first_pattern != Pattern::Never,
        last_pattern != Pattern::Never,
    ensures
        r matches Ok(answers) ==> ({
            let (start, length) = entries.data@[i];
            answers@[i] == Some(
                length >= 2 && first_pattern.accepts(elements.data@[start as int])
                    && last_pattern.accepts(elements.data@[start + length - 1]),
            )
        }),
{
    if let Ok(answers) = r {
        let (start, length) = entries.data@[i];
        let values = elements.data@.subrange(start as int, start + length);
        law_phrase_with_run(tables@, first@, last@, values);
        assert(answers@[i] == answers@[i]);
    }
}

/// Parsing rows is parsing each text: a readable one gives its value and a null one null,
/// and an unreadable one gives null when trying.
pub proof fn law_parse_rows_call(
    tables: &Tables,
    rows: &[Option<String>],
    trying: bool,
    r: Result<Vec<Option<u16>>, ParseError>,
    i: int,
    text: &str,
    read: Result<u16, ParseError>,
)
    requires
        call_ensures(parse_rows, (tables, rows, trying), r),
        0 <= i < rows@.len(),
        rows@[i] matches Some(own) ==> text@ == own@,
        call_ensures(parse, (tables, text), read),
    ensures
        trying ==> r is Ok,
        !trying && rows@[i] is Some && read is Err ==> r is Err,
        r matches Ok(values) ==> {
            &&& values@.len() == rows@.len()
            &&& values@[i] == if rows@[i] is Some && read is Ok {
                Some(read->Ok_0)
            } else {
                None
            }
        },
        r matches Err(error) ==> read_text(tables@, error.input@) is None,
{
    let texts = texts_of(rows@);
    law_texts(rows@, i);
    if let Ok(values) = r {
        assert(values@[i] == values@[i]);
        if !trying {
            assert(!is_unreadable(tables@, texts[i]));
        }
    }
}

/// Rendering rows is rendering each value that is there, and null where it is not.
pub proof fn law_render_rows_call(
    tables: &Tables,
    values: &Column<u16>,
    texts: Vec<Option<String>>,
    i: int,
    text: String,
)
    requires
        call_ensures(render_rows, (tables, values), texts),
        0 <= i < values.data@.len(),
        call_ensures(render, (tables, values.data@[i]), text),
    ensures
        texts@.len() == values.data@.len(),
        match texts@[i] {
            Some(own) => mask_is_set(values.validity, i) && own@ == text@,
            None => !mask_is_set(values.validity, i),
        },
{
}

/// Rendered rows parse back to the very values, tone and all.
pub proof fn law_rendered_rows_parse_back(
    tables: &Tables,
    values: &Column<u16>,
    texts: Vec<Option<String>>,
    rows: &[Option<String>],
    trying: bool,
    back: Result<Vec<Option<u16>>, ParseError>,
    i: int,
)
    requires
        tables@.valid(),
        call_ensures(render_rows, (tables, values), texts),
        rows@ == texts@,
        call_ensures(parse_rows, (tables, rows, trying), back),
        0 <= i < values.data@.len(),
        tables@.spelling(values.data@[i] & 0xFF1F) is Some,
        values.data@[i] & 0x00E0 == 0 || tone_digit(values.data@[i] & 0x00E0) is Some,
    ensures
        back matches Ok(read) ==> read@.len() == values.data@.len() && read@[i] == if mask_is_set(
            values.validity,
            i,
        ) {
            Some(values.data@[i])
        } else {
            None
        },
{
    law_written_reads_back(tables@, values.data@[i]);
    if let Ok(read) = back {
        assert(read@[i] == read@[i]);
        assert(texts@[i] == rows@[i]);
    }
}

} // verus!
