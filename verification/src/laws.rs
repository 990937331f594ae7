//! Laws that relate reading, writing and matching.
use crate::fields::{
    is_final_code, is_initial_code, is_tone_code, law_fields_determine_value,
    law_fields_read_back, packed, tone_digit, Initial, Tone, FINAL_MASK, INITIAL_MASK,
    SYLLABLE_MASK, TONE_MASK,
};
use crate::parse::{read_lowered, read_text};
use crate::pattern::{
    compiled, compiled_lowered, compiled_text, final_spelled, has_glyph, initial_length,
    initial_part, is_glyph, is_written_initial, pattern_for, phonemic, slot_code, slot_mask,
    slots_of, tone_slot, without_wildcard, Pattern, Slots,
};
use crate::render::{
    has_no_marks, is_lone_letter, is_narrow_vowel, lemma_mark_position_found,
    lemma_mark_position_holds, mark_position, with_mark, written,
};
use crate::tables::{
    code_named, is_spelling, is_spelling_letter, lemma_code_named_listed, lemma_lookup_fits,
    lemma_spelling_reads_back, TableModel,
};
use crate::text::{
    ends_in_digit, is_pinyin_char, is_pinyin_mark, is_pinyin_text, is_space,
    lemma_normalized_pinyin, letter_lower, letters_lowered, lowered, normalized, trimmed,
    trimmed_back, trimmed_front,
};
use crate::tone::{
    combining_mark_tone, digit_tone, is_toneless, is_unaccented, law_digit_is_the_tone,
    law_mark_is_the_tone, law_marks_concat, law_marks_read_back, law_unaccented_text,
    lemma_tone_codes_in_field, spelling_of, split_written, tone_on, tones_marked, unmarked,
};
use vstd::prelude::*;

verus! {

// --- plain text reads as itself -----------------------------------------------

/// A character that neither trimming nor lower case changes.
spec fn is_settled(c: char) -> bool {
    &&& !is_space(c)
    &&& c <= '\u{007F}' || is_pinyin_mark(c)
    &&& letter_lower(c) == c
}

proof fn lemma_settled_text(s: Seq<char>)
    requires
        forall|i: int| 0 <= i < s.len() ==> is_settled(#[trigger] s[i]),
    ensures
        trimmed(s) == s,
        normalized(s) == s,
{
    if s.len() > 0 {
        assert(is_settled(s[0]));
        assert(is_settled(s[s.len() - 1]));
    }
    assert(trimmed(s) == s);
    assert forall|i: int| 0 <= i < s.len() implies is_pinyin_char(#[trigger] s[i]) by {
        assert(is_settled(s[i]));
    }
    lemma_normalized_pinyin(s);
    assert(letters_lowered(s) =~= s) by {
        assert forall|i: int| 0 <= i < s.len() implies letters_lowered(s)[i] == s[i] by {
            assert(is_settled(s[i]));
        }
    }
}

proof fn lemma_spelling_letter(c: char)
    requires
        is_spelling_letter(c),
    ensures
        is_settled(c),
        unmarked(c) is None,
        combining_mark_tone(c) is None,
        c != 'v',
        !('0' <= c <= '9'),
{
}

proof fn lemma_marked_letter(c: char)
    requires
        unmarked(c) is Some,
    ensures
        is_settled(c),
        !('0' <= c <= '9'),
{
}

/// A character that is read as itself: a letter of a spelling, or a glyph of a pattern.
spec fn is_read_as_itself(c: char) -> bool {
    is_spelling_letter(c) || is_glyph(c)
}

proof fn lemma_read_as_itself(s: Seq<char>)
    requires
        forall|i: int| 0 <= i < s.len() ==> is_read_as_itself(#[trigger] s[i]),
    ensures
        normalized(s) == s,
        split_written(s) == Some((s, None::<u16>)),
{
    assert forall|i: int| 0 <= i < s.len() implies is_settled(#[trigger] s[i]) && !('0' <= s[i]
        <= '9') by {
        assert(is_read_as_itself(s[i]));
    }
    lemma_settled_text(s);
    lemma_no_marks(s);
    if s.len() > 0 {
        assert(is_read_as_itself(s[s.len() - 1]));
    }
}

proof fn lemma_no_marks(s: Seq<char>)
    requires
        forall|i: int| 0 <= i < s.len() ==> is_read_as_itself(#[trigger] s[i]),
    ensures
        spelling_of(s) == s,
        tones_marked(s).len() == 0,
    decreases s.len(),
{
    if s.len() > 0 {
        assert forall|i: int| 0 <= i < s.drop_last().len() implies is_read_as_itself(
            #[trigger] s.drop_last()[i],
        ) by {
            assert(s.drop_last()[i] == s[i]);
        }
        lemma_no_marks(s.drop_last());
        assert(is_read_as_itself(s[s.len() - 1]));
    }
    assert(spelling_of(s) =~= s);
}

proof fn lemma_letters_read_as_themselves(s: Seq<char>)
    requires
        forall|i: int| 0 <= i < s.len() ==> is_spelling_letter(#[trigger] s[i]),
    ensures
        spelling_of(s) == s,
        tones_marked(s).len() == 0,
{
    assert forall|i: int| 0 <= i < s.len() implies is_read_as_itself(#[trigger] s[i]) by {}
    lemma_no_marks(s);
}

/// A spelling reads as itself, with no tone.
proof fn lemma_spelling_reads(name: Seq<char>)
    requires
        is_spelling(name),
    ensures
        normalized(name) == name,
        split_written(name) == Some((name, None::<u16>)),
{
    assert forall|i: int| 0 <= i < name.len() implies is_read_as_itself(#[trigger] name[i]) by {}
    lemma_read_as_itself(name);
}

/// A spelling with a digit after it reads as the spelling with that tone.
proof fn lemma_digit_form_reads(name: Seq<char>, digit: char)
    requires
        is_spelling(name),
        digit_tone(digit) is Some,
    ensures
        normalized(name.push(digit)) == name.push(digit),
        split_written(name.push(digit)) == Some((name, digit_tone(digit))),
{
    let text = name.push(digit);
    assert forall|i: int| 0 <= i < text.len() implies is_settled(#[trigger] text[i]) by {
        if i < name.len() {
            assert(text[i] == name[i]);
            lemma_spelling_letter(name[i]);
        }
    }
    lemma_settled_text(text);
    lemma_letters_read_as_themselves(name);
    assert(text.drop_last() =~= name);
}

/// A spelling with one letter marked reads as the spelling with that tone.
pub proof fn lemma_marked_form_reads(name: Seq<char>, i: int, c: char, tone: u16)
    requires
        is_spelling(name),
        0 <= i < name.len(),
        unmarked(c) == Some((name[i], tone)),
    ensures
        normalized(name.update(i, c)) == name.update(i, c),
        split_written(name.update(i, c)) == Some((name, Some(tone))),
{
    let text = name.update(i, c);
    assert forall|j: int| 0 <= j < text.len() implies is_settled(#[trigger] text[j]) && !('0'
        <= text[j] <= '9') by {
        if j == i {
            lemma_marked_letter(c);
        } else {
            assert(text[j] == name[j]);
            lemma_spelling_letter(name[j]);
        }
    }
    lemma_settled_text(text);
    let before = name.take(i);
    let after = name.skip(i + 1);
    let mark = seq![c];
    assert(text =~= (before + mark) + after);
    law_marks_concat(before + mark, after);
    law_marks_concat(before, mark);
    assert forall|j: int| 0 <= j < before.len() implies is_spelling_letter(
        #[trigger] before[j],
    ) by {
        assert(before[j] == name[j]);
    }
    assert forall|j: int| 0 <= j < after.len() implies is_spelling_letter(#[trigger] after[j]) by {
        assert(after[j] == name[j + 1 + i]);
    }
    lemma_letters_read_as_themselves(before);
    lemma_letters_read_as_themselves(after);
    assert(mark.drop_last() =~= Seq::<char>::empty());
    assert(spelling_of(mark.drop_last()) =~= Seq::<char>::empty());
    assert(tones_marked(mark.drop_last()) =~= Seq::<u16>::empty());
    assert(mark.last() == c);
    assert(spelling_of(mark) =~= seq![name[i]]);
    assert(tones_marked(mark) =~= seq![tone]);
    assert(spelling_of(text) =~= name);
    assert(tones_marked(text) =~= seq![tone]);
    assert(text[text.len() - 1] == text.last());
}

/// Marking a spelling changes one letter to its marked form, and no other.
pub proof fn law_mark_changes_one_letter(name: Seq<char>, tone: u16)
    ensures
        with_mark(name, tone) matches Some(text) ==> exists|i: int, c: char|
            0 <= i < name.len() && text == #[trigger] name.update(i, c) && unmarked(c) == Some(
                (name[i], tone),
            ),
{
    if let Some(text) = with_mark(name, tone) {
        if is_lone_letter(name) {
            let c = text[0];
            law_marks_read_back(c, name[0], tone);
            assert(text =~= name.update(0, c));
        } else {
            lemma_mark_position_holds(name);
            let i = mark_position(name)->0;
            let c = text[i];
            law_marks_read_back(c, name[i], tone);
            assert(text =~= name.update(i, c));
        }
    }
}

// --- reading and writing ------------------------------------------------------

/// A syllable may be written without a tone, with a tone digit, or with a tone mark,
/// and all three agree on the syllable; the digit and the mark also agree on the
/// tone.
pub proof fn law_three_ways_agree(m: TableModel, name: Seq<char>, tone: u16, digit: char)
    requires
        m.valid(),
        m.lookup(name) is Some,
        digit_tone(digit) == Some(tone),
    ensures
        ({
            let (initial, final_) = m.lookup(name)->0;
            &&& read_text(m, name) == Some(packed(initial, final_, Tone::MISSING))
            &&& read_text(m, name.push(digit)) == Some(packed(initial, final_, tone))
            &&& with_mark(name, tone) matches Some(text) ==> read_text(m, text) == Some(
                packed(initial, final_, tone),
            )
        }),
{
    lemma_lookup_fits(m, name);
    lemma_spelling_reads(name);
    lemma_digit_form_reads(name, digit);
    law_mark_changes_one_letter(name, tone);
    if let Some(text) = with_mark(name, tone) {
        let (i, c) = choose|i: int, c: char|
            0 <= i < name.len() && text == #[trigger] name.update(i, c) && unmarked(c) == Some(
                (name[i], tone),
            );
        lemma_marked_form_reads(name, i, c, tone);
    }
}

/// A combining tone mark anywhere among the letters of a spelling gives it that tone,
/// which is how the letters without a marked form of their own are marked.
pub proof fn law_combining_mark(m: TableModel, name: Seq<char>, i: int, mark: char)
    requires
        m.valid(),
        m.lookup(name) is Some,
        0 <= i <= name.len(),
        combining_mark_tone(mark) is Some,
    ensures
        ({
            let (initial, final_) = m.lookup(name)->0;
            read_text(m, name.take(i).push(mark) + name.skip(i)) == Some(
                packed(initial, final_, combining_mark_tone(mark)->0),
            )
        }),
{
    let before = name.take(i);
    let after = name.skip(i);
    let text = before.push(mark) + after;
    let tone = combining_mark_tone(mark)->0;
    lemma_lookup_fits(m, name);
    assert forall|j: int| 0 <= j < before.len() implies is_spelling_letter(
        #[trigger] before[j],
    ) by {
        assert(before[j] == name[j]);
    }
    assert forall|j: int| 0 <= j < after.len() implies is_spelling_letter(#[trigger] after[j]) by {
        assert(after[j] == name[j + i]);
    }
    assert forall|j: int| 0 <= j < text.len() implies is_settled(#[trigger] text[j]) && !('0'
        <= text[j] <= '9') by {
        if j < i {
            assert(text[j] == before[j]);
            lemma_spelling_letter(before[j]);
        } else if j > i {
            assert(text[j] == after[j - i - 1]);
            lemma_spelling_letter(after[j - i - 1]);
        }
    }
    lemma_settled_text(text);
    lemma_letters_read_as_themselves(before);
    lemma_letters_read_as_themselves(after);
    law_marks_concat(before.push(mark), after);
    assert(before.push(mark).drop_last() =~= before);
    assert(spelling_of(before.push(mark)) =~= before);
    assert(tones_marked(before.push(mark)) =~= seq![tone]);
    assert(before + after =~= name);
    assert(spelling_of(text) =~= name);
    assert(tones_marked(text) =~= seq![tone]);
    assert(text[text.len() - 1] == text.last());
}

/// A spelling with one of the vowels `a`, `o`, `e`, `i`, `u` and `ü` in it has a marked
/// form in each of the tones 1 to 4.
pub proof fn law_vowels_take_marks(name: Seq<char>, i: int, tone: u16)
    requires
        0 <= i < name.len(),
        name[i] == 'a' || name[i] == 'o' || name[i] == 'e' || is_narrow_vowel(name[i]),
        tone == Tone::T1 || tone == Tone::T2 || tone == Tone::T3 || tone == Tone::T4,
    ensures
        with_mark(name, tone) is Some,
{
    assert(!is_lone_letter(name));
    assert(!has_no_marks(name)) by {
        if name == seq!['h', 'm'] || name == seq!['h', 'n', 'g'] || name == seq!['n', 'g'] {
            assert(name[0] == 'h' || name[0] == 'n');
            assert(i == 0 || i == 1 || i == 2);
        }
    }
    lemma_mark_position_found(name, i);
    lemma_mark_position_holds(name);
}

/// The tone that reading a text gives is one of the seven that can be written.
pub proof fn lemma_tone_read(text: Seq<char>)
    ensures
        split_written(text) matches Some((spelling, Some(tone))) ==> tone == Tone::UNSPEC || tone
            == Tone::NEUTRAL || tone == Tone::T1 || tone == Tone::T2 || tone == Tone::T3 || tone
            == Tone::T4,
{
    lemma_tones_marked_known(text);
}

proof fn lemma_tones_marked_known(s: Seq<char>)
    ensures
        forall|i: int|
            0 <= i < tones_marked(s).len() ==> {
                let tone = #[trigger] tones_marked(s)[i];
                tone == Tone::T1 || tone == Tone::T2 || tone == Tone::T3 || tone == Tone::T4
            },
    decreases s.len(),
{
    if s.len() > 0 {
        let front = tones_marked(s.drop_last());
        lemma_tones_marked_known(s.drop_last());
        assert forall|i: int| 0 <= i < tones_marked(s).len() implies {
            let tone = #[trigger] tones_marked(s)[i];
            tone == Tone::T1 || tone == Tone::T2 || tone == Tone::T3 || tone == Tone::T4
        } by {
            if i < front.len() {
                assert(tones_marked(s)[i] == front[i]);
            } else {
                assert(tone_on(s.last()) == Some(tones_marked(s)[i]));
            }
        }
    }
}

/// Writing a syllable out and reading it again gives the same value, for every
/// syllable with a spelling and every tone that is written.
pub proof fn law_written_reads_back(m: TableModel, value: u16)
    requires
        m.valid(),
        m.spelling(value & SYLLABLE_MASK) is Some,
        value & TONE_MASK == Tone::MISSING || tone_digit(value & TONE_MASK) is Some,
    ensures
        read_text(m, written(m, value)) == Some(value),
{
    let key = value & SYLLABLE_MASK;
    let tone = value & TONE_MASK;
    let name = m.plain(value);
    lemma_spelling_reads_back(m, key);
    lemma_lookup_fits(m, name);
    let (initial, final_) = m.lookup(name)->0;
    assert(packed(initial, final_, tone) == value) by {
        assert(value == (value & SYLLABLE_MASK) | (value & TONE_MASK)) by (bit_vector);
    }
    if tone == Tone::MISSING {
        lemma_spelling_reads(name);
    } else {
        let digit = (tone_digit(tone)->0 + 48) as char;
        assert(digit_tone(digit) == Some(tone));
        law_three_ways_agree(m, name, tone, digit);
    }
}

/// Different values are written differently.
pub proof fn law_written_forms_differ(m: TableModel, a: u16, b: u16)
    requires
        m.valid(),
        m.spelling(a & SYLLABLE_MASK) is Some,
        m.spelling(b & SYLLABLE_MASK) is Some,
        a & TONE_MASK == Tone::MISSING || tone_digit(a & TONE_MASK) is Some,
        b & TONE_MASK == Tone::MISSING || tone_digit(b & TONE_MASK) is Some,
        a != b,
    ensures
        written(m, a) != written(m, b),
{
    law_written_reads_back(m, a);
    law_written_reads_back(m, b);
}

/// Rendering is the inverse of parsing: what was read from a text is read again from
/// its canonical writing. A tone that was written as the wildcard `0` is not written
/// out, so it comes back as no tone.
pub proof fn law_render_inverts_parse(m: TableModel, text: Seq<char>)
    requires
        m.valid(),
        read_text(m, text) is Some,
    ensures
        ({
            let value = read_text(m, text)->0;
            if value & TONE_MASK == Tone::UNSPEC {
                read_text(m, written(m, value)) == Some(value & SYLLABLE_MASK)
            } else {
                read_text(m, written(m, value)) == Some(value)
            }
        }),
{
    let value = read_text(m, text)->0;
    let (name, tone) = split_written(normalized(text))->0;
    let code = match tone {
        Some(code) => code,
        None => Tone::MISSING,
    };
    lemma_tone_read(normalized(text));
    lemma_tone_codes_in_field();
    lemma_lookup_fits(m, name);
    let (initial, final_) = m.lookup(name)->0;
    law_fields_read_back(initial, final_, code);
    if code == Tone::UNSPEC {
        let bare = value & SYLLABLE_MASK;
        assert(bare & SYLLABLE_MASK == bare && bare & TONE_MASK == 0) by (bit_vector)
            requires
                bare == value & SYLLABLE_MASK,
        ;
        law_written_reads_back(m, bare);
        assert(written(m, value) == written(m, bare));
    } else {
        law_written_reads_back(m, value);
    }
}

/// A syllable written without a tone is not the same value as any toned one.
pub proof fn law_toneless_differs(m: TableModel, name: Seq<char>, digit: char)
    requires
        m.valid(),
        m.lookup(name) is Some,
        digit_tone(digit) is Some,
    ensures
        read_text(m, name) is Some,
        read_text(m, name.push(digit)) is Some,
        read_text(m, name) != read_text(m, name.push(digit)),
{
    let tone = digit_tone(digit)->0;
    let (initial, final_) = m.lookup(name)->0;
    assert(packed(initial, final_, Tone::MISSING) != packed(initial, final_, tone)) by {
        lemma_lookup_fits(m, name);
        lemma_tone_codes_in_field();
        law_fields_read_back(initial, final_, tone);
        law_fields_read_back(initial, final_, Tone::MISSING);
    }
    law_three_ways_agree(m, name, tone, digit);
}

/// A digit after a written syllable with no tone, in lower case, gives the syllable
/// that tone; with a digit above 5 it is no syllable.
pub proof fn law_digit_tones_value(m: TableModel, text: Seq<char>, digit: char)
    requires
        m.valid(),
        read_lowered(m, text) is Some,
        read_lowered(m, text)->0 & TONE_MASK == Tone::MISSING,
        '0' <= digit <= '9',
    ensures
        is_toneless(text),
        read_lowered(m, text.push(digit)) == match digit_tone(digit) {
            Some(tone) => Some(read_lowered(m, text)->0 | tone),
            None => None,
        },
{
    let value = read_lowered(m, text)->0;
    let (name, written_tone) = split_written(text)->0;
    let code = match written_tone {
        Some(code) => code,
        None => Tone::MISSING,
    };
    lemma_tone_read(text);
    lemma_tone_codes_in_field();
    lemma_lookup_fits(m, name);
    let (initial, final_) = m.lookup(name)->0;
    law_fields_read_back(initial, final_, code);
    law_digit_is_the_tone(text, digit);
    if let Some(tone) = digit_tone(digit) {
        assert(initial | final_ | 0u16 | tone == initial | final_ | tone) by (bit_vector);
    }
}

/// A digit after a written syllable with no tone gives the syllable that tone,
/// whatever the text of the syllable is.
pub proof fn law_digit_after_syllable(m: TableModel, text: Seq<char>, digit: char)
    requires
        m.valid(),
        trimmed(text) == text,
        read_text(m, text) is Some,
        read_text(m, text)->0 & TONE_MASK == Tone::MISSING,
        '0' <= digit <= '9',
    ensures
        read_text(m, text.push(digit)) == match digit_tone(digit) {
            Some(tone) => Some(read_text(m, text)->0 | tone),
            None => None,
        },
{
    law_digit_tones_value(m, normalized(text), digit);
    lemma_normalized_with_digit(text, digit);
}

/// Every value that is read has a spelling, so it is never written as nothing.
pub proof fn law_read_values_are_syllables(m: TableModel, text: Seq<char>)
    requires
        m.valid(),
        read_text(m, text) is Some,
    ensures
        m.spelling(read_text(m, text)->0 & SYLLABLE_MASK) is Some,
        is_spelling(m.plain(read_text(m, text)->0)),
        written(m, read_text(m, text)->0).len() > 0,
{
    let value = read_text(m, text)->0;
    let (name, tone) = split_written(normalized(text))->0;
    let code = match tone {
        Some(code) => code,
        None => Tone::MISSING,
    };
    lemma_tone_read(normalized(text));
    lemma_tone_codes_in_field();
    lemma_lookup_fits(m, name);
    let (initial, final_) = m.lookup(name)->0;
    law_fields_read_back(initial, final_, code);
    lemma_spelling_reads_back(m, value & SYLLABLE_MASK);
    lemma_lookup_fits(m, m.plain(value));
    law_mark_changes_one_letter(m.plain(value), value & TONE_MASK);
}

// --- space and case -----------------------------------------------------------

/// Nothing but white space.
pub open spec fn is_blank(s: Seq<char>) -> bool {
    forall|i: int| 0 <= i < s.len() ==> is_space(#[trigger] s[i])
}

proof fn lemma_blank_before(blank: Seq<char>, text: Seq<char>)
    requires
        is_blank(blank),
    ensures
        trimmed_front(blank + text) == trimmed_front(text),
    decreases blank.len(),
{
    if blank.len() == 0 {
        assert(blank + text =~= text);
    } else {
        let rest = blank.skip(1);
        assert forall|i: int| 0 <= i < rest.len() implies is_space(#[trigger] rest[i]) by {
            assert(rest[i] == blank[i + 1]);
        }
        assert((blank + text).skip(1) =~= rest + text);
        assert(is_space(blank[0]));
        lemma_blank_before(rest, text);
    }
}

proof fn lemma_blank_after(text: Seq<char>, blank: Seq<char>)
    requires
        is_blank(blank),
    ensures
        trimmed_back(text + blank) == trimmed_back(text),
    decreases blank.len(),
{
    if blank.len() == 0 {
        assert(text + blank =~= text);
    } else {
        let rest = blank.drop_last();
        assert forall|i: int| 0 <= i < rest.len() implies is_space(#[trigger] rest[i]) by {
            assert(rest[i] == blank[i]);
        }
        assert((text + blank).drop_last() =~= text + rest);
        assert(is_space(blank[blank.len() - 1]));
        assert((text + blank).last() == blank[blank.len() - 1]);
        lemma_blank_after(text, rest);
    }
}

/// Trimming the front of a text that goes on with white space leaves that white
/// space, unless nothing else is left.
proof fn lemma_front_of_followed(text: Seq<char>, blank: Seq<char>)
    requires
        is_blank(blank),
    ensures
        trimmed_back(trimmed_front(text + blank)) == trimmed_back(trimmed_front(text)),
    decreases text.len(),
{
    if text.len() == 0 {
        assert(text + blank =~= blank + text);
        lemma_blank_before(blank, text);
    } else if is_space(text[0]) {
        assert((text + blank).skip(1) =~= text.skip(1) + blank);
        lemma_front_of_followed(text.skip(1), blank);
    } else {
        lemma_blank_after(text, blank);
    }
}

/// White space around a written syllable or a pattern makes no difference.
pub proof fn law_space_around(m: TableModel, before: Seq<char>, text: Seq<char>, after: Seq<char>)
    requires
        is_blank(before),
        is_blank(after),
    ensures
        trimmed(before + text + after) == trimmed(text),
        read_text(m, before + text + after) == read_text(m, text),
        compiled_text(m, before + text + after) == compiled_text(m, text),
{
    assert(before + text + after =~= before + (text + after));
    lemma_blank_before(before, text + after);
    lemma_front_of_followed(text, after);
}

proof fn lemma_lower_keeps_kind(c: char)
    ensures
        is_space(letter_lower(c)) == is_space(c),
        is_pinyin_char(letter_lower(c)) == is_pinyin_char(c),
        letter_lower(letter_lower(c)) == letter_lower(c),
        '0' <= letter_lower(c) <= '9' ==> letter_lower(c) == c,
{
}

proof fn lemma_lower_front(s: Seq<char>)
    ensures
        trimmed_front(letters_lowered(s)) == letters_lowered(trimmed_front(s)),
    decreases s.len(),
{
    if s.len() > 0 {
        lemma_lower_keeps_kind(s[0]);
        if is_space(s[0]) {
            lemma_lower_front(s.skip(1));
            assert(letters_lowered(s).skip(1) =~= letters_lowered(s.skip(1)));
        }
    }
}

proof fn lemma_lower_back(s: Seq<char>)
    ensures
        trimmed_back(letters_lowered(s)) == letters_lowered(trimmed_back(s)),
    decreases s.len(),
{
    if s.len() > 0 {
        lemma_lower_keeps_kind(s.last());
        assert(letters_lowered(s).last() == letter_lower(s.last()));
        if is_space(s.last()) {
            lemma_lower_back(s.drop_last());
            assert(letters_lowered(s).drop_last() =~= letters_lowered(s.drop_last()));
        }
    }
}

/// Two texts that differ in nothing but the case of their ASCII and pinyin letters.
pub open spec fn differ_in_case(a: Seq<char>, b: Seq<char>) -> bool {
    &&& a.len() == b.len()
    &&& forall|i: int| 0 <= i < a.len() ==> letter_lower(#[trigger] a[i]) == letter_lower(b[i])
}

proof fn lemma_lowered_agrees(a: Seq<char>, b: Seq<char>)
    requires
        letters_lowered(a) == letters_lowered(b),
    ensures
        lowered(a) == lowered(b),
{
    assert(a.len() == letters_lowered(a).len());
    assert(b.len() == letters_lowered(b).len());
    assert forall|i: int| 0 <= i < a.len() implies is_pinyin_char(#[trigger] a[i])
        == is_pinyin_char(b[i]) by {
        assert(letters_lowered(a)[i] == letter_lower(a[i]));
        assert(letters_lowered(b)[i] == letter_lower(b[i]));
        lemma_lower_keeps_kind(a[i]);
        lemma_lower_keeps_kind(b[i]);
    }
    assert(is_pinyin_text(a) == is_pinyin_text(b)) by {
        if is_pinyin_text(a) {
            assert forall|i: int| 0 <= i < b.len() implies is_pinyin_char(#[trigger] b[i]) by {
                assert(is_pinyin_char(a[i]));
            }
        }
        if is_pinyin_text(b) {
            assert forall|i: int| 0 <= i < a.len() implies is_pinyin_char(#[trigger] a[i]) by {
                assert(is_pinyin_char(b[i]));
            }
        }
    }
}

/// Letter case makes no difference, in a written syllable or in a pattern, whatever
/// else stands in the text.
pub proof fn law_letter_case(m: TableModel, a: Seq<char>, b: Seq<char>)
    requires
        differ_in_case(a, b),
    ensures
        read_text(m, a) == read_text(m, b),
        compiled_text(m, a) == compiled_text(m, b),
{
    assert(letters_lowered(a) =~= letters_lowered(b));
    lemma_lower_front(a);
    lemma_lower_front(b);
    lemma_lower_back(trimmed_front(a));
    lemma_lower_back(trimmed_front(b));
    let x = trimmed(a);
    let y = trimmed(b);
    assert(letters_lowered(x) == letters_lowered(y));
    assert(x.len() == letters_lowered(x).len());
    assert(y.len() == letters_lowered(y).len());
    if x.len() > 0 {
        assert(letters_lowered(x)[x.len() - 1] == letters_lowered(y)[y.len() - 1]);
        lemma_lower_keeps_kind(x.last());
        lemma_lower_keeps_kind(y.last());
        assert(ends_in_digit(x) == ends_in_digit(y));
        assert(letters_lowered(x.drop_last()) =~= letters_lowered(x).drop_last());
        assert(letters_lowered(y.drop_last()) =~= letters_lowered(y).drop_last());
        lemma_lowered_agrees(x.drop_last(), y.drop_last());
    }
    lemma_lowered_agrees(x, y);
    assert(normalized(a) == normalized(b));
}

/// Neither white space around a text nor letter case changes the value that is read or
/// the pattern that is compiled.
pub proof fn law_space_and_case(
    m: TableModel,
    before: Seq<char>,
    a: Seq<char>,
    after: Seq<char>,
    b: Seq<char>,
)
    requires
        is_blank(before),
        is_blank(after),
        differ_in_case(a, b),
    ensures
        read_text(m, before + a + after) == read_text(m, b),
        compiled_text(m, before + a + after) == compiled_text(m, b),
{
    law_space_around(m, before, a, after);
    law_letter_case(m, a, b);
}

/// A blank text is no syllable.
pub proof fn law_blank_is_no_syllable(m: TableModel, text: Seq<char>)
    requires
        m.valid(),
        is_blank(text),
    ensures
        read_text(m, text) is None,
{
    let empty = Seq::<char>::empty();
    assert(text + empty =~= text);
    lemma_blank_before(text, empty);
    assert(trimmed(text) == empty);
    lemma_normalized_pinyin(text);
    assert(letters_lowered(empty) =~= empty);
    assert(spelling_of(empty) =~= empty);
    lemma_lookup_fits(m, empty);
}

// --- matching -----------------------------------------------------------------

/// The parts that a pattern asks for fit their fields.
proof fn lemma_slots_fit(m: TableModel, body: Seq<char>)
    requires
        m.valid(),
    ensures
        slots_of(m, body) matches Some(slots) ==> {
            &&& slots.initial matches Some(code) ==> is_initial_code(code)
            &&& slots.final_ matches Some(code) ==> is_final_code(code)
        },
{
    assert(0x0002u16 & 0x801F == 0x0002 && 0x8010u16 & 0x801F == 0x8010) by (bit_vector);
    lemma_lookup_fits(m, body);
    lemma_named_initial_fits(m, body.take(initial_length(body) as int));
    lemma_named_final_fits(m, phonemic(body));
    if let Some((_, rest)) = initial_part(m, body) {
        lemma_named_final_fits(m, phonemic(without_wildcard(rest)));
    }
}

proof fn lemma_named_initial_fits(m: TableModel, name: Seq<char>)
    requires
        m.valid(),
    ensures
        code_named(m.initials, name) matches Some(code) ==> is_initial_code(code),
{
    lemma_code_named_listed(m.initials, name);
}

proof fn lemma_named_final_fits(m: TableModel, name: Seq<char>)
    requires
        m.valid(),
    ensures
        code_named(m.finals, name) matches Some(code) ==> is_final_code(code),
{
    lemma_code_named_listed(m.finals, name);
}

/// A pattern is matched part by part: a value is accepted exactly when every part
/// that the pattern asks for is the same in the value.
pub proof fn law_matched_part_by_part(slots: Slots, tone: Option<u16>, value: u16)
    requires
        slots.initial matches Some(code) ==> is_initial_code(code),
        slots.final_ matches Some(code) ==> is_final_code(code),
        tone matches Some(code) ==> is_tone_code(code),
    ensures
        pattern_for(slots, tone).accepts(value) <==> {
            &&& slots.initial matches Some(code) ==> value & INITIAL_MASK == code
            &&& slots.final_ matches Some(code) ==> value & FINAL_MASK == code
            &&& tone matches Some(code) ==> value & TONE_MASK == code
        },
{
    let im = slot_mask(slots.initial, INITIAL_MASK);
    let fm = slot_mask(slots.final_, FINAL_MASK);
    let tm = slot_mask(tone, TONE_MASK);
    let ic = slot_code(slots.initial);
    let fc = slot_code(slots.final_);
    let tc = slot_code(tone);
    assert(0u16 & INITIAL_MASK == 0 && 0u16 & FINAL_MASK == 0 && 0u16 & TONE_MASK == 0 && 0u16
        & 0 == 0 && value & 0 == 0) by (bit_vector);
    assert(value & (tm | im | fm) == tc | ic | fc <==> (value & im == ic && value & fm == fc
        && value & tm == tc)) by (bit_vector)
        requires
            im == INITIAL_MASK || im == 0,
            fm == FINAL_MASK || fm == 0,
            tm == TONE_MASK || tm == 0,
            ic & im == ic,
            fc & fm == fc,
            tc & tm == tc,
    ;
}

/// A compiled pattern accepts a value exactly when every part that its text asks for
/// is the same in the value; a text that names nothing legal accepts nothing.
pub proof fn law_compiled_part_by_part(m: TableModel, text: Seq<char>, value: u16)
    requires
        m.valid(),
    ensures
        compiled_text(m, text).accepts(value) <==> match split_written(normalized(text)) {
            Some((body, tone)) => match slots_of(m, body) {
                Some(slots) => {
                    &&& slots.initial matches Some(code) ==> value & INITIAL_MASK == code
                    &&& slots.final_ matches Some(code) ==> value & FINAL_MASK == code
                    &&& tone_slot(tone) matches Some(code) ==> value & TONE_MASK == code
                },
                None => false,
            },
            None => false,
        },
{
    let read = normalized(text);
    if let Some((body, tone)) = split_written(read) {
        lemma_tone_read(read);
        lemma_tone_codes_in_field();
        lemma_parts_accept(m, body, tone, value);
    }
}

proof fn lemma_parts_accept(m: TableModel, body: Seq<char>, tone: Option<u16>, value: u16)
    requires
        m.valid(),
        tone matches Some(code) ==> is_tone_code(code),
    ensures
        compiled(m, body, tone).accepts(value) <==> match slots_of(m, body) {
            Some(slots) => {
                &&& slots.initial matches Some(code) ==> value & INITIAL_MASK == code
                &&& slots.final_ matches Some(code) ==> value & FINAL_MASK == code
                &&& tone_slot(tone) matches Some(code) ==> value & TONE_MASK == code
            },
            None => false,
        },
{
    lemma_slots_fit(m, body);
    if let Some(slots) = slots_of(m, body) {
        law_matched_part_by_part(slots, tone_slot(tone), value);
    }
}

/// A value matches the very text it was read from.
pub proof fn law_value_matches_its_text(m: TableModel, text: Seq<char>)
    requires
        m.valid(),
        read_text(m, text) is Some,
    ensures
        compiled_text(m, text).accepts(read_text(m, text)->0),
{
    let read = normalized(text);
    let value = read_text(m, text)->0;
    let (name, tone) = split_written(read)->0;
    let code = match tone {
        Some(code) => code,
        None => Tone::MISSING,
    };
    lemma_tone_read(read);
    lemma_tone_codes_in_field();
    lemma_lookup_fits(m, name);
    let (initial, final_) = m.lookup(name)->0;
    law_fields_read_back(initial, final_, code);
    lemma_spelling_has_no_glyph(name);
    law_compiled_part_by_part(m, text, value);
}

proof fn lemma_spelling_has_no_glyph(name: Seq<char>)
    requires
        is_spelling(name),
    ensures
        !has_glyph(name),
{
    if has_glyph(name) {
        let i = choose|i: int| 0 <= i < name.len() && is_glyph(#[trigger] name[i]);
        assert(is_spelling_letter(name[i]));
    }
}

/// A whole syllable as a pattern asks for that syllable in any tone, and with a tone
/// digit after it for that one value.
pub proof fn law_syllable_pattern(m: TableModel, name: Seq<char>, digit: char, value: u16)
    requires
        m.valid(),
        m.lookup(name) is Some,
        digit_tone(digit) is Some,
        digit != '0',
    ensures
        ({
            let (initial, final_) = m.lookup(name)->0;
            let tone = digit_tone(digit)->0;
            &&& compiled_text(m, name).accepts(value) <==> value & SYLLABLE_MASK == initial | final_
            &&& compiled_text(m, name.push('0')).accepts(value) <==> value & SYLLABLE_MASK
                == initial | final_
            &&& compiled_text(m, name.push(digit)).accepts(value) <==> value == packed(
                initial,
                final_,
                tone,
            )
        }),
{
    let (initial, final_) = m.lookup(name)->0;
    let tone = digit_tone(digit)->0;
    lemma_lookup_fits(m, name);
    lemma_tone_codes_in_field();
    lemma_spelling_has_no_glyph(name);
    lemma_spelling_reads(name);
    lemma_digit_form_reads(name, digit);
    lemma_digit_form_reads(name, '0');
    law_fields_read_back(initial, final_, tone);
    law_fields_determine_value(value, packed(initial, final_, tone));
    assert(value & SYLLABLE_MASK == initial | final_ <==> (value & INITIAL_MASK == initial && value
        & FINAL_MASK == final_)) by (bit_vector)
        requires
            initial & INITIAL_MASK == initial,
            final_ & FINAL_MASK == final_,
    ;
    law_compiled_part_by_part(m, name, value);
    law_compiled_part_by_part(m, name.push('0'), value);
    law_compiled_part_by_part(m, name.push(digit), value);
}

/// A digit after a pattern that says no tone, in lower case, adds just its tone to
/// what the pattern asks for: the pattern is legal exactly when it was, and accepts
/// the values that it accepted in that tone. `0` adds nothing, and there is no tone
/// above 5.
pub proof fn law_digit_adds_its_tone(m: TableModel, text: Seq<char>, digit: char, value: u16)
    requires
        m.valid(),
        is_toneless(text),
        '0' <= digit <= '9',
    ensures
        ({
            let plain = compiled_lowered(m, text);
            let toned = compiled_lowered(m, text.push(digit));
            &&& digit == '0' ==> toned == plain
            &&& digit != '0' ==> match digit_tone(digit) {
                Some(tone) => {
                    &&& toned == Pattern::Never <==> plain == Pattern::Never
                    &&& toned.accepts(value) <==> plain.accepts(value) && value & TONE_MASK == tone
                },
                None => toned == Pattern::Never,
            }
        }),
{
    let body = (split_written(text)->0).0;
    law_digit_is_the_tone(text, digit);
    lemma_tone_codes_in_field();
    lemma_parts_accept(m, body, None, value);
    lemma_parts_accept(m, body, digit_tone(digit), value);
}

/// Nothing is trimmed from a text without white space around it, nor from that text
/// with a digit after it.
proof fn lemma_trimmed_with_digit(text: Seq<char>, digit: char)
    requires
        trimmed(text) == text,
        '0' <= digit <= '9',
    ensures
        trimmed(text.push(digit)) == text.push(digit),
{
    if text.len() > 0 && is_space(text[0]) {
        lemma_trimmed_length(text.skip(1));
    }
    assert(text.len() > 0 ==> !is_space(text[0]));
    assert(text.push(digit).last() == digit);
    assert(trimmed_front(text.push(digit)) == text.push(digit));
}

proof fn lemma_trimmed_length(s: Seq<char>)
    ensures
        trimmed(s).len() <= s.len(),
    decreases s.len(),
{
    if s.len() > 0 && is_space(s[0]) {
        lemma_trimmed_length(s.skip(1));
    } else {
        lemma_trimmed_back_length(s);
    }
}

proof fn lemma_trimmed_back_length(s: Seq<char>)
    ensures
        trimmed_back(s).len() <= s.len(),
    decreases s.len(),
{
    if s.len() > 0 && is_space(s.last()) {
        lemma_trimmed_back_length(s.drop_last());
    }
}

/// A text that is read without a tone is read with a digit after it as before, with
/// the digit at the end.
proof fn lemma_normalized_with_digit(text: Seq<char>, digit: char)
    requires
        trimmed(text) == text,
        is_toneless(normalized(text)),
        '0' <= digit <= '9',
    ensures
        normalized(text.push(digit)) == normalized(text).push(digit),
{
    lemma_trimmed_with_digit(text, digit);
    assert(text.push(digit).drop_last() =~= text);
    assert(!ends_in_digit(normalized(text)));
    if ends_in_digit(text) {
        assert(normalized(text).last() == text.last());
    }
}

/// A digit after a pattern that says no tone adds just its tone to what the pattern
/// asks for, whatever the text of the pattern is.
pub proof fn law_digit_after_pattern(m: TableModel, text: Seq<char>, digit: char, value: u16)
    requires
        m.valid(),
        trimmed(text) == text,
        is_toneless(normalized(text)),
        '0' <= digit <= '9',
    ensures
        ({
            let plain = compiled_text(m, text);
            let toned = compiled_text(m, text.push(digit));
            &&& digit == '0' ==> toned == plain
            &&& digit != '0' ==> match digit_tone(digit) {
                Some(tone) => {
                    &&& toned == Pattern::Never <==> plain == Pattern::Never
                    &&& toned.accepts(value) <==> plain.accepts(value) && value & TONE_MASK == tone
                },
                None => toned == Pattern::Never,
            }
        }),
{
    lemma_normalized_with_digit(text, digit);
    law_digit_adds_its_tone(m, normalized(text), digit, value);
}

/// A part that is not written is a wildcard: a 声母 by itself says the same as the
/// 声母 with `?` or `*` after it, and asks for nothing else. A few letters, such as
/// `n`, are syllables by themselves and are then read as that syllable.
pub proof fn law_initial_pattern(m: TableModel, name: Seq<char>, value: u16)
    requires
        m.valid(),
        is_written_initial(name),
        code_named(m.initials, name) is Some,
        m.lookup(name) is None,
    ensures
        compiled_text(m, name) == compiled_text(m, name.push('?')),
        compiled_text(m, name) == compiled_text(m, name.push('*')),
        compiled_text(m, name).accepts(value) <==> Some(value & INITIAL_MASK) == code_named(
            m.initials,
            name,
        ),
{
    let code = code_named(m.initials, name)->0;
    assert forall|i: int| 0 <= i < name.len() implies is_read_as_itself(#[trigger] name[i])
        && !is_glyph(name[i]) by {}
    lemma_read_as_itself(name);
    assert(name.take(name.len() as int) =~= name);
    assert(name.skip(name.len() as int).len() == 0);
    assert(!has_glyph(name)) by {
        if has_glyph(name) {
            let i = choose|i: int| 0 <= i < name.len() && is_glyph(#[trigger] name[i]);
            assert(!is_glyph(name[i]));
        }
    }
    assert(slots_of(m, name) == Some(Slots { initial: Some(code), final_: None }));
    lemma_initial_with_glyph(m, name, '?');
    lemma_initial_with_glyph(m, name, '*');
    law_compiled_part_by_part(m, name, value);
}

/// A 声母 with `?` or `*` after it asks for the 声母 and for nothing else, also where
/// the 声母 by itself would be a syllable.
pub proof fn law_initial_with_wildcard(m: TableModel, name: Seq<char>, glyph: char, value: u16)
    requires
        m.valid(),
        is_written_initial(name),
        code_named(m.initials, name) is Some,
        glyph == '?' || glyph == '*',
    ensures
        compiled_text(m, name.push(glyph)).accepts(value) <==> Some(value & INITIAL_MASK)
            == code_named(m.initials, name),
{
    lemma_initial_with_glyph(m, name, glyph);
    law_compiled_part_by_part(m, name.push(glyph), value);
}

proof fn lemma_initial_with_glyph(m: TableModel, name: Seq<char>, glyph: char)
    requires
        is_written_initial(name),
        code_named(m.initials, name) is Some,
        glyph == '?' || glyph == '*',
    ensures
        compiled_text(m, name.push(glyph)) == compiled(m, name.push(glyph), None),
        split_written(normalized(name.push(glyph))) == Some((name.push(glyph), None::<u16>)),
        slots_of(m, name.push(glyph)) == Some(
            Slots { initial: code_named(m.initials, name), final_: None },
        ),
{
    let text = name.push(glyph);
    assert forall|i: int| 0 <= i < text.len() implies is_read_as_itself(#[trigger] text[i]) by {
        if i < name.len() {
            assert(text[i] == name[i]);
        }
    }
    lemma_read_as_itself(text);
    assert(is_glyph(text[name.len() as int]));
    assert(has_glyph(text));
    assert(initial_length(text) == name.len());
    assert(text.take(name.len() as int) =~= name);
    assert(text.skip(name.len() as int) =~= seq![glyph]);
    assert(seq![glyph].skip(1).len() == 0);
}

/// `?` before a 韵母 asks for the 韵母 and for nothing else.
pub proof fn law_final_pattern(m: TableModel, name: Seq<char>, value: u16)
    requires
        m.valid(),
        is_spelling(name),
        final_spelled(m, name) is Some,
    ensures
        compiled_text(m, seq!['?'] + name).accepts(value) <==> Some(value & FINAL_MASK)
            == final_spelled(m, name),
{
    let text = seq!['?'] + name;
    assert forall|i: int| 0 <= i < text.len() implies is_read_as_itself(#[trigger] text[i]) by {
        if i > 0 {
            assert(text[i] == name[i - 1]);
        }
    }
    lemma_read_as_itself(text);
    assert(is_glyph(text[0]));
    assert(text.skip(1) =~= name);
    assert(is_spelling_letter(name[0]));
    assert(without_wildcard(name) == name);
    assert(name != seq!['*']) by {
        if name == seq!['*'] {
            assert(is_spelling_letter(name[0]));
        }
    }
    law_compiled_part_by_part(m, text, value);
}

/// What a pattern with glyphs starts with: a wildcard, the zero initial, the
/// pseudo-initial R, or a written 声母.
pub open spec fn is_head(m: TableModel, head: Seq<char>, asked: Option<u16>) -> bool {
    ||| head == seq!['?'] && asked is None
    ||| head == seq!['/'] && asked == Some(0x0002u16)
    ||| head == seq!['&'] && asked == Some(0x8010u16)
    ||| is_written_initial(head) && asked is Some && asked == code_named(m.initials, head)
}

proof fn lemma_head_part(m: TableModel, head: Seq<char>, asked: Option<u16>, rest: Seq<char>)
    requires
        is_head(m, head, asked),
        rest.len() == 0 || rest[0] == '?' || rest[0] == '*' || !is_written_initial(head),
    ensures
        head.len() > 0,
        initial_part(m, head + rest) == Some((asked, rest)),
        forall|i: int| 0 <= i < head.len() ==> is_read_as_itself(#[trigger] head[i]),
{
    let body = head + rest;
    assert(body[0] == head[0]);
    if is_written_initial(head) {
        assert(!is_glyph(head[0]));
        if head.len() == 2 {
            assert(body[1] == head[1]);
        }
        assert(initial_length(body) == head.len());
        assert(body.take(head.len() as int) =~= head);
        assert(body.skip(head.len() as int) =~= rest);
    } else {
        assert(body.skip(1) =~= rest);
    }
}

/// A 声母 part and a written 韵母 together, with or without `?` between them, ask for
/// both and for nothing else: a wildcard head asks for the 韵母 only. A written 声母 takes
/// the `?`, since without it the text would be read as a syllable. Where the name is that
/// of no 韵母 the pattern is not legal.
pub proof fn law_head_and_final(
    m: TableModel,
    head: Seq<char>,
    asked: Option<u16>,
    between: Seq<char>,
    name: Seq<char>,
    value: u16,
)
    requires
        m.valid(),
        is_head(m, head, asked),
        between == seq!['?'] || (between.len() == 0 && !is_written_initial(head)),
        is_spelling(name),
    ensures
        ({
            let pattern = compiled_text(m, head + between + name);
            match final_spelled(m, name) {
                Some(code) => {
                    &&& pattern != Pattern::Never
                    &&& pattern.accepts(value) <==> value & FINAL_MASK == code && (
                    asked matches Some(initial) ==> value & INITIAL_MASK == initial)
                },
                None => pattern == Pattern::Never,
            }
        }),
{
    let rest = between + name;
    let text = head + rest;
    assert(head + between + name =~= text);
    lemma_head_part(m, head, asked, rest);
    assert forall|i: int| 0 <= i < text.len() implies is_read_as_itself(#[trigger] text[i]) by {
        if i < head.len() {
            assert(text[i] == head[i]);
        } else if i < head.len() + between.len() {
            assert(text[i] == between[i - head.len()]);
        } else {
            assert(text[i] == name[i - head.len() - between.len()]);
        }
    }
    lemma_read_as_itself(text);
    assert(has_glyph(text)) by {
        if between.len() > 0 {
            assert(is_glyph(text[head.len() as int]));
        } else {
            assert(is_glyph(text[0]));
        }
    }
    assert(is_spelling_letter(name[0]));
    assert(without_wildcard(rest) =~= name);
    assert(name != seq!['*']) by {
        if name == seq!['*'] {
            assert(is_spelling_letter(name[0]));
        }
    }
    law_compiled_part_by_part(m, text, value);
}

/// A 声母 part by itself, or with a wildcard for the 韵母, asks for that part and for
/// nothing else.
pub proof fn law_head_alone(
    m: TableModel,
    head: Seq<char>,
    asked: Option<u16>,
    free: Seq<char>,
    value: u16,
)
    requires
        m.valid(),
        is_head(m, head, asked),
        free == seq!['?'] || free == seq!['*'] || free == seq!['?', '*'] || (free.len() == 0
            && !is_written_initial(head)),
    ensures
        compiled_text(m, head + free) != Pattern::Never,
        compiled_text(m, head + free).accepts(value) <==> (asked matches Some(initial) ==> value
            & INITIAL_MASK == initial),
{
    let text = head + free;
    lemma_head_part(m, head, asked, free);
    assert forall|i: int| 0 <= i < text.len() implies is_read_as_itself(#[trigger] text[i]) by {
        if i < head.len() {
            assert(text[i] == head[i]);
        } else {
            assert(text[i] == free[i - head.len()]);
        }
    }
    lemma_read_as_itself(text);
    assert(has_glyph(text)) by {
        if free.len() > 0 {
            assert(is_glyph(text[head.len() as int]));
        } else {
            assert(is_glyph(text[0]));
        }
    }
    let left = without_wildcard(free);
    assert(left.len() == 0 || left =~= seq!['*']);
    law_compiled_part_by_part(m, text, value);
}

/// `*` covers the 声母 and the 韵母, so nothing but a tone may follow it.
pub proof fn law_nothing_after_star(m: TableModel, rest: Seq<char>)
    requires
        rest.len() > 0,
        forall|i: int|
            0 <= i < rest.len() ==> is_spelling_letter(#[trigger] rest[i]) || is_glyph(rest[i]),
    ensures
        compiled_text(m, seq!['*'] + rest) == Pattern::Never,
{
    let text = seq!['*'] + rest;
    assert forall|i: int| 0 <= i < text.len() implies is_read_as_itself(#[trigger] text[i]) by {
        if i > 0 {
            assert(text[i] == rest[i - 1]);
        }
    }
    lemma_read_as_itself(text);
    assert(is_glyph(text[0]));
    assert(text.skip(1) =~= rest);
}

/// A spelling that is no syllable and no 声母 asks for the 韵母 that it names, and is not
/// legal where it names none: a 声母 that trails off into something else is no pattern.
pub proof fn law_spelling_pattern(m: TableModel, name: Seq<char>, value: u16)
    requires
        m.valid(),
        is_spelling(name),
        m.lookup(name) is None,
        !is_written_initial(name),
    ensures
        match final_spelled(m, name) {
            Some(code) => {
                &&& compiled_text(m, name) != Pattern::Never
                &&& compiled_text(m, name).accepts(value) <==> value & FINAL_MASK == code
            },
            None => compiled_text(m, name) == Pattern::Never,
        },
{
    lemma_spelling_reads(name);
    lemma_spelling_has_no_glyph(name);
    let n = initial_length(name) as int;
    assert(n < name.len());
    assert(n > 0 ==> name.skip(n).len() > 0);
    law_compiled_part_by_part(m, name, value);
}

/// A text in lower case without a glyph, a mark, a `v` or a digit at its end, that is no
/// syllable and no 声母, asks for the 韵母 that it names, letter by letter, and is not legal
/// where it names none.
pub proof fn law_other_text_pattern(m: TableModel, text: Seq<char>)
    requires
        text.len() > 0,
        forall|i: int|
            0 <= i < text.len() ==> is_unaccented(#[trigger] text[i]) && text[i] != '?' && text[i]
                != '*' && text[i] != '/' && text[i] != '&',
        !('0' <= text.last() <= '9'),
        m.lookup(text) is None,
        !is_written_initial(text),
    ensures
        compiled_lowered(m, text) == match final_spelled(m, text) {
            Some(code) => Pattern::Mask { mask: 0x7F00, expect: code },
            None => Pattern::Never,
        },
{
    law_unaccented_text(text);
    assert(!has_glyph(text)) by {
        if has_glyph(text) {
            let i = choose|i: int| 0 <= i < text.len() && is_glyph(#[trigger] text[i]);
            assert(text[i] != '?' && text[i] != '*' && text[i] != '/' && text[i] != '&');
        }
    }
    let n = initial_length(text) as int;
    assert(n < text.len());
    assert(n > 0 ==> text.skip(n).len() > 0);
    if let Some(code) = final_spelled(m, text) {
        assert(0u16 | 0u16 | 0x7F00u16 == 0x7F00 && 0u16 | 0u16 | code == code) by (bit_vector);
    }
}

/// Behind its 声母 part and one `?` at most, whatever stands in a pattern with glyphs is
/// the name of a 韵母, glyphs and all, and the pattern is not legal where there is no such
/// name.
pub proof fn law_head_and_rest(
    m: TableModel,
    head: Seq<char>,
    asked: Option<u16>,
    between: Seq<char>,
    rest: Seq<char>,
)
    requires
        is_head(m, head, asked),
        rest.len() > 0,
        rest != seq!['*'],
        between == seq!['?'] || (between.len() == 0 && rest[0] != '?'),
        is_written_initial(head) ==> initial_length(head + between + rest) == head.len(),
        forall|i: int|
            0 <= i < rest.len() ==> is_spelling_letter(#[trigger] rest[i]) || is_glyph(rest[i]),
        has_glyph(head + between + rest),
    ensures
        compiled_text(m, head + between + rest) == match final_spelled(m, rest) {
            Some(code) => pattern_for(Slots { initial: asked, final_: Some(code) }, None),
            None => Pattern::Never,
        },
{
    let tail = between + rest;
    let text = head + tail;
    assert(head + between + rest =~= text);
    assert(text[0] == head[0]);
    assert forall|i: int| 0 <= i < text.len() implies is_read_as_itself(#[trigger] text[i]) by {
        if i < head.len() {
            assert(text[i] == head[i]);
        } else if i < head.len() + between.len() {
            assert(text[i] == between[i - head.len()]);
        } else {
            assert(text[i] == rest[i - head.len() - between.len()]);
        }
    }
    lemma_read_as_itself(text);
    if is_written_initial(head) {
        assert(text.take(head.len() as int) =~= head);
        assert(text.skip(head.len() as int) =~= tail);
    } else {
        assert(text.skip(1) =~= tail);
    }
    assert(initial_part(m, text) == Some((asked, tail)));
    assert(without_wildcard(tail) =~= rest);
}

/// A pattern with glyphs that starts with a letter which starts no 声母 is the name of a
/// 韵母, glyphs and all, and not legal where there is no such name.
pub proof fn law_no_head(m: TableModel, text: Seq<char>)
    requires
        text.len() > 0,
        is_spelling_letter(text[0]),
        initial_length(text) == 0,
        forall|i: int|
            0 <= i < text.len() ==> is_spelling_letter(#[trigger] text[i]) || is_glyph(text[i]),
        has_glyph(text),
    ensures
        compiled_text(m, text) == match final_spelled(m, text) {
            Some(code) => pattern_for(Slots { initial: None, final_: Some(code) }, None),
            None => Pattern::Never,
        },
{
    assert forall|i: int| 0 <= i < text.len() implies is_read_as_itself(#[trigger] text[i]) by {}
    lemma_read_as_itself(text);
    assert(text != seq!['*']) by {
        if text == seq!['*'] {
            assert(text[0] == '*');
        }
    }
}

/// A tone mark in a pattern with no tone, in lower case, asks for its tone as the digit at
/// the end does.
pub proof fn law_mark_says_the_digit(
    m: TableModel,
    before: Seq<char>,
    mark: char,
    after: Seq<char>,
    digit: char,
)
    requires
        is_toneless(before + after),
        combining_mark_tone(mark) is Some,
        combining_mark_tone(mark) == digit_tone(digit),
    ensures
        compiled_lowered(m, before.push(mark) + after) == compiled_lowered(
            m,
            (before + after).push(digit),
        ),
        read_lowered(m, before.push(mark) + after) == read_lowered(
            m,
            (before + after).push(digit),
        ),
{
    law_mark_is_the_tone(before, mark, after);
    law_digit_is_the_tone(before + after, digit);
}

/// What is read is one of the written syllables: its codes stand in the row that its
/// spelling names, its tone is the one that was written, and it has no other bit.
pub proof fn law_read_value_is_a_row(m: TableModel, text: Seq<char>)
    requires
        m.valid(),
    ensures
        match read_text(m, text) {
            Some(value) => split_written(normalized(text)) matches Some((name, tone)) && (exists|
                i: int,
            |
                0 <= i < m.syllables.len() && (#[trigger] m.syllables[i]) == (
                    name,
                    value & 0x801F,
                    value & 0x7F00,
                )) && value & 0x00E0 == (match tone {
                Some(code) => code,
                None => 0u16,
            }),
            None => split_written(normalized(text)) matches Some((name, _)) ==> (forall|i: int|
                0 <= i < m.syllables.len() ==> (#[trigger] m.syllables[i]).0 != name),
        },
{
    if let Some((name, tone)) = split_written(normalized(text)) {
        let code = match tone {
            Some(code) => code,
            None => Tone::MISSING,
        };
        lemma_tone_read(normalized(text));
        lemma_tone_codes_in_field();
        lemma_lookup_fits(m, name);
        if let Some((initial, final_)) = m.lookup(name) {
            law_fields_read_back(initial, final_, code);
            let i = choose|i: int| m.is_syllable_row(i, name);
            assert(m.is_syllable_row(i, name));
            assert(m.syllables[i] == (name, initial, final_));
        } else {
            assert forall|i: int| 0 <= i < m.syllables.len() implies (
            #[trigger] m.syllables[i]).0 != name by {
                assert(!m.is_syllable_row(i, name));
            }
        }
    }
}

/// `?`, `*`, `??` and an empty pattern match every value.
pub proof fn law_free_patterns(m: TableModel, value: u16)
    ensures
        compiled_text(m, seq!['?']).accepts(value),
        compiled_text(m, seq!['*']).accepts(value),
        compiled_text(m, seq!['?', '?']).accepts(value),
        compiled_text(m, Seq::empty()).accepts(value),
{
    let any = seq!['?'];
    let star = seq!['*'];
    let two = seq!['?', '?'];
    lemma_read_as_itself(any);
    lemma_read_as_itself(star);
    lemma_read_as_itself(two);
    lemma_read_as_itself(Seq::empty());
    assert(is_glyph(any[0]) && is_glyph(star[0]) && is_glyph(two[0]));
    assert(any.skip(1).len() == 0);
    assert(star.skip(1).len() == 0);
    assert(two.skip(1) =~= any);
    assert(value & (0u16 | 0u16 | 0u16) == 0u16 | 0u16 | 0u16) by (bit_vector);
}

/// `?` and `??` say no tone, so that a digit may follow them.
pub proof fn law_wildcards_are_toneless()
    ensures
        trimmed(seq!['?']) == seq!['?'],
        trimmed(seq!['?', '?']) == seq!['?', '?'],
        is_toneless(normalized(seq!['?'])),
        is_toneless(normalized(seq!['?', '?'])),
{
    lemma_settled_text(seq!['?']);
    lemma_settled_text(seq!['?', '?']);
    lemma_read_as_itself(seq!['?']);
    lemma_read_as_itself(seq!['?', '?']);
}

/// A tone digit by itself asks for the tone and for nothing else.
pub proof fn law_tone_pattern(m: TableModel, digit: char, value: u16)
    requires
        digit_tone(digit) is Some,
        digit != '0',
    ensures
        compiled_text(m, seq![digit]).accepts(value) <==> Some(value & TONE_MASK) == digit_tone(
            digit,
        ),
{
    let text = seq![digit];
    let tone = digit_tone(digit)->0;
    lemma_settled_text(text);
    assert(text.drop_last() =~= Seq::<char>::empty());
    assert(spelling_of(text.drop_last()) =~= Seq::<char>::empty());
    assert(tones_marked(text.drop_last()).len() == 0);
    assert(value & (TONE_MASK | 0u16 | 0u16) == tone | 0u16 | 0u16 <==> value & TONE_MASK == tone)
        by (bit_vector);
}

/// `/` asks for the zero initial and `&` for the pseudo-initial R.
pub proof fn law_special_initials(m: TableModel, value: u16)
    ensures
        compiled_text(m, seq!['/']).accepts(value) <==> value & INITIAL_MASK == Initial::NUL,
        compiled_text(m, seq!['&']).accepts(value) <==> value & INITIAL_MASK == Initial::R,
{
    let zero = seq!['/'];
    let special = seq!['&'];
    lemma_read_as_itself(zero);
    lemma_read_as_itself(special);
    assert(is_glyph(zero[0]) && is_glyph(special[0]));
    assert(zero.skip(1).len() == 0);
    assert(special.skip(1).len() == 0);
    assert(value & (0u16 | INITIAL_MASK | 0u16) == 0u16 | 0x0002u16 | 0u16 <==> value & INITIAL_MASK
        == 0x0002u16) by (bit_vector);
    assert(value & (0u16 | INITIAL_MASK | 0u16) == 0u16 | 0x8010u16 | 0u16 <==> value & INITIAL_MASK
        == 0x8010u16) by (bit_vector);
}

/// A run of syllables is no pattern for a single one.
pub proof fn law_run_is_no_syllable_pattern(m: TableModel)
    ensures
        compiled_text(m, seq!['*', '*']) == Pattern::Never,
{
    let text = seq!['*', '*'];
    lemma_read_as_itself(text);
    assert(is_glyph(text[0]));
    assert(text.skip(1).len() == 1);
}

/// A pattern asks for one code of a part or leaves the part free: it cannot ask for
/// a class of tones, nor for a 声母 together with its variant. If it accepts two
/// values that differ in a part, then that part may be anything.
pub proof fn law_part_is_exact_or_free(m: TableModel, text: Seq<char>, a: u16, b: u16, c: u16)
    requires
        m.valid(),
        compiled_text(m, text).accepts(a),
        compiled_text(m, text).accepts(b),
    ensures
        a & TONE_MASK != b & TONE_MASK && c & SYLLABLE_MASK == a & SYLLABLE_MASK ==> compiled_text(
            m,
            text,
        ).accepts(c),
        a & INITIAL_MASK != b & INITIAL_MASK && c & FINAL_MASK == a & FINAL_MASK && c & TONE_MASK
            == a & TONE_MASK ==> compiled_text(m, text).accepts(c),
        a & FINAL_MASK != b & FINAL_MASK && c & INITIAL_MASK == a & INITIAL_MASK && c & TONE_MASK
            == a & TONE_MASK ==> compiled_text(m, text).accepts(c),
{
    law_compiled_part_by_part(m, text, a);
    law_compiled_part_by_part(m, text, b);
    law_compiled_part_by_part(m, text, c);
    assert(c & SYLLABLE_MASK == a & SYLLABLE_MASK ==> c & INITIAL_MASK == a & INITIAL_MASK && c
        & FINAL_MASK == a & FINAL_MASK) by (bit_vector);
}

} // verus!
