//! Writing a packed syllable out, with its tone mark.
use crate::fields::{tone_digit, tone_of, Tone, TONE_MASK};
use crate::tables::{law_plain_is_a_row, plain, TableModel, Tables};
use crate::text::{chars_of, same_chars, string_of};
use crate::tone::{law_marks_read_back, lone_mark, mark_vowel, unmarked, vowel_mark};
use vstd::prelude::*;

verus! {

/// A vowel that takes the mark where there is no `a`, `o` or `e`.
pub open spec fn is_narrow_vowel(c: char) -> bool {
    c == 'i' || c == 'u' || c == 'ü'
}

/// The position of the last `i`, `u` or `ü`.
pub open spec fn last_narrow_vowel(s: Seq<char>) -> Option<int>
    decreases s.len(),
{
    if s.len() == 0 {
        None
    } else if is_narrow_vowel(s.last()) {
        Some(s.len() - 1)
    } else {
        last_narrow_vowel(s.drop_last())
    }
}

/// The position of the first `c`.
pub open spec fn first_position(s: Seq<char>, c: char) -> Option<int>
    decreases s.len(),
{
    if s.len() == 0 {
        None
    } else if s[0] == c {
        Some(0)
    } else {
        match first_position(s.skip(1), c) {
            Some(i) => Some(i + 1),
            None => None,
        }
    }
}

/// Where the tone mark goes: on the first `a`, else the first `o`, else the first
/// `e`, else the last of `i`, `u` and `ü`.
pub open spec fn mark_position(s: Seq<char>) -> Option<int> {
    if first_position(s, 'a') is Some {
        first_position(s, 'a')
    } else if first_position(s, 'o') is Some {
        first_position(s, 'o')
    } else if first_position(s, 'e') is Some {
        first_position(s, 'e')
    } else {
        last_narrow_vowel(s)
    }
}

/// A spelling that is one letter by itself and carries the mark on that letter.
pub open spec fn is_lone_letter(s: Seq<char>) -> bool {
    s.len() == 1 && (s[0] == 'm' || s[0] == 'n' || s[0] == 'ê')
}

/// A spelling that has no marked form at all.
pub open spec fn has_no_marks(s: Seq<char>) -> bool {
    s == seq!['h', 'm'] || s == seq!['h', 'n', 'g'] || s == seq!['n', 'g']
}

/// A spelling with the mark of a tone, if there is a character for it.
pub open spec fn with_mark(s: Seq<char>, tone: u16) -> Option<Seq<char>> {
    if is_lone_letter(s) {
        match lone_mark(s[0], tone) {
            Some(c) => Some(seq![c]),
            None => None,
        }
    } else if has_no_marks(s) {
        None
    } else {
        match mark_position(s) {
            Some(i) => match vowel_mark(s[i], tone) {
                Some(c) => Some(s.update(i, c)),
                None => None,
            },
            None => None,
        }
    }
}

/// A spelling with its tone: none where none was given, the mark where there is
/// one, and the digit otherwise.
pub open spec fn with_tone(s: Seq<char>, tone: u16) -> Seq<char> {
    if tone == Tone::MISSING || tone == Tone::UNSPEC {
        s
    } else {
        match with_mark(s, tone) {
            Some(marked) => marked,
            None => match tone_digit(tone) {
                Some(digit) => s.push((digit + 48) as char),
                None => s,
            },
        }
    }
}

/// A packed syllable written out.
pub open spec fn written(m: TableModel, value: u16) -> Seq<char> {
    with_tone(m.plain(value), value & TONE_MASK)
}

/// The first position of a character, as it is found from the left.
proof fn lemma_first_position_at(s: Seq<char>, c: char, i: int)
    requires
        0 <= i < s.len(),
        s[i] == c,
        forall|j: int| 0 <= j < i ==> s[j] != c,
    ensures
        first_position(s, c) == Some(i),
    decreases i,
{
    if i > 0 {
        assert forall|j: int| 0 <= j < i - 1 implies s.skip(1)[j] != c by {
            assert(s.skip(1)[j] == s[j + 1]);
        }
        lemma_first_position_at(s.skip(1), c, i - 1);
    }
}

proof fn lemma_first_position_none(s: Seq<char>, c: char)
    requires
        forall|j: int| 0 <= j < s.len() ==> s[j] != c,
    ensures
        first_position(s, c) is None,
    decreases s.len(),
{
    if s.len() > 0 {
        assert forall|j: int| 0 <= j < s.skip(1).len() implies s.skip(1)[j] != c by {
            assert(s.skip(1)[j] == s[j + 1]);
        }
        lemma_first_position_none(s.skip(1), c);
    }
}

/// A first position stands in the text and holds the character.
proof fn lemma_first_position_holds(s: Seq<char>, c: char)
    ensures
        first_position(s, c) matches Some(i) ==> 0 <= i < s.len() && s[i] == c,
    decreases s.len(),
{
    if s.len() > 0 {
        lemma_first_position_holds(s.skip(1), c);
    }
}

proof fn lemma_last_narrow_vowel_holds(s: Seq<char>)
    ensures
        last_narrow_vowel(s) matches Some(i) ==> 0 <= i < s.len() && is_narrow_vowel(s[i]),
    decreases s.len(),
{
    if s.len() > 0 {
        lemma_last_narrow_vowel_holds(s.drop_last());
    }
}

/// The mark goes on a character of the spelling, and that is a vowel.
pub proof fn lemma_mark_position_holds(s: Seq<char>)
    ensures
        mark_position(s) matches Some(i) ==> {
            &&& 0 <= i < s.len()
            &&& s[i] == 'a' || s[i] == 'o' || s[i] == 'e' || is_narrow_vowel(s[i])
        },
{
    lemma_first_position_holds(s, 'a');
    lemma_first_position_holds(s, 'o');
    lemma_first_position_holds(s, 'e');
    lemma_last_narrow_vowel_holds(s);
}

proof fn lemma_first_position_found(s: Seq<char>, c: char, i: int)
    requires
        0 <= i < s.len(),
        s[i] == c,
    ensures
        first_position(s, c) is Some,
    decreases s.len(),
{
    if i > 0 {
        assert(s.skip(1)[i - 1] == s[i]);
        lemma_first_position_found(s.skip(1), c, i - 1);
    }
}

proof fn lemma_last_narrow_vowel_found(s: Seq<char>, i: int)
    requires
        0 <= i < s.len(),
        is_narrow_vowel(s[i]),
    ensures
        last_narrow_vowel(s) is Some,
    decreases s.len(),
{
    if i < s.len() - 1 {
        assert(s.drop_last()[i] == s[i]);
        lemma_last_narrow_vowel_found(s.drop_last(), i);
    }
}

/// Where there is a vowel, there is a place for the mark.
pub proof fn lemma_mark_position_found(s: Seq<char>, i: int)
    requires
        0 <= i < s.len(),
        s[i] == 'a' || s[i] == 'o' || s[i] == 'e' || is_narrow_vowel(s[i]),
    ensures
        mark_position(s) is Some,
{
    if is_narrow_vowel(s[i]) {
        lemma_last_narrow_vowel_found(s, i);
    } else {
        lemma_first_position_found(s, s[i], i);
    }
}

proof fn lemma_last_narrow_vowel_at(s: Seq<char>, i: int)
    requires
        0 <= i < s.len(),
        is_narrow_vowel(s[i]),
        forall|j: int| i < j < s.len() ==> !is_narrow_vowel(#[trigger] s[j]),
    ensures
        last_narrow_vowel(s) == Some(i),
    decreases s.len(),
{
    if i < s.len() - 1 {
        let front = s.drop_last();
        assert(!is_narrow_vowel(s[s.len() - 1]));
        assert forall|j: int| i < j < front.len() implies !is_narrow_vowel(#[trigger] front[j]) by {
            assert(front[j] == s[j]);
        }
        lemma_last_narrow_vowel_at(front, i);
    }
}

/// No such character stands before position `i`.
pub open spec fn none_before(s: Seq<char>, i: int, c: char) -> bool {
    forall|j: int| 0 <= j < i ==> #[trigger] s[j] != c
}

/// The letter at position `i` takes the mark: it is the first `a`; or the first `o`
/// where there is no `a`; or the first `e` where there is neither; or the last of `i`,
/// `u` and `ü` where there is none of the three.
pub open spec fn takes_mark(s: Seq<char>, i: int) -> bool {
    let n = s.len() as int;
    &&& 0 <= i < n
    &&& {
        ||| s[i] == 'a' && none_before(s, i, 'a')
        ||| s[i] == 'o' && none_before(s, n, 'a') && none_before(s, i, 'o')
        ||| s[i] == 'e' && none_before(s, n, 'a') && none_before(s, n, 'o') && none_before(
            s,
            i,
            'e',
        )
        ||| is_narrow_vowel(s[i]) && none_before(s, n, 'a') && none_before(s, n, 'o')
            && none_before(s, n, 'e') && forall|j: int| i < j < n ==> !is_narrow_vowel(
            #[trigger] s[j],
        )
    }
}

/// The mark goes where the rule of pinyin says.
pub proof fn law_mark_placement(s: Seq<char>, i: int)
    requires
        takes_mark(s, i),
    ensures
        mark_position(s) == Some(i),
{
    let n = s.len() as int;
    if none_before(s, n, 'a') {
        lemma_first_position_none(s, 'a');
    }
    if none_before(s, n, 'o') {
        lemma_first_position_none(s, 'o');
    }
    if none_before(s, n, 'e') {
        lemma_first_position_none(s, 'e');
    }
    if is_narrow_vowel(s[i]) {
        lemma_last_narrow_vowel_at(s, i);
    } else {
        lemma_first_position_at(s, s[i], i);
    }
}

/// A vowel of pinyin.
pub open spec fn is_vowel(c: char) -> bool {
    c == 'a' || c == 'o' || c == 'e' || c == 'i' || c == 'u' || c == 'ü'
}

/// In a tone with a mark, the letter that takes it is written in its marked form, and all
/// others stay as they are.
pub proof fn law_marked_by_rule(s: Seq<char>, i: int, tone: u16, mark: char)
    requires
        takes_mark(s, i),
        unmarked(mark) == Some((s[i], tone)),
    ensures
        with_tone(s, tone) == s.update(i, mark),
        with_mark(s, tone) == Some(s.update(i, mark)),
{
    law_mark_placement(s, i);
    law_marks_read_back(mark, s[i], tone);
    assert(!is_lone_letter(s));
    assert(!has_no_marks(s)) by {
        if s == seq!['h', 'm'] || s == seq!['h', 'n', 'g'] || s == seq!['n', 'g'] {
            assert(s[i] == 'h' || s[i] == 'm' || s[i] == 'n' || s[i] == 'g');
        }
    }
}

/// A spelling with a vowel in it has one letter that takes the mark.
pub proof fn law_vowel_takes_mark(s: Seq<char>, v: int)
    requires
        0 <= v < s.len(),
        is_vowel(s[v]),
    ensures
        exists|i: int| takes_mark(s, i),
{
    lemma_mark_position_found(s, v);
    lemma_mark_position_holds(s);
    let i = mark_position(s)->0;
    lemma_first_is_first(s, 'a');
    lemma_first_is_first(s, 'o');
    lemma_first_is_first(s, 'e');
    lemma_last_is_last(s);
    lemma_first_position_holds(s, 'a');
    lemma_first_position_holds(s, 'o');
    lemma_first_position_holds(s, 'e');
    lemma_last_narrow_vowel_holds(s);
    assert(takes_mark(s, i));
}

proof fn lemma_first_is_first(s: Seq<char>, c: char)
    ensures
        match first_position(s, c) {
            Some(i) => none_before(s, i, c),
            None => none_before(s, s.len() as int, c),
        },
    decreases s.len(),
{
    if s.len() > 0 && s[0] != c {
        let rest = s.skip(1);
        lemma_first_is_first(rest, c);
        lemma_first_position_holds(rest, c);
        let n = match first_position(s, c) {
            Some(i) => i,
            None => s.len() as int,
        };
        assert forall|j: int| 0 <= j < n implies #[trigger] s[j] != c by {
            if j > 0 {
                assert(rest[j - 1] == s[j]);
            }
        }
    }
}

proof fn lemma_last_is_last(s: Seq<char>)
    ensures
        last_narrow_vowel(s) matches Some(i) ==> forall|j: int|
            i < j < s.len() ==> !is_narrow_vowel(#[trigger] s[j]),
    decreases s.len(),
{
    if s.len() > 0 && !is_narrow_vowel(s.last()) {
        lemma_last_is_last(s.drop_last());
        lemma_last_narrow_vowel_holds(s.drop_last());
        if let Some(i) = last_narrow_vowel(s) {
            assert forall|j: int| i < j < s.len() implies !is_narrow_vowel(#[trigger] s[j]) by {
                if j < s.len() - 1 {
                    assert(s.drop_last()[j] == s[j]);
                }
            }
        }
    }
}

/// A spelling without a vowel is written with the digit of its tone, but for the letters
/// that are syllables by themselves.
pub proof fn law_digit_without_vowel(s: Seq<char>, tone: u16, digit: u8)
    requires
        forall|i: int| 0 <= i < s.len() ==> !is_vowel(#[trigger] s[i]),
        s != seq!['m'] && s != seq!['n'] && s != seq!['ê'],
        tone_digit(tone) == Some(digit),
    ensures
        with_tone(s, tone) == s.push((digit + 48) as char),
{
    if is_lone_letter(s) {
        assert(s =~= seq!['m'] || s =~= seq!['n'] || s =~= seq!['ê']);
    }
    lemma_mark_position_holds(s);
}

/// The letters that are syllables by themselves take a mark where Unicode has the
/// character, and otherwise the digit.
pub proof fn law_lone_letters(tone: u16, digit: u8)
    requires
        tone_digit(tone) == Some(digit),
    ensures
        with_tone(seq!['m'], tone) == if tone == 0x00A0 {
            seq!['\u{1E3F}']
        } else {
            seq!['m', (digit + 48) as char]
        },
        with_tone(seq!['n'], tone) == if tone == 0x00A0 {
            seq!['\u{0144}']
        } else if tone == 0x00C0 {
            seq!['\u{0148}']
        } else if tone == 0x00E0 {
            seq!['\u{01F9}']
        } else {
            seq!['n', (digit + 48) as char]
        },
        with_tone(seq!['ê'], tone) == if tone == 0x00A0 {
            seq!['\u{1EBF}']
        } else if tone == 0x00E0 {
            seq!['\u{1EC1}']
        } else {
            seq!['ê', (digit + 48) as char]
        },
{
    assert(seq!['m'].push((digit + 48) as char) =~= seq!['m', (digit + 48) as char]);
    assert(seq!['n'].push((digit + 48) as char) =~= seq!['n', (digit + 48) as char]);
    assert(seq!['ê'].push((digit + 48) as char) =~= seq!['ê', (digit + 48) as char]);
}

/// 轻声 is written with its digit, and where no tone was given, or one that is left free
/// or has no digit, the spelling stands as it is.
pub proof fn law_unmarked_tones(s: Seq<char>, tone: u16)
    ensures
        tone == 0x0060 ==> with_tone(s, tone) == s.push('5'),
        tone != 0x0060 && tone != 0x0080 && tone != 0x00A0 && tone != 0x00C0 && tone != 0x00E0
            ==> with_tone(s, tone) == s,
{
}

/// A packed syllable is written as its row spells it, with its own tone.
pub proof fn law_written_from_row(m: TableModel, i: int, value: u16)
    requires
        m.spellings_ordered(),
        0 <= i < m.spellings.len(),
        m.spellings[i].0 == value & 0xFF1F,
    ensures
        written(m, value) == with_tone(m.spellings[i].1, value & 0x00E0),
{
    law_plain_is_a_row(m, value, m.spellings[i].1);
}

/// A value without a row has no letters, only the digit of its tone where it has one.
pub proof fn law_written_without_row(m: TableModel, value: u16)
    requires
        m.spellings_ordered(),
        forall|i: int|
            0 <= i < m.spellings.len() ==> (#[trigger] m.spellings[i]).0 != value & 0xFF1F,
    ensures
        written(m, value) == match tone_digit(value & 0x00E0) {
            Some(digit) => seq![(digit + 48) as char],
            None => Seq::<char>::empty(),
        },
{
    let empty = Seq::<char>::empty();
    law_plain_is_a_row(m, value, empty);
    assert(m.plain(value) =~= empty);
    if let Some(digit) = tone_digit(value & 0x00E0) {
        law_digit_without_vowel(empty, value & 0x00E0, digit);
        assert(empty.push((digit + 48) as char) =~= seq![(digit + 48) as char]);
    }
}

/// Find the first `c`.
fn position_of(chars: &[char], c: char) -> (r: Option<usize>)
    ensures
        match r {
            Some(i) => i < chars.len() && first_position(chars@, c) == Some(i as int),
            None => first_position(chars@, c) is None,
        },
{
    let mut i: usize = 0;
    while i < chars.len()
        invariant
            i <= chars.len(),
            forall|j: int| 0 <= j < i ==> chars@[j] != c,
        decreases chars.len() - i,
    {
        if chars[i] == c {
            proof {
                lemma_first_position_at(chars@, c, i as int);
            }
            return Some(i);
        }
        i = i + 1;
    }
    proof {
        lemma_first_position_none(chars@, c);
    }
    None
}

/// Find the last `i`, `u` or `ü`.
fn last_position(chars: &[char]) -> (r: Option<usize>)
    ensures
        match r {
            Some(i) => i < chars.len() && last_narrow_vowel(chars@) == Some(i as int),
            None => last_narrow_vowel(chars@) is None,
        },
{
    let mut end: usize = chars.len();
    assert(chars@.take(end as int) =~= chars@);
    while end > 0
        invariant
            end <= chars.len(),
            last_narrow_vowel(chars@) == last_narrow_vowel(chars@.take(end as int)),
        decreases end,
    {
        let c: char = chars[end - 1];
        assert(chars@.take(end as int).last() == c);
        if c == 'i' || c == 'u' || c == 'ü' {
            return Some(end - 1);
        }
        assert(chars@.take(end as int).drop_last() =~= chars@.take(end - 1));
        end = end - 1;
    }
    None
}

/// Where the tone mark goes.
fn target_position(chars: &[char]) -> (r: Option<usize>)
    ensures
        match r {
            Some(i) => i < chars.len() && mark_position(chars@) == Some(i as int),
            None => mark_position(chars@) is None,
        },
{
    match position_of(chars, 'a') {
        Some(i) => Some(i),
        None => match position_of(chars, 'o') {
            Some(i) => Some(i),
            None => match position_of(chars, 'e') {
                Some(i) => Some(i),
                None => last_position(chars),
            },
        },
    }
}

/// The mark on a letter that is a syllable by itself.
fn mark_lone_letter(letter: char, tone: Tone) -> (r: Option<char>)
    ensures
        r == lone_mark(letter, tone@),
{
    match (letter, tone.bits()) {
        ('m', 0x00A0) => Some('ḿ'),
        ('n', 0x00A0) => Some('ń'),
        ('n', 0x00C0) => Some('ň'),
        ('n', 0x00E0) => Some('ǹ'),
        ('ê', 0x00A0) => Some('ế'),
        ('ê', 0x00E0) => Some('ề'),
        _ => None,
    }
}

/// Apply a tone mark to a spelling, if there is a character for it.
pub fn marked(spelling: &str, tone: Tone) -> (r: Option<String>)
    ensures
        match r {
            Some(text) => with_mark(spelling@, tone@) == Some(text@),
            None => with_mark(spelling@, tone@) is None,
        },
{
    let mut chars: Vec<char> = chars_of(spelling);
    // The syllabic nasals and `ê` carry the mark on themselves.
    if chars.len() == 1 && (chars[0] == 'm' || chars[0] == 'n' || chars[0] == 'ê') {
        return match mark_lone_letter(chars[0], tone) {
            Some(c) => {
                let mut text: String = String::new();
                text.push(c);
                assert(text@ =~= seq![c]);
                Some(text)
            },
            None => None,
        };
    }
    // `hm`, `hng` and `ng` have no precomposed tone forms at all.
    if same_chars(chars.as_slice(), &['h', 'm']) || same_chars(chars.as_slice(), &['h', 'n', 'g'])
        || same_chars(chars.as_slice(), &['n', 'g']) {
        return None;
    }
    // Otherwise the mark goes on `a`, else `o`, else `e`, else the last vowel, which
    // is what makes `iu` mark the `u` and `ui` mark the `i`.
    match target_position(chars.as_slice()) {
        Some(target) => match mark_vowel(chars[target], tone) {
            Some(c) => {
                chars.set(target, c);
                Some(string_of(chars.as_slice()))
            },
            None => None,
        },
        None => None,
    }
}

/// The character that writes a digit from 1 to 5.
fn digit_char(digit: u8) -> (r: char)
    requires
        1 <= digit <= 5,
    ensures
        r == (digit + 48) as char,
{
    (digit + 48) as char
}

/// The canonical spelling with its tone, e.g. `zhōng`.
///
/// Where a tone has no precomposed character the digit form is used instead, so
/// `ê` in 上声 renders as `ê3`.
pub fn render(tables: &Tables, value: u16) -> (r: String)
    ensures
        r@ == written(tables@, value),
{
    let spelling: &str = plain(tables, value);
    let tone: Tone = tone_of(value);
    if tone.bits() == Tone::MISSING || tone.bits() == Tone::UNSPEC {
        return spelling.to_string();
    }
    match marked(spelling, tone) {
        Some(text) => text,
        None => match tone.digit() {
            Some(digit) => {
                let mut text: String = spelling.to_string();
                text.push(digit_char(digit));
                text
            },
            None => spelling.to_string(),
        },
    }
}

} // verus!
