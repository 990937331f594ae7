//! Tone marks: putting them on letters, taking them off, and splitting a written
//! syllable into its spelling and its tone.
use crate::fields::{is_tone_code, tone_digit, Tone};
use crate::text::{chars_of, ends_in_digit};
use vstd::prelude::*;
use vstd::slice::slice_subrange;

verus! {

// --- marks on single letters --------------------------------------------------

/// The tone-marked form of a vowel, for the tones 1 to 4.
pub open spec fn vowel_mark(vowel: char, tone: u16) -> Option<char> {
    if tone == Tone::T1 {
        match vowel {
            'a' => Some('ā'),
            'e' => Some('ē'),
            'i' => Some('ī'),
            'o' => Some('ō'),
            'u' => Some('ū'),
            'ü' => Some('ǖ'),
            _ => None,
        }
    } else if tone == Tone::T2 {
        match vowel {
            'a' => Some('á'),
            'e' => Some('é'),
            'i' => Some('í'),
            'o' => Some('ó'),
            'u' => Some('ú'),
            'ü' => Some('ǘ'),
            _ => None,
        }
    } else if tone == Tone::T3 {
        match vowel {
            'a' => Some('ǎ'),
            'e' => Some('ě'),
            'i' => Some('ǐ'),
            'o' => Some('ǒ'),
            'u' => Some('ǔ'),
            'ü' => Some('ǚ'),
            _ => None,
        }
    } else if tone == Tone::T4 {
        match vowel {
            'a' => Some('à'),
            'e' => Some('è'),
            'i' => Some('ì'),
            'o' => Some('ò'),
            'u' => Some('ù'),
            'ü' => Some('ǜ'),
            _ => None,
        }
    } else {
        None
    }
}

/// The tone-marked form of a letter that is a syllable by itself: the nasals `m`
/// and `n`, and `ê`. Only some of the tones have a character.
pub open spec fn lone_mark(letter: char, tone: u16) -> Option<char> {
    if letter == 'm' && tone == Tone::T2 {
        Some('ḿ')
    } else if letter == 'n' && tone == Tone::T2 {
        Some('ń')
    } else if letter == 'n' && tone == Tone::T3 {
        Some('ň')
    } else if letter == 'n' && tone == Tone::T4 {
        Some('ǹ')
    } else if letter == 'ê' && tone == Tone::T2 {
        Some('ế')
    } else if letter == 'ê' && tone == Tone::T4 {
        Some('ề')
    } else {
        None
    }
}

/// `marked` is the letter `base` carrying the tone `tone`.
pub open spec fn is_marked_form(marked: char, base: char, tone: u16) -> bool {
    vowel_mark(base, tone) == Some(marked) || lone_mark(base, tone) == Some(marked)
}

/// The tone-marked form of a single vowel.
pub fn mark_vowel(vowel: char, tone: Tone) -> (r: Option<char>)
    ensures
        r == vowel_mark(vowel, tone@),
{
    let code: u16 = tone.bits();
    match (vowel, code) {
        ('a', 0x0080) => Some('ā'),
        ('a', 0x00A0) => Some('á'),
        ('a', 0x00C0) => Some('ǎ'),
        ('a', 0x00E0) => Some('à'),
        ('e', 0x0080) => Some('ē'),
        ('e', 0x00A0) => Some('é'),
        ('e', 0x00C0) => Some('ě'),
        ('e', 0x00E0) => Some('è'),
        ('i', 0x0080) => Some('ī'),
        ('i', 0x00A0) => Some('í'),
        ('i', 0x00C0) => Some('ǐ'),
        ('i', 0x00E0) => Some('ì'),
        ('o', 0x0080) => Some('ō'),
        ('o', 0x00A0) => Some('ó'),
        ('o', 0x00C0) => Some('ǒ'),
        ('o', 0x00E0) => Some('ò'),
        ('u', 0x0080) => Some('ū'),
        ('u', 0x00A0) => Some('ú'),
        ('u', 0x00C0) => Some('ǔ'),
        ('u', 0x00E0) => Some('ù'),
        ('ü', 0x0080) => Some('ǖ'),
        ('ü', 0x00A0) => Some('ǘ'),
        ('ü', 0x00C0) => Some('ǚ'),
        ('ü', 0x00E0) => Some('ǜ'),
        _ => None,
    }
}

/// The plain letter and the tone of a tone-marked letter.
pub open spec fn unmarked(c: char) -> Option<(char, u16)> {
    match c {
        'ā' => Some(('a', Tone::T1)),
        'á' => Some(('a', Tone::T2)),
        'ǎ' => Some(('a', Tone::T3)),
        'à' => Some(('a', Tone::T4)),
        'ē' => Some(('e', Tone::T1)),
        'é' => Some(('e', Tone::T2)),
        'ě' => Some(('e', Tone::T3)),
        'è' => Some(('e', Tone::T4)),
        'ī' => Some(('i', Tone::T1)),
        'í' => Some(('i', Tone::T2)),
        'ǐ' => Some(('i', Tone::T3)),
        'ì' => Some(('i', Tone::T4)),
        'ō' => Some(('o', Tone::T1)),
        'ó' => Some(('o', Tone::T2)),
        'ǒ' => Some(('o', Tone::T3)),
        'ò' => Some(('o', Tone::T4)),
        'ū' => Some(('u', Tone::T1)),
        'ú' => Some(('u', Tone::T2)),
        'ǔ' => Some(('u', Tone::T3)),
        'ù' => Some(('u', Tone::T4)),
        'ǖ' => Some(('ü', Tone::T1)),
        'ǘ' => Some(('ü', Tone::T2)),
        'ǚ' => Some(('ü', Tone::T3)),
        'ǜ' => Some(('ü', Tone::T4)),
        'ń' => Some(('n', Tone::T2)),
        'ň' => Some(('n', Tone::T3)),
        'ǹ' => Some(('n', Tone::T4)),
        'ḿ' => Some(('m', Tone::T2)),
        'ế' => Some(('ê', Tone::T2)),
        'ề' => Some(('ê', Tone::T4)),
        _ => None,
    }
}

/// Every tone code fits its field.
pub proof fn lemma_tone_codes_in_field()
    ensures
        is_tone_code(Tone::MISSING),
        is_tone_code(Tone::UNSPEC),
        is_tone_code(Tone::NEUTRAL),
        is_tone_code(Tone::T1),
        is_tone_code(Tone::T2),
        is_tone_code(Tone::T3),
        is_tone_code(Tone::T4),
{
    assert(0x0000u16 & 0x00E0 == 0x0000 && 0x0020u16 & 0x00E0 == 0x0020 && 0x0060u16 & 0x00E0
        == 0x0060 && 0x0080u16 & 0x00E0 == 0x0080 && 0x00A0u16 & 0x00E0 == 0x00A0 && 0x00C0u16
        & 0x00E0 == 0x00C0 && 0x00E0u16 & 0x00E0 == 0x00E0) by (bit_vector);
}

/// A tone-marked letter back to its plain form and the tone it carried.
pub fn demark(ch: char) -> (r: Option<(char, Tone)>)
    ensures
        match r {
            Some((base, tone)) => unmarked(ch) == Some((base, tone@)),
            None => unmarked(ch) is None,
        },
{
    let (base, code): (char, u16) = match ch {
        'ā' => ('a', Tone::T1),
        'á' => ('a', Tone::T2),
        'ǎ' => ('a', Tone::T3),
        'à' => ('a', Tone::T4),
        'ē' => ('e', Tone::T1),
        'é' => ('e', Tone::T2),
        'ě' => ('e', Tone::T3),
        'è' => ('e', Tone::T4),
        'ī' => ('i', Tone::T1),
        'í' => ('i', Tone::T2),
        'ǐ' => ('i', Tone::T3),
        'ì' => ('i', Tone::T4),
        'ō' => ('o', Tone::T1),
        'ó' => ('o', Tone::T2),
        'ǒ' => ('o', Tone::T3),
        'ò' => ('o', Tone::T4),
        'ū' => ('u', Tone::T1),
        'ú' => ('u', Tone::T2),
        'ǔ' => ('u', Tone::T3),
        'ù' => ('u', Tone::T4),
        'ǖ' => ('ü', Tone::T1),
        'ǘ' => ('ü', Tone::T2),
        'ǚ' => ('ü', Tone::T3),
        'ǜ' => ('ü', Tone::T4),
        'ń' => ('n', Tone::T2),
        'ň' => ('n', Tone::T3),
        'ǹ' => ('n', Tone::T4),
        'ḿ' => ('m', Tone::T2),
        'ế' => ('ê', Tone::T2),
        'ề' => ('ê', Tone::T4),
        _ => {
            return None;
        },
    };
    proof {
        lemma_tone_codes_in_field();
    }
    Some((base, Tone::from_bits(code)))
}

/// The tone a combining mark stands for: U+0304 macron, U+0301 acute, U+030C
/// caron, U+0300 grave.
pub open spec fn combining_mark_tone(c: char) -> Option<u16> {
    match c {
        '\u{0304}' => Some(Tone::T1),
        '\u{0301}' => Some(Tone::T2),
        '\u{030C}' => Some(Tone::T3),
        '\u{0300}' => Some(Tone::T4),
        _ => None,
    }
}

/// The combining tone marks, which stand in where a letter has no precomposed
/// form.
pub fn combining_tone(ch: char) -> (r: Option<Tone>)
    ensures
        match r {
            Some(tone) => combining_mark_tone(ch) == Some(tone@),
            None => combining_mark_tone(ch) is None,
        },
{
    let code: u16 = match ch {
        '\u{0304}' => Tone::T1,
        '\u{0301}' => Tone::T2,
        '\u{030C}' => Tone::T3,
        '\u{0300}' => Tone::T4,
        _ => {
            return None;
        },
    };
    proof {
        lemma_tone_codes_in_field();
    }
    Some(Tone::from_bits(code))
}

// --- a written syllable -------------------------------------------------------

/// The tone that one character of a written syllable carries.
pub open spec fn tone_on(c: char) -> Option<u16> {
    match unmarked(c) {
        Some((_, tone)) => Some(tone),
        None => combining_mark_tone(c),
    }
}

/// What one character adds to the spelling: a marked letter its plain form, a
/// combining mark nothing, `v` the `ü` it stands in for, and any other character
/// itself.
pub open spec fn letters_of(c: char) -> Seq<char> {
    match unmarked(c) {
        Some((base, _)) => seq![base],
        None => if combining_mark_tone(c) is Some {
            Seq::empty()
        } else if c == 'v' {
            seq!['ü']
        } else {
            seq![c]
        },
    }
}

/// The spelling of a text, its tone marks taken off.
pub open spec fn spelling_of(s: Seq<char>) -> Seq<char>
    decreases s.len(),
{
    if s.len() == 0 {
        Seq::empty()
    } else {
        spelling_of(s.drop_last()) + letters_of(s.last())
    }
}

/// The tones marked in a text, in order.
pub open spec fn tones_marked(s: Seq<char>) -> Seq<u16>
    decreases s.len(),
{
    if s.len() == 0 {
        Seq::empty()
    } else {
        match tone_on(s.last()) {
            Some(tone) => tones_marked(s.drop_last()).push(tone),
            None => tones_marked(s.drop_last()),
        }
    }
}

/// The tone that a digit names: 0 is the explicit wildcard, 5 is 轻声.
pub open spec fn digit_tone(digit: char) -> Option<u16> {
    match digit {
        '0' => Some(Tone::UNSPEC),
        '1' => Some(Tone::T1),
        '2' => Some(Tone::T2),
        '3' => Some(Tone::T3),
        '4' => Some(Tone::T4),
        '5' => Some(Tone::NEUTRAL),
        _ => None,
    }
}

/// A lower-case text read as a spelling and the tone written with it. A tone may be
/// written once, as a trailing digit from 0 to 5 or as a mark; nothing else is
/// readable.
pub open spec fn split_written(s: Seq<char>) -> Option<(Seq<char>, Option<u16>)> {
    if ends_in_digit(s) {
        let body = s.drop_last();
        if digit_tone(s.last()) is Some && tones_marked(body).len() == 0 {
            Some((spelling_of(body), digit_tone(s.last())))
        } else {
            None
        }
    } else if tones_marked(s).len() == 0 {
        Some((spelling_of(s), None))
    } else if tones_marked(s).len() == 1 {
        Some((spelling_of(s), Some(tones_marked(s)[0])))
    } else {
        None
    }
}

/// A lower-case text that is read as a spelling with no tone written.
pub open spec fn is_toneless(s: Seq<char>) -> bool {
    split_written(s) matches Some((_, tone)) && tone is None
}

proof fn lemma_tones_marked_grow(s: Seq<char>, n: int)
    requires
        0 <= n <= s.len(),
    ensures
        tones_marked(s.take(n)).len() <= tones_marked(s).len(),
    decreases s.len() - n,
{
    if n < s.len() {
        assert(s.take(n + 1).drop_last() =~= s.take(n));
        lemma_tones_marked_grow(s, n + 1);
    } else {
        assert(s.take(n) =~= s);
    }
}

/// The spelling of a run of characters and the tone marked in it, or `None` where
/// more than one tone is marked.
fn read_marks(body: &[char]) -> (r: Option<(Vec<char>, Option<Tone>)>)
    ensures
        match r {
            Some((spelling, Some(tone))) => {
                &&& spelling@ == spelling_of(body@)
                &&& tones_marked(body@) == seq![tone@]
            },
            Some((spelling, None)) => {
                &&& spelling@ == spelling_of(body@)
                &&& tones_marked(body@).len() == 0
            },
            None => tones_marked(body@).len() > 1,
        },
{
    let mut spelling: Vec<char> = Vec::new();
    let mut marked_tone: Option<Tone> = None;
    let mut i: usize = 0;
    while i < body.len()
        invariant
            i <= body.len(),
            spelling@ == spelling_of(body@.take(i as int)),
            match marked_tone {
                Some(tone) => tones_marked(body@.take(i as int)) == seq![tone@],
                None => tones_marked(body@.take(i as int)).len() == 0,
            },
        decreases body.len() - i,
    {
        let ch: char = body[i];
        proof {
            assert(body@.take(i + 1).drop_last() =~= body@.take(i as int));
            assert(body@.take(i + 1).last() == ch);
            lemma_tones_marked_grow(body@, i + 1);
        }
        if let Some((base, tone)) = demark(ch) {
            if marked_tone.is_some() {
                return None;
            }
            marked_tone = Some(tone);
            spelling.push(base);
        } else if let Some(tone) = combining_tone(ch) {
            if marked_tone.is_some() {
                return None;
            }
            marked_tone = Some(tone);
        } else if ch == 'v' {
            spelling.push('ü');
        } else {
            spelling.push(ch);
        }
        i = i + 1;
    }
    assert(body@.take(i as int) =~= body@);
    Some((spelling, marked_tone))
}

/// The tone that a trailing digit names, or `None` for a digit above 5.
fn read_digit(digit: char) -> (r: Option<Tone>)
    ensures
        match r {
            Some(tone) => digit_tone(digit) == Some(tone@),
            None => digit_tone(digit) is None,
        },
{
    let code: u16 = match digit {
        '0' => Tone::UNSPEC,
        '1' => Tone::T1,
        '2' => Tone::T2,
        '3' => Tone::T3,
        '4' => Tone::T4,
        '5' => Tone::NEUTRAL,
        _ => {
            return None;
        },
    };
    proof {
        lemma_tone_codes_in_field();
    }
    Some(Tone::from_bits(code))
}

/// The outcome of splitting a written syllable: its spelling, and the tone that was
/// written with it.
pub open spec fn split_result(r: Option<(Vec<char>, Option<Tone>)>) -> Option<
    (Seq<char>, Option<u16>),
> {
    match r {
        Some((spelling, Some(tone))) => Some((spelling@, Some(tone@))),
        Some((spelling, None)) => Some((spelling@, None)),
        None => None,
    }
}

/// Split a written syllable, already trimmed and in lower case, into its toneless
/// spelling and its tone.
///
/// Reads `zhong`, `zhōng` and `zhong1`, treats `v` as `ü`, and strips the combining
/// marks used for the nasals. A tone given twice is rejected rather than guessed
/// at.
pub fn split_lowered(text: &str) -> (r: Option<(Vec<char>, Option<Tone>)>)
    ensures
        split_result(r) == split_written(text@),
{
    let chars: Vec<char> = chars_of(text);
    let n: usize = chars.len();
    if n > 0 && '0' <= chars[n - 1] && chars[n - 1] <= '9' {
        let body: &[char] = slice_subrange(chars.as_slice(), 0, n - 1);
        assert(body@ =~= text@.drop_last());
        match read_digit(chars[n - 1]) {
            Some(tone) => match read_marks(body) {
                Some((spelling, None)) => Some((spelling, Some(tone))),
                _ => None,
            },
            None => None,
        }
    } else {
        read_marks(chars.as_slice())
    }
}

// --- laws of the marks --------------------------------------------------------

/// Taking a mark off undoes putting it on, and only that: a character is read as a
/// letter with a tone exactly when it is the marked form of that letter in that
/// tone.
pub proof fn law_marks_read_back(marked: char, base: char, tone: u16)
    ensures
        unmarked(marked) == Some((base, tone)) <==> is_marked_form(marked, base, tone),
{
}

/// The spelling and the marks of a text are those of its parts, one after the other.
pub proof fn law_marks_concat(a: Seq<char>, b: Seq<char>)
    ensures
        spelling_of(a + b) == spelling_of(a) + spelling_of(b),
        tones_marked(a + b) == tones_marked(a) + tones_marked(b),
    decreases b.len(),
{
    if b.len() == 0 {
        assert(a + b =~= a);
        assert(spelling_of(a) + spelling_of(b) =~= spelling_of(a));
        assert(tones_marked(a) + tones_marked(b) =~= tones_marked(a));
    } else {
        law_marks_concat(a, b.drop_last());
        assert((a + b).drop_last() =~= a + b.drop_last());
        assert((a + b).last() == b.last());
        assert(spelling_of(a + b) =~= spelling_of(a) + spelling_of(b));
        assert(tones_marked(a + b) =~= tones_marked(a) + tones_marked(b));
    }
}

/// `v` is the keyboard stand-in for `ü`: writing one for the other changes nothing.
pub proof fn law_v_is_u_umlaut(s: Seq<char>, i: int)
    requires
        0 <= i < s.len(),
        s[i] == 'v',
    ensures
        split_written(s) == split_written(s.update(i, 'ü')),
{
    let t = s.update(i, 'ü');
    lemma_v_in_marks(s, i);
    if i < s.len() - 1 {
        assert(t.drop_last() =~= s.drop_last().update(i, 'ü'));
        lemma_v_in_marks(s.drop_last(), i);
    } else {
        assert(!ends_in_digit(s));
        assert(!ends_in_digit(t));
    }
}

proof fn lemma_v_in_marks(s: Seq<char>, i: int)
    requires
        0 <= i < s.len(),
        s[i] == 'v',
    ensures
        spelling_of(s) == spelling_of(s.update(i, 'ü')),
        tones_marked(s) == tones_marked(s.update(i, 'ü')),
    decreases s.len(),
{
    let t = s.update(i, 'ü');
    if i < s.len() - 1 {
        assert(t.drop_last() =~= s.drop_last().update(i, 'ü'));
        lemma_v_in_marks(s.drop_last(), i);
    } else {
        assert(t.drop_last() =~= s.drop_last());
    }
}

/// A tone written twice is not readable: neither two marks, nor a mark and a digit.
pub proof fn law_tone_written_once(s: Seq<char>)
    ensures
        tones_marked(s).len() > 1 ==> split_written(s) is None,
        ends_in_digit(s) && tones_marked(s).len() > 0 ==> split_written(s) is None,
{
}

/// A digit after a text with no tone written is the tone, if there is a tone of that
/// number, and leaves the spelling as it was.
pub proof fn law_digit_is_the_tone(s: Seq<char>, digit: char)
    requires
        is_toneless(s),
        '0' <= digit <= '9',
    ensures
        split_written(s.push(digit)) == match digit_tone(digit) {
            Some(tone) => Some(((split_written(s)->0).0, Some(tone))),
            None => None,
        },
{
    assert(s.push(digit).drop_last() =~= s);
}

/// The tone of a marked letter is that of its accent: macron, acute, caron and grave
/// are the tones 1 to 4, character by character, and no other character is a marked
/// letter.
pub proof fn law_accents(c: char)
    ensures
        unmarked(c) == match c {
            '\u{0101}' => Some(('a', 0x0080u16)),
            '\u{00E1}' => Some(('a', 0x00A0u16)),
            '\u{01CE}' => Some(('a', 0x00C0u16)),
            '\u{00E0}' => Some(('a', 0x00E0u16)),
            '\u{0113}' => Some(('e', 0x0080u16)),
            '\u{00E9}' => Some(('e', 0x00A0u16)),
            '\u{011B}' => Some(('e', 0x00C0u16)),
            '\u{00E8}' => Some(('e', 0x00E0u16)),
            '\u{012B}' => Some(('i', 0x0080u16)),
            '\u{00ED}' => Some(('i', 0x00A0u16)),
            '\u{01D0}' => Some(('i', 0x00C0u16)),
            '\u{00EC}' => Some(('i', 0x00E0u16)),
            '\u{014D}' => Some(('o', 0x0080u16)),
            '\u{00F3}' => Some(('o', 0x00A0u16)),
            '\u{01D2}' => Some(('o', 0x00C0u16)),
            '\u{00F2}' => Some(('o', 0x00E0u16)),
            '\u{016B}' => Some(('u', 0x0080u16)),
            '\u{00FA}' => Some(('u', 0x00A0u16)),
            '\u{01D4}' => Some(('u', 0x00C0u16)),
            '\u{00F9}' => Some(('u', 0x00E0u16)),
            '\u{01D6}' => Some(('\u{00FC}', 0x0080u16)),
            '\u{01D8}' => Some(('\u{00FC}', 0x00A0u16)),
            '\u{01DA}' => Some(('\u{00FC}', 0x00C0u16)),
            '\u{01DC}' => Some(('\u{00FC}', 0x00E0u16)),
            '\u{0144}' => Some(('n', 0x00A0u16)),
            '\u{0148}' => Some(('n', 0x00C0u16)),
            '\u{01F9}' => Some(('n', 0x00E0u16)),
            '\u{1E3F}' => Some(('m', 0x00A0u16)),
            '\u{1EBF}' => Some(('\u{00EA}', 0x00A0u16)),
            '\u{1EC1}' => Some(('\u{00EA}', 0x00E0u16)),
            _ => None::<(char, u16)>,
        },
{
}

/// The combining marks are macron, acute, caron and grave, for the tones 1 to 4.
pub proof fn law_combining_accents(c: char)
    ensures
        combining_mark_tone(c) == match c {
            '\u{0304}' => Some(0x0080u16),
            '\u{0301}' => Some(0x00A0u16),
            '\u{030C}' => Some(0x00C0u16),
            '\u{0300}' => Some(0x00E0u16),
            _ => None::<u16>,
        },
{
}

/// The tones 1 to 4 have the codes from 0x80 up in steps of 0x20, 轻声 is written 5 and
/// has 0x60, the wildcard is written 0 and has 0x20, and no other character is a tone.
pub proof fn law_tone_digits(digit: char)
    ensures
        '1' <= digit <= '4' ==> digit_tone(digit) == Some(
            (0x0060 + 0x0020 * (digit as int - '0' as int)) as u16,
        ),
        digit == '5' ==> digit_tone(digit) == Some(0x0060u16),
        digit == '0' ==> digit_tone(digit) == Some(0x0020u16),
        digit < '0' || digit > '5' ==> digit_tone(digit) is None,
{
}

/// The digit that a tone is written with is the one that names it, and only the tones 1
/// to 5 are written with one.
pub proof fn law_tone_is_written_as_named(code: u16, digit: u8)
    ensures
        tone_digit(code) == Some(digit) <==> 1 <= digit <= 5 && digit_tone((digit + 48) as char)
            == Some(code),
{
}

/// A character that is no marked letter, no combining mark and no `v`.
pub open spec fn is_unaccented(c: char) -> bool {
    unmarked(c) is None && combining_mark_tone(c) is None && c != 'v'
}

/// A text of such characters is its own spelling and marks no tone.
pub proof fn law_unaccented_text(s: Seq<char>)
    requires
        forall|i: int| 0 <= i < s.len() ==> is_unaccented(#[trigger] s[i]),
    ensures
        spelling_of(s) == s,
        tones_marked(s).len() == 0,
        s.len() == 0 || !('0' <= s.last() <= '9') ==> split_written(s) == Some((s, None::<u16>)),
    decreases s.len(),
{
    if s.len() > 0 {
        let front = s.drop_last();
        assert forall|i: int| 0 <= i < front.len() implies is_unaccented(#[trigger] front[i]) by {
            assert(front[i] == s[i]);
        }
        law_unaccented_text(front);
        assert(is_unaccented(s[s.len() - 1]));
    }
    assert(spelling_of(s) =~= s);
}

/// A marked letter is read as its base letter with the combining mark behind it, wherever
/// it stands in a text.
pub proof fn law_precomposed(before: Seq<char>, c: char, base: char, mark: char, after: Seq<char>)
    requires
        unmarked(c) is Some,
        unmarked(c) == (match combining_mark_tone(mark) {
            Some(tone) => Some((base, tone)),
            None => None,
        }),
    ensures
        split_written(before.push(c) + after) == split_written(
            before.push(base).push(mark) + after,
        ),
{
    let one = before.push(c) + after;
    let two = before.push(base).push(mark) + after;
    lemma_precomposed_marks(before, c, base, mark, after);
    if after.len() > 0 {
        assert(one.last() == after.last() && two.last() == after.last());
        assert(one.drop_last() =~= before.push(c) + after.drop_last());
        assert(two.drop_last() =~= before.push(base).push(mark) + after.drop_last());
        lemma_precomposed_marks(before, c, base, mark, after.drop_last());
    } else {
        assert(one.last() == c && two.last() == mark);
    }
}

proof fn lemma_base_is_unaccented(c: char)
    ensures
        unmarked(c) matches Some((base, _)) ==> is_unaccented(base),
{
}

proof fn lemma_precomposed_marks(
    before: Seq<char>,
    c: char,
    base: char,
    mark: char,
    after: Seq<char>,
)
    requires
        unmarked(c) is Some,
        unmarked(c) == (match combining_mark_tone(mark) {
            Some(tone) => Some((base, tone)),
            None => None,
        }),
    ensures
        spelling_of(before.push(c) + after) == spelling_of(before.push(base).push(mark) + after),
        tones_marked(before.push(c) + after) == tones_marked(before.push(base).push(mark) + after),
{
    law_marks_concat(before.push(c), after);
    law_marks_concat(before.push(base).push(mark), after);
    assert(before.push(c).drop_last() =~= before);
    assert(before.push(base).push(mark).drop_last() =~= before.push(base));
    assert(before.push(base).drop_last() =~= before);
    lemma_base_is_unaccented(c);
    assert(spelling_of(before.push(base)) =~= spelling_of(before).push(base));
    assert(tones_marked(before.push(base)) == tones_marked(before));
    assert(unmarked(mark) is None);
    assert(spelling_of(before.push(base).push(mark)) =~= spelling_of(before).push(base));
    assert(spelling_of(before.push(c)) =~= spelling_of(before).push(base));
}

/// A combining mark put anywhere in a text with no tone written is the tone, and leaves
/// the spelling as it was.
pub proof fn law_mark_is_the_tone(before: Seq<char>, mark: char, after: Seq<char>)
    requires
        is_toneless(before + after),
        combining_mark_tone(mark) is Some,
    ensures
        split_written(before.push(mark) + after) == Some(
            ((split_written(before + after)->0).0, combining_mark_tone(mark)),
        ),
{
    let text = before.push(mark) + after;
    lemma_mark_added(before, mark, after);
    if after.len() > 0 {
        assert(text.last() == after.last() && (before + after).last() == after.last());
    } else {
        assert(text.last() == mark);
    }
    law_marks_concat(before, after);
    assert(tones_marked(text) =~= seq![combining_mark_tone(mark)->0]);
}

proof fn lemma_mark_added(before: Seq<char>, mark: char, after: Seq<char>)
    requires
        combining_mark_tone(mark) is Some,
    ensures
        spelling_of(before.push(mark) + after) == spelling_of(before + after),
        tones_marked(before.push(mark) + after) == tones_marked(before).push(
            combining_mark_tone(mark)->0,
        ) + tones_marked(after),
{
    law_marks_concat(before.push(mark), after);
    law_marks_concat(before, after);
    assert(before.push(mark).drop_last() =~= before);
    assert(spelling_of(before.push(mark)) =~= spelling_of(before));
}

/// A combining mark before the end of a text that has its tone already makes it
/// unreadable.
pub proof fn law_no_second_tone(before: Seq<char>, mark: char, after: Seq<char>)
    requires
        split_written(before + after) matches Some((_, tone)) && tone is Some,
        combining_mark_tone(mark) is Some,
        after.len() > 0,
    ensures
        split_written(before.push(mark) + after) is None,
{
    let text = before.push(mark) + after;
    let plain = before + after;
    assert(text.last() == after.last() && plain.last() == after.last());
    assert(text.drop_last() =~= before.push(mark) + after.drop_last());
    assert(plain.drop_last() =~= before + after.drop_last());
    lemma_mark_added(before, mark, after);
    lemma_mark_added(before, mark, after.drop_last());
    law_marks_concat(before, after);
}

/// A digit after a text whose tone is marked makes it unreadable.
pub proof fn law_no_digit_after_mark(s: Seq<char>, digit: char)
    requires
        split_written(s) matches Some((_, tone)) && tone is Some,
        !ends_in_digit(s),
        '0' <= digit <= '9',
    ensures
        split_written(s.push(digit)) is None,
{
    assert(s.push(digit).drop_last() =~= s);
}

/// Exactly the vowels take the marks of `mark_vowel`, each the form that is read as it in
/// that tone.
pub proof fn law_vowel_marks(vowel: char, tone: u16, marked: char)
    ensures
        vowel_mark(vowel, tone) == Some(marked) <==> unmarked(marked) == Some((vowel, tone)) && (
        vowel == 'a' || vowel == 'e' || vowel == 'i' || vowel == 'o' || vowel == 'u' || vowel
            == 'ü'),
{
}

/// The outcome of splitting is its spelling and its tone, as they are.
pub proof fn law_split_result(spelling: Vec<char>, tone: Tone)
    ensures
        split_result(Some((spelling, Some(tone)))) == Some((spelling@, Some(tone@))),
        split_result(Some((spelling, None::<Tone>))) == Some((spelling@, None::<u16>)),
        split_result(None) is None,
{
}

} // verus!
