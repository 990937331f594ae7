//! Text as sequences of characters: white space, words, letter case and order.
use vstd::prelude::*;
use vstd::slice::slice_subrange;

verus! {

// --- the parts of std that the text functions rest on -------------------------

/// The characters with the Unicode property White_Space.
pub open spec fn is_space(c: char) -> bool {
    ||| '\u{0009}' <= c <= '\u{000D}'
    ||| c == '\u{0020}'
    ||| c == '\u{0085}'
    ||| c == '\u{00A0}'
    ||| c == '\u{1680}'
    ||| '\u{2000}' <= c <= '\u{200A}'
    ||| c == '\u{2028}'
    ||| c == '\u{2029}'
    ||| c == '\u{202F}'
    ||| c == '\u{205F}'
    ||| c == '\u{3000}'
}

/// `char::is_whitespace` tells exactly the characters with the Unicode property
/// White_Space, listed by [`is_space`].
pub assume_specification[ char::is_whitespace ](c: char) -> (r: bool)
    ensures
        r == is_space(c),
;

/// `String::push` appends one character.
pub assume_specification[ String::push ](s: &mut String, c: char)
    ensures
        final(s)@ == old(s)@.push(c),
;

/// The lower-case form of a text, by the Unicode case mapping.
pub uninterp spec fn unicode_lowercase(s: Seq<char>) -> Seq<char>;

/// The letters of pinyin outside ASCII, all in lower case, and the combining tone
/// marks, which have no case.
pub open spec fn is_pinyin_mark(c: char) -> bool {
    ||| c == 'ü' || c == 'ê'
    ||| c == 'ā' || c == 'á' || c == 'ǎ' || c == 'à'
    ||| c == 'ē' || c == 'é' || c == 'ě' || c == 'è'
    ||| c == 'ī' || c == 'í' || c == 'ǐ' || c == 'ì'
    ||| c == 'ō' || c == 'ó' || c == 'ǒ' || c == 'ò'
    ||| c == 'ū' || c == 'ú' || c == 'ǔ' || c == 'ù'
    ||| c == 'ǖ' || c == 'ǘ' || c == 'ǚ' || c == 'ǜ'
    ||| c == 'ń' || c == 'ň' || c == 'ǹ' || c == 'ḿ' || c == 'ế' || c == 'ề'
    ||| c == '\u{0304}' || c == '\u{0301}' || c == '\u{030C}' || c == '\u{0300}'
}

/// A capital of ASCII or of pinyin in lower case; any other character as it is.
pub open spec fn letter_lower(c: char) -> char {
    if 'A' <= c <= 'Z' {
        (c as u8 + 32) as char
    } else {
        match c {
            'Ü' => 'ü',
            'Ê' => 'ê',
            'Ā' => 'ā',
            'Á' => 'á',
            'Ǎ' => 'ǎ',
            'À' => 'à',
            'Ē' => 'ē',
            'É' => 'é',
            'Ě' => 'ě',
            'È' => 'è',
            'Ī' => 'ī',
            'Í' => 'í',
            'Ǐ' => 'ǐ',
            'Ì' => 'ì',
            'Ō' => 'ō',
            'Ó' => 'ó',
            'Ǒ' => 'ǒ',
            'Ò' => 'ò',
            'Ū' => 'ū',
            'Ú' => 'ú',
            'Ǔ' => 'ǔ',
            'Ù' => 'ù',
            'Ǖ' => 'ǖ',
            'Ǘ' => 'ǘ',
            'Ǚ' => 'ǚ',
            'Ǜ' => 'ǜ',
            'Ń' => 'ń',
            'Ň' => 'ň',
            'Ǹ' => 'ǹ',
            'Ḿ' => 'ḿ',
            'Ế' => 'ế',
            'Ề' => 'ề',
            _ => c,
        }
    }
}

/// An ASCII character, or a letter or mark of pinyin in either case.
pub open spec fn is_pinyin_char(c: char) -> bool {
    c <= '\u{007F}' || is_pinyin_mark(letter_lower(c))
}

/// A text of such characters only.
pub open spec fn is_pinyin_text(s: Seq<char>) -> bool {
    forall|i: int| 0 <= i < s.len() ==> is_pinyin_char(#[trigger] s[i])
}

/// A text with its capitals of ASCII and of pinyin in lower case.
pub open spec fn letters_lowered(s: Seq<char>) -> Seq<char> {
    Seq::new(s.len(), |i: int| letter_lower(s[i]))
}

/// The lower-case form of a text: letter by letter where it holds ASCII and pinyin
/// characters only. With other characters in it, it is the full Unicode mapping of
/// the text, which the case of its ASCII and pinyin letters does not change.
pub open spec fn lowered(s: Seq<char>) -> Seq<char> {
    if is_pinyin_text(s) {
        letters_lowered(s)
    } else {
        unicode_lowercase(letters_lowered(s))
    }
}

/// `str::to_lowercase` gives the Unicode lower-case form of the text. Of a text of
/// ASCII and pinyin characters that is the same text with its capitals turned into
/// small letters. Of any other text it is a function of the text alone, and the same
/// whichever case the ASCII and pinyin letters in the text have: each of those
/// capitals has the one small letter, and a letter is cased in both of its forms, so
/// that what ends a word stays the same.
pub assume_specification[ str::to_lowercase ](s: &str) -> (r: String)
    ensures
        is_pinyin_text(s@) ==> r@ == letters_lowered(s@),
        !is_pinyin_text(s@) ==> r@ == unicode_lowercase(letters_lowered(s@)),
;

// --- characters of a text -----------------------------------------------------

/// The characters of a text.
pub fn chars_of(s: &str) -> (r: Vec<char>)
    ensures
        r@ == s@,
{
    let mut r: Vec<char> = Vec::new();
    for c in it: s.chars()
        invariant
            r@ == s@.take(it.index()),
            it.seq() == s@,
    {
        r.push(c);
    }
    r
}

/// A text from its characters.
pub fn string_of(chars: &[char]) -> (r: String)
    ensures
        r@ == chars@,
{
    let mut r: String = String::new();
    let mut i: usize = 0;
    while i < chars.len()
        invariant
            i <= chars.len(),
            r@ == chars@.take(i as int),
        decreases chars.len() - i,
    {
        r.push(chars[i]);
        i = i + 1;
    }
    assert(chars@.take(i as int) =~= chars@);
    r
}

/// Whether two runs of characters are the same.
pub fn same_chars(a: &[char], b: &[char]) -> (r: bool)
    ensures
        r == (a@ == b@),
{
    if a.len() != b.len() {
        return false;
    }
    let mut i: usize = 0;
    while i < a.len()
        invariant
            a.len() == b.len(),
            i <= a.len(),
            forall|j: int| 0 <= j < i ==> a@[j] == b@[j],
        decreases a.len() - i,
    {
        if a[i] != b[i] {
            return false;
        }
        i = i + 1;
    }
    assert(a@ =~= b@);
    true
}

/// Whether a run of characters is a given text.
pub fn same_text(a: &[char], text: &str) -> (r: bool)
    ensures
        r == (a@ == text@),
{
    let b: Vec<char> = chars_of(text);
    same_chars(a, b.as_slice())
}

// --- white space --------------------------------------------------------------

/// The text without its leading white space.
pub open spec fn trimmed_front(s: Seq<char>) -> Seq<char>
    decreases s.len(),
{
    if s.len() > 0 && is_space(s[0]) {
        trimmed_front(s.skip(1))
    } else {
        s
    }
}

/// The text without its trailing white space.
pub open spec fn trimmed_back(s: Seq<char>) -> Seq<char>
    decreases s.len(),
{
    if s.len() > 0 && is_space(s.last()) {
        trimmed_back(s.drop_last())
    } else {
        s
    }
}

/// The text without leading and trailing white space.
pub open spec fn trimmed(s: Seq<char>) -> Seq<char> {
    trimmed_back(trimmed_front(s))
}

/// Drop leading and trailing white space.
pub fn trim(s: &str) -> (r: String)
    ensures
        r@ == trimmed(s@),
{
    let chars: Vec<char> = chars_of(s);
    let mut start: usize = 0;
    proof {
        assert(chars@.skip(0) =~= chars@);
    }
    while start < chars.len() && chars[start].is_whitespace()
        invariant
            start <= chars.len(),
            chars@ == s@,
            trimmed_front(s@) == trimmed_front(chars@.skip(start as int)),
        decreases chars.len() - start,
    {
        assert(chars@.skip(start as int).skip(1) =~= chars@.skip(start + 1));
        start = start + 1;
    }
    let mut end: usize = chars.len();
    proof {
        assert(chars@.skip(start as int) =~= chars@.subrange(start as int, end as int));
        assert(trimmed_front(s@) == chars@.subrange(start as int, end as int));
    }
    while start < end && chars[end - 1].is_whitespace()
        invariant
            start <= end <= chars.len(),
            trimmed(s@) == trimmed_back(chars@.subrange(start as int, end as int)),
        decreases end - start,
    {
        assert(chars@.subrange(start as int, end as int).drop_last() =~= chars@.subrange(
            start as int,
            end - 1,
        ));
        end = end - 1;
    }
    string_of(slice_subrange(chars.as_slice(), start, end))
}

/// The text ends in an ASCII digit.
pub open spec fn ends_in_digit(s: Seq<char>) -> bool {
    s.len() > 0 && '0' <= s.last() <= '9'
}

/// A text as it is read: without white space around it, and in lower case. A digit at
/// the end has no case, and what stands before it is put in lower case by itself.
pub open spec fn normalized(s: Seq<char>) -> Seq<char> {
    let core = trimmed(s);
    if ends_in_digit(core) {
        lowered(core.drop_last()).push(core.last())
    } else {
        lowered(core)
    }
}

/// Bring a text into the form in which it is read.
pub fn normalize(s: &str) -> (r: String)
    ensures
        r@ == normalized(s@),
{
    let core: String = trim(s);
    let chars: Vec<char> = chars_of(core.as_str());
    let n: usize = chars.len();
    if n > 0 && '0' <= chars[n - 1] && chars[n - 1] <= '9' {
        let front: String = string_of(slice_subrange(chars.as_slice(), 0, n - 1));
        assert(front@ =~= core@.drop_last());
        let mut r: String = front.to_lowercase();
        r.push(chars[n - 1]);
        r
    } else {
        core.to_lowercase()
    }
}

/// A text of ASCII and pinyin characters is read letter by letter.
pub proof fn lemma_normalized_pinyin(s: Seq<char>)
    requires
        is_pinyin_text(trimmed(s)),
    ensures
        normalized(s) == letters_lowered(trimmed(s)),
{
    let core = trimmed(s);
    if ends_in_digit(core) {
        let front = core.drop_last();
        assert forall|i: int| 0 <= i < front.len() implies is_pinyin_char(#[trigger] front[i]) by {
            assert(front[i] == core[i]);
        }
        assert(letters_lowered(front).push(core.last()) =~= letters_lowered(core));
    }
}

/// How many characters stand before the first white space.
pub open spec fn word_length(s: Seq<char>) -> nat
    decreases s.len(),
{
    if s.len() > 0 && !is_space(s[0]) {
        1 + word_length(s.skip(1))
    } else {
        0
    }
}

/// The words of a text: its longest runs of characters other than white space.
pub open spec fn words(s: Seq<char>) -> Seq<Seq<char>>
    decreases s.len(),
{
    if s.len() == 0 {
        Seq::empty()
    } else if is_space(s[0]) {
        words(s.skip(1))
    } else {
        proof {
            lemma_word_length_bound(s);
        }
        seq![s.take(word_length(s) as int)] + words(s.skip(word_length(s) as int))
    }
}

pub proof fn lemma_word_length_bound(s: Seq<char>)
    ensures
        word_length(s) <= s.len(),
    decreases s.len(),
{
    if s.len() > 0 {
        lemma_word_length_bound(s.skip(1));
    }
}

proof fn lemma_word_length_at(s: Seq<char>, n: int)
    requires
        0 <= n <= s.len(),
        forall|i: int| 0 <= i < n ==> !is_space(#[trigger] s[i]),
        n == s.len() || is_space(s[n]),
    ensures
        word_length(s) == n,
    decreases n,
{
    if n > 0 {
        let rest = s.skip(1);
        assert forall|i: int| 0 <= i < n - 1 implies !is_space(#[trigger] rest[i]) by {
            assert(rest[i] == s[i + 1]);
        }
        lemma_word_length_at(rest, n - 1);
    }
}

/// What a list of texts holds.
pub open spec fn contents(texts: Seq<String>) -> Seq<Seq<char>> {
    Seq::new(texts.len(), |i: int| texts[i]@)
}

/// Split a text at its white space.
pub fn split_words(s: &str) -> (r: Vec<String>)
    ensures
        contents(r@) == words(s@),
{
    let chars: Vec<char> = chars_of(s);
    let mut r: Vec<String> = Vec::new();
    let mut i: usize = 0;
    proof {
        assert(chars@.skip(0) =~= chars@);
        assert(contents(r@) + words(s@) =~= words(s@));
    }
    while i < chars.len()
        invariant
            i <= chars.len(),
            contents(r@) + words(chars@.skip(i as int)) == words(s@),
        decreases chars.len() - i,
    {
        let ghost rest = chars@.skip(i as int);
        if chars[i].is_whitespace() {
            assert(rest.skip(1) =~= chars@.skip(i + 1));
            i = i + 1;
        } else {
            let mut end: usize = i + 1;
            while end < chars.len() && !chars[end].is_whitespace()
                invariant
                    i < end <= chars.len(),
                    forall|k: int| i <= k < end ==> !is_space(#[trigger] chars@[k]),
                decreases chars.len() - end,
            {
                end = end + 1;
            }
            let word: String = string_of(slice_subrange(chars.as_slice(), i, end));
            let ghost before = contents(r@);
            r.push(word);
            proof {
                lemma_word_length_at(rest, end - i);
                assert(rest.take(end - i) =~= chars@.subrange(i as int, end as int));
                assert(rest.skip(end - i) =~= chars@.skip(end as int));
                assert(contents(r@) =~= before.push(word@));
                assert(before + (seq![word@] + words(chars@.skip(end as int))) =~= before.push(
                    word@,
                ) + words(chars@.skip(end as int)));
            }
            i = end;
        }
    }
    proof {
        assert(chars@.skip(i as int) =~= Seq::<char>::empty());
        assert(contents(r@) + Seq::<Seq<char>>::empty() =~= contents(r@));
    }
    r
}

/// White space separates words: the words of a text with white space in it are those
/// before it and then those after it.
pub proof fn law_words_at_spaces(a: Seq<char>, space: char, b: Seq<char>)
    requires
        is_space(space),
    ensures
        words(a.push(space) + b) == words(a) + words(b),
    decreases a.len(),
{
    let text = a.push(space) + b;
    if a.len() == 0 {
        assert(text[0] == space);
        assert(text.skip(1) =~= b);
        assert(words(a) + words(b) =~= words(b));
    } else if is_space(a[0]) {
        assert(text[0] == a[0]);
        assert(text.skip(1) =~= a.skip(1).push(space) + b);
        law_words_at_spaces(a.skip(1), space, b);
    } else {
        let n = word_length(a) as int;
        lemma_word_length_bound(a);
        lemma_word_holds_no_space(a);
        assert forall|i: int| 0 <= i < n implies !is_space(#[trigger] text[i]) by {
            assert(text[i] == a[i]);
        }
        assert(text[n] == if n < a.len() { a[n] } else { space });
        lemma_word_length_at(text, n);
        assert(text[0] == a[0]);
        assert(text.take(n) =~= a.take(n));
        assert(text.skip(n) =~= a.skip(n).push(space) + b);
        law_words_at_spaces(a.skip(n), space, b);
        assert(words(text) =~= words(a) + words(b));
    }
}

proof fn lemma_word_holds_no_space(s: Seq<char>)
    ensures
        word_length(s) <= s.len(),
        forall|i: int| 0 <= i < word_length(s) ==> !is_space(#[trigger] s[i]),
        word_length(s) < s.len() ==> is_space(s[word_length(s) as int]),
    decreases s.len(),
{
    if s.len() > 0 && !is_space(s[0]) {
        let rest = s.skip(1);
        lemma_word_holds_no_space(rest);
        assert forall|i: int| 0 <= i < word_length(s) implies !is_space(#[trigger] s[i]) by {
            if i > 0 {
                assert(s[i] == rest[i - 1]);
            }
        }
    }
}

/// A text without white space is one word.
pub proof fn law_single_word(s: Seq<char>)
    requires
        s.len() > 0,
        forall|i: int| 0 <= i < s.len() ==> !is_space(#[trigger] s[i]),
    ensures
        words(s) == seq![s],
{
    let n = s.len() as int;
    assert(!is_space(s[0]));
    lemma_word_length_at(s, n);
    assert(s.take(n) =~= s);
    assert(s.skip(n).len() == 0);
    assert(words(s.skip(n)) =~= Seq::<Seq<char>>::empty());
    assert(words(s) =~= seq![s]);
}

// --- order --------------------------------------------------------------------

/// The alphabetical order by code point.
pub open spec fn comes_before(a: Seq<char>, b: Seq<char>) -> bool
    decreases a.len(),
{
    if b.len() == 0 {
        false
    } else if a.len() == 0 {
        true
    } else if a[0] != b[0] {
        a[0] < b[0]
    } else {
        comes_before(a.skip(1), b.skip(1))
    }
}

/// How two texts stand to each other in alphabetical order.
#[derive(Clone, Copy, PartialEq, Eq, Debug, Structural)]
pub enum Order {
    Before,
    Same,
    After,
}

/// Put two runs of characters in order.
pub fn order_of(a: &[char], b: &[char]) -> (r: Order)
    ensures
        match r {
            Order::Before => comes_before(a@, b@),
            Order::Same => a@ == b@,
            Order::After => comes_before(b@, a@),
        },
{
    let mut i: usize = 0;
    proof {
        assert(a@.skip(0) =~= a@);
        assert(b@.skip(0) =~= b@);
    }
    while i < a.len() && i < b.len()
        invariant
            i <= a.len(),
            i <= b.len(),
            a@.take(i as int) == b@.take(i as int),
            comes_before(a@, b@) == comes_before(a@.skip(i as int), b@.skip(i as int)),
            comes_before(b@, a@) == comes_before(b@.skip(i as int), a@.skip(i as int)),
        decreases a.len() - i,
    {
        if a[i] < b[i] {
            return Order::Before;
        }
        if b[i] < a[i] {
            return Order::After;
        }
        proof {
            assert(a@.skip(i as int).skip(1) =~= a@.skip(i + 1));
            assert(b@.skip(i as int).skip(1) =~= b@.skip(i + 1));
            assert(a@.take(i + 1) =~= a@.take(i as int).push(a@[i as int]));
            assert(b@.take(i + 1) =~= b@.take(i as int).push(b@[i as int]));
        }
        i = i + 1;
    }
    if i < b.len() {
        Order::Before
    } else if i < a.len() {
        Order::After
    } else {
        proof {
            assert(a@.take(i as int) =~= a@);
            assert(b@.take(i as int) =~= b@);
        }
        Order::Same
    }
}

/// Nothing comes before itself.
pub proof fn lemma_order_irreflexive(a: Seq<char>)
    ensures
        !comes_before(a, a),
    decreases a.len(),
{
    if a.len() > 0 {
        lemma_order_irreflexive(a.skip(1));
    }
}

/// The order is transitive.
pub proof fn lemma_order_transitive(a: Seq<char>, b: Seq<char>, c: Seq<char>)
    requires
        comes_before(a, b),
        comes_before(b, c),
    ensures
        comes_before(a, c),
    decreases a.len(),
{
    if a.len() > 0 && b.len() > 0 && c.len() > 0 && a[0] == b[0] && b[0] == c[0] {
        lemma_order_transitive(a.skip(1), b.skip(1), c.skip(1));
    }
}

/// A text that goes on after another comes after it.
pub proof fn law_order_of_prefix(a: Seq<char>, b: Seq<char>)
    ensures
        comes_before(a, a + b) <==> b.len() > 0,
        !comes_before(a + b, a),
    decreases a.len(),
{
    if a.len() > 0 {
        assert((a + b).skip(1) =~= a.skip(1) + b);
        law_order_of_prefix(a.skip(1), b);
    }
}

/// The first character in which two texts differ decides their order.
pub proof fn law_order_at_difference(
    common: Seq<char>,
    a: char,
    x: Seq<char>,
    b: char,
    y: Seq<char>,
)
    requires
        a != b,
    ensures
        comes_before(common.push(a) + x, common.push(b) + y) <==> (a as u32) < (b as u32),
    decreases common.len(),
{
    let s = common.push(a) + x;
    let t = common.push(b) + y;
    if common.len() > 0 {
        assert(s.skip(1) =~= common.skip(1).push(a) + x);
        assert(t.skip(1) =~= common.skip(1).push(b) + y);
        law_order_at_difference(common.skip(1), a, x, b, y);
    } else {
        assert(s[0] == a && t[0] == b);
    }
}

/// Trimming leaves the part of a text between its first and its last character that is
/// no white space, and nothing of a blank text.
pub proof fn law_trimmed_is_the_core(s: Seq<char>, i: int, j: int)
    requires
        0 <= i <= j <= s.len(),
        forall|k: int| 0 <= k < i ==> is_space(#[trigger] s[k]),
        forall|k: int| j <= k < s.len() ==> is_space(#[trigger] s[k]),
        i < j ==> !is_space(s[i]) && !is_space(s[j - 1]),
    ensures
        trimmed(s) == s.subrange(i, j),
    decreases s.len(),
{
    if i < j {
        if i > 0 {
            let rest = s.skip(1);
            assert(is_space(s[0]));
            assert forall|k: int| 0 <= k < i - 1 implies is_space(#[trigger] rest[k]) by {
                assert(rest[k] == s[k + 1]);
            }
            assert forall|k: int| j - 1 <= k < rest.len() implies is_space(#[trigger] rest[k]) by {
                assert(rest[k] == s[k + 1]);
            }
            law_trimmed_is_the_core(rest, i - 1, j - 1);
            assert(rest.subrange(i - 1, j - 1) =~= s.subrange(i, j));
        } else {
            lemma_trimmed_back_core(s, j);
            assert(s.take(j) =~= s.subrange(0, j));
        }
    } else {
        if s.len() > 0 {
            let rest = s.skip(1);
            assert(is_space(s[0]));
            assert forall|k: int| 0 <= k < rest.len() implies is_space(#[trigger] rest[k]) by {
                assert(rest[k] == s[k + 1]);
            }
            law_trimmed_is_the_core(rest, 0, 0);
        }
        assert(trimmed(s) =~= s.subrange(i, j));
    }
}

proof fn lemma_trimmed_back_core(s: Seq<char>, j: int)
    requires
        0 < j <= s.len(),
        forall|k: int| j <= k < s.len() ==> is_space(#[trigger] s[k]),
        !is_space(s[j - 1]),
    ensures
        trimmed_back(s) == s.take(j),
    decreases s.len(),
{
    if j < s.len() {
        let front = s.drop_last();
        assert(is_space(s[s.len() - 1]));
        assert forall|k: int| j <= k < front.len() implies is_space(#[trigger] front[k]) by {
            assert(front[k] == s[k]);
        }
        lemma_trimmed_back_core(front, j);
        assert(front.take(j) =~= s.take(j));
    } else {
        assert(s.take(j) =~= s);
    }
}

/// A text with nothing but white space in it has no words.
pub proof fn law_no_words(s: Seq<char>)
    requires
        forall|i: int| 0 <= i < s.len() ==> is_space(#[trigger] s[i]),
    ensures
        words(s) == Seq::<Seq<char>>::empty(),
    decreases s.len(),
{
    if s.len() > 0 {
        let rest = s.skip(1);
        assert(is_space(s[0]));
        assert forall|i: int| 0 <= i < rest.len() implies is_space(#[trigger] rest[i]) by {
            assert(rest[i] == s[i + 1]);
        }
        law_no_words(rest);
    }
}

/// A text with other characters than those of ASCII and pinyin, and no digit at its end,
/// is read as the Unicode mapping has it.
pub proof fn law_other_text_is_lowered(s: Seq<char>)
    requires
        trimmed(s) == s,
        !is_pinyin_text(s),
        !('0' <= s.last() <= '9'),
    ensures
        normalized(s) == unicode_lowercase(letters_lowered(s)),
{
}

/// A digit at the end of a text is kept, and the rest is put in lower case by itself.
pub proof fn law_digit_is_kept(s: Seq<char>, digit: char)
    requires
        trimmed(s.push(digit)) == s.push(digit),
        '0' <= digit <= '9',
    ensures
        normalized(s.push(digit)) == lowered(s).push(digit),
{
    assert(s.push(digit).drop_last() =~= s);
}

} // verus!
