//! The operations row by row, over columns with nulls.
use crate::fields::{tone_digit, SYLLABLE_MASK};
use crate::laws::{
    law_final_pattern, law_initial_with_wildcard, law_syllable_pattern, law_three_ways_agree,
    law_tone_pattern, law_value_matches_its_text, law_written_reads_back,
};
use crate::parse::{parse, read_text, ParseError};
use crate::pattern::{compile_pattern, compiled_text, final_spelled, is_written_initial, Pattern};
use crate::render::{law_written_from_row, render, with_tone, written};
use crate::sequence::{
    compile_sequence, compiled_sequence, is_single_word, law_phrase_with_run,
    law_phrase_word_by_word, match_sequence, sequence_accepts, Elem,
};
use crate::tables::{code_named, is_spelling, TableModel, Tables};
use crate::text::words;
use crate::tone::{digit_tone, law_tone_digits};
use vstd::prelude::*;
use vstd::slice::slice_subrange;

verus! {

// --- columns ------------------------------------------------------------------

/// A row of a validity mask is set. Without a mask every row is valid.
pub open spec fn mask_is_set(mask: Option<&[u64]>, row: int) -> bool {
    match mask {
        Some(words) => words@[row / 64] & (1u64 << ((row % 64) as u64)) != 0,
        None => true,
    }
}

/// A validity mask has a bit for each of the first `rows` rows.
pub open spec fn mask_covers(mask: Option<&[u64]>, rows: int) -> bool {
    mask matches Some(words) ==> rows <= words@.len() * 64
}

/// Read one validity bit out of a null mask.
///
/// The bit of a row is `mask[row / 64] & (1 << (row % 64))`, and a column holding no
/// nulls carries no mask, meaning that all rows are valid.
pub fn row_is_valid(validity: Option<&[u64]>, row: usize) -> (r: bool)
    requires
        mask_covers(validity, row + 1),
    ensures
        r == mask_is_set(validity, row as int),
        validity matches Some(words) ==> r == ((words@[row as int / 64] >> ((row % 64) as u64)) & 1
            == 1),
{
    proof {
        law_mask_bit(validity, row as int);
    }
    match validity {
        Some(words) => {
            let bit: u64 = (row % 64) as u64;
            words[row / 64] & (1u64 << bit) != 0
        },
        None => true,
    }
}

/// A column: its values, and the mask that tells which of them are there.
pub struct Column<'a, T> {
    pub data: &'a [T],
    pub validity: Option<&'a [u64]>,
}

impl<'a, T: Copy> Column<'a, T> {
    /// The mask covers the values.
    pub open spec fn covered(self) -> bool {
        mask_covers(self.validity, self.data@.len() as int)
    }

    /// The value of each row, or `None` where the row is null.
    pub open spec fn cells(self) -> Seq<Option<T>> {
        Seq::new(
            self.data@.len(),
            |i: int|
                if mask_is_set(self.validity, i) {
                    Some(self.data@[i])
                } else {
                    None
                },
        )
    }

    /// One row of the column.
    pub fn get(&self, row: usize) -> (r: Option<T>)
        requires
            self.covered(),
            row < self.data@.len(),
        ensures
            r == self.cells()[row as int],
            r == if mask_is_set(self.validity, row as int) {
                Some(self.data@[row as int])
            } else {
                None
            },
    {
        if row_is_valid(self.validity, row) {
            Some(self.data[row])
        } else {
            None
        }
    }
}

/// What a column of texts holds.
pub open spec fn texts_of(rows: Seq<Option<String>>) -> Seq<Option<Seq<char>>> {
    Seq::new(
        rows.len(),
        |i: int|
            match rows[i] {
                Some(text) => Some(text@),
                None => None,
            },
    )
}

// --- matching one syllable ----------------------------------------------------

/// A text that names no legal pattern.
#[derive(Debug)]
pub struct PatternError {
    pub pattern: String,
}

/// What is said of a text that names no legal pattern.
pub open spec fn pattern_error_message(pattern: Seq<char>) -> Seq<char> {
    "Invalid pinyin pattern: '"@ + pattern + "'"@
}

impl PatternError {
    /// The message for the user.
    pub fn message(&self) -> (r: String)
        ensures
            r@ == pattern_error_message(self.pattern@),
    {
        let mut r: String = "Invalid pinyin pattern: '".to_string();
        r.append(self.pattern.as_str());
        r.append("'");
        r
    }
}

/// The answer for one row: null where the value or the pattern is null.
pub open spec fn match_answer(m: TableModel, value: Option<u16>, pattern: Option<Seq<char>>) -> Option<
    bool,
> {
    match (value, pattern) {
        (Some(value), Some(text)) => Some(compiled_text(m, text).accepts(value)),
        _ => None,
    }
}

/// A row whose pattern is needed and names nothing legal.
pub open spec fn is_illegal_match(
    m: TableModel,
    value: Option<u16>,
    pattern: Option<Seq<char>>,
) -> bool {
    value is Some && (pattern matches Some(text) && compiled_text(m, text) is Never)
}

/// Match every row of a column of syllables against its pattern.
///
/// A pattern that names nothing legal is a typo far more often than it is an intent
/// to match nothing, so the first one stops the whole match. A query repeats one
/// literal pattern on every row, and compiling it is the expensive half of the work,
/// so the last one is remembered.
pub fn match_rows(
    tables: &Tables,
    values: &Column<u16>,
    patterns: &[Option<String>],
) -> (r: Result<Vec<Option<bool>>, PatternError>)
    requires
        values.covered(),
        values.data@.len() == patterns@.len(),
    ensures
        ({
            let n = patterns@.len();
            let cells = values.cells();
            let texts = texts_of(patterns@);
            match r {
                Ok(answers) => {
                    &&& forall|i: int|
                        0 <= i < n ==> !is_illegal_match(tables@, #[trigger] cells[i], texts[i])
                    &&& answers@ == Seq::new(n, |i: int| match_answer(tables@, cells[i], texts[i]))
                    &&& forall|i: int|
                        0 <= i < n ==> match patterns@[i] {
                            Some(text) if mask_is_set(values.validity, i) => match compiled_text(
                                tables@,
                                text@,
                            ) {
                                Pattern::Mask { mask, expect } => #[trigger] answers@[i] == Some(
                                    values.data@[i] & mask == expect,
                                ),
                                Pattern::Never => false,
                            },
                            _ => answers@[i] is None,
                        }
                },
                Err(error) => exists|i: int|
                    {
                        &&& 0 <= i < n
                        &&& is_illegal_match(tables@, #[trigger] cells[i], texts[i])
                        &&& forall|j: int|
                            0 <= j < i ==> !is_illegal_match(
                                tables@,
                                #[trigger] cells[j],
                                texts[j],
                            )
                        &&& Some(error.pattern@) == texts[i]
                    },
            }
        }),
{
    let ghost cells = values.cells();
    let ghost texts = texts_of(patterns@);
    let mut answers: Vec<Option<bool>> = Vec::new();
    let mut cached_key: String = String::new();
    let mut cached: Option<Pattern> = None;
    let mut i: usize = 0;
    while i < patterns.len()
        invariant
            i <= patterns.len(),
            values.covered(),
            values.data@.len() == patterns@.len(),
            cells == values.cells(),
            texts == texts_of(patterns@),
            cached matches Some(pattern) ==> pattern == compiled_text(tables@, cached_key@)
                && pattern !is Never,
            forall|j: int|
                0 <= j < i ==> !is_illegal_match(tables@, #[trigger] cells[j], texts[j]),
            answers@ == Seq::new(
                i as nat,
                |j: int| match_answer(tables@, cells[j], texts[j]),
            ),
        decreases patterns.len() - i,
    {
        let value: Option<u16> = values.get(i);
        let mut answer: Option<bool> = None;
        if let Some(value) = value {
            if let Some(text) = &patterns[i] {
                assert(texts[i as int] == Some(text@));
                let reuse: bool = match cached {
                    Some(_) => cached_key == *text,
                    None => false,
                };
                if !reuse {
                    let pattern: Pattern = compile_pattern(tables, text.as_str());
                    if pattern == Pattern::Never {
                        assert(is_illegal_match(tables@, cells[i as int], texts[i as int]));
                        return Err(PatternError { pattern: text.clone() });
                    }
                    cached_key = text.clone();
                    cached = Some(pattern);
                }
                if let Some(pattern) = cached {
                    answer = Some(pattern.matches(value));
                }
            }
        }
        assert(answer == match_answer(tables@, cells[i as int], texts[i as int]));
        answers.push(answer);
        assert(answers@ =~= Seq::new(
            (i + 1) as nat,
            |j: int| match_answer(tables@, cells[j], texts[j]),
        ));
        i = i + 1;
    }
    assert forall|i: int| 0 <= i < patterns@.len() implies match patterns@[i] {
        Some(text) if mask_is_set(values.validity, i) => match compiled_text(tables@, text@) {
            Pattern::Mask { mask, expect } => #[trigger] answers@[i] == Some(
                values.data@[i] & mask == expect,
            ),
            Pattern::Never => false,
        },
        _ => answers@[i] is None,
    } by {
        assert(!is_illegal_match(tables@, cells[i], texts[i]));
        law_cells(*values, i);
        law_texts(patterns@, i);
    }
    Ok(answers)
}

// --- matching lists -----------------------------------------------------------

/// The syllables of a list entry, which is an offset and a length into the column
/// of all elements.
pub open spec fn list_cells(elements: Seq<Option<u16>>, entry: (usize, usize)) -> Seq<Option<u16>> {
    elements.subrange(entry.0 as int, entry.0 + entry.1)
}

/// Some element is null.
pub open spec fn has_null(cells: Seq<Option<u16>>) -> bool {
    exists|i: int| 0 <= i < cells.len() && (#[trigger] cells[i]) is None
}

/// The elements that are there.
pub open spec fn present(cells: Seq<Option<u16>>) -> Seq<u16> {
    Seq::new(cells.len(), |i: int| cells[i]->0)
}

/// The answer for one row of lists: null where the list, one of its elements or the
/// pattern is null.
pub open spec fn list_answer(
    m: TableModel,
    entry: Option<(usize, usize)>,
    elements: Seq<Option<u16>>,
    pattern: Option<Seq<char>>,
) -> Option<bool> {
    match (entry, pattern) {
        (Some(entry), Some(text)) => {
            let cells = list_cells(elements, entry);
            match compiled_sequence(m, text) {
                Some(elems) if !has_null(cells) => Some(sequence_accepts(elems, present(cells))),
                _ => None,
            }
        },
        _ => None,
    }
}

/// A row whose pattern is needed and holds a word that names nothing legal.
pub open spec fn is_illegal_list_match(
    m: TableModel,
    entry: Option<(usize, usize)>,
    pattern: Option<Seq<char>>,
) -> bool {
    entry is Some && (pattern matches Some(text) && compiled_sequence(m, text) is None)
}

/// Every entry that is there lies within the elements.
pub open spec fn entries_in_range(entries: Seq<Option<(usize, usize)>>, elements: int) -> bool {
    forall|i: int|
        0 <= i < entries.len() ==> ((#[trigger] entries[i]) matches Some(entry) ==> entry.0
            + entry.1 <= elements)
}

/// The elements of a list, or `None` where one of them is null.
fn list_elements(elements: &Column<u16>, start: usize, length: usize) -> (r: Option<Vec<u16>>)
    requires
        elements.covered(),
        start + length <= elements.data@.len(),
    ensures
        match r {
            Some(values) => {
                &&& !has_null(list_cells(elements.cells(), (start, length)))
                &&& values@ == present(list_cells(elements.cells(), (start, length)))
            },
            None => has_null(list_cells(elements.cells(), (start, length))),
        },
{
    let ghost cells = list_cells(elements.cells(), (start, length));
    let total: usize = elements.data.len();
    let mut values: Vec<u16> = Vec::new();
    let mut k: usize = 0;
    while k < length
        invariant
            k <= length,
            elements.covered(),
            start + length <= total == elements.data@.len(),
            cells == list_cells(elements.cells(), (start, length)),
            values@ == present(cells).take(k as int),
            forall|j: int| 0 <= j < k ==> (#[trigger] cells[j]) is Some,
        decreases length - k,
    {
        assert(cells[k as int] == elements.cells()[start + k]);
        match elements.get(start + k) {
            Some(value) => {
                values.push(value);
                assert(values@ =~= present(cells).take(k + 1));
            },
            None => {
                assert(cells[k as int] is None);
                return None;
            },
        }
        k = k + 1;
    }
    assert(values@ =~= present(cells));
    Some(values)
}

/// Match the list of one row.
///
/// A null anywhere in the list makes the whole answer null: there is no syllable
/// there to have matched or not matched. A column without nulls carries no mask, and
/// then the row's syllables are matched straight where they stand.
fn match_list(elems: &[Elem], elements: &Column<u16>, start: usize, length: usize) -> (r: Option<
    bool,
>)
    requires
        elements.covered(),
        start + length <= elements.data@.len(),
    ensures
        ({
            let cells = list_cells(elements.cells(), (start, length));
            r == if has_null(cells) {
                None
            } else {
                Some(sequence_accepts(elems@, present(cells)))
            }
        }),
{
    let ghost cells = list_cells(elements.cells(), (start, length));
    let total: usize = elements.data.len();
    assert(start + length <= total);
    if elements.validity.is_none() {
        let values: &[u16] = slice_subrange(elements.data, start, start + length);
        assert(values@ =~= present(cells));
        assert(!has_null(cells)) by {
            assert forall|j: int| 0 <= j < cells.len() implies (#[trigger] cells[j]) is Some by {
                assert(cells[j] == elements.cells()[start + j]);
            }
        }
        Some(match_sequence(elems, values))
    } else {
        match list_elements(elements, start, length) {
            Some(values) => Some(match_sequence(elems, values.as_slice())),
            None => None,
        }
    }
}

/// Match every row of a column of lists of syllables against its pattern.
///
/// A list is an offset and a length into a separate column of elements, so the
/// offsets are read rather than assumed. As with single syllables, the first pattern
/// that names nothing legal stops the whole match.
pub fn match_list_rows(
    tables: &Tables,
    entries: &Column<(usize, usize)>,
    elements: &Column<u16>,
    patterns: &[Option<String>],
) -> (r: Result<Vec<Option<bool>>, PatternError>)
    requires
        entries.covered(),
        elements.covered(),
        entries.data@.len() == patterns@.len(),
        entries_in_range(entries.cells(), elements.data@.len() as int),
    ensures
        ({
            let n = patterns@.len();
            let lists = entries.cells();
            let texts = texts_of(patterns@);
            match r {
                Ok(answers) => {
                    &&& forall|i: int|
                        0 <= i < n ==> !is_illegal_list_match(
                            tables@,
                            #[trigger] lists[i],
                            texts[i],
                        )
                    &&& answers@ == Seq::new(
                        n,
                        |i: int| list_answer(tables@, lists[i], elements.cells(), texts[i]),
                    )
                    &&& forall|i: int|
                        0 <= i < n ==> match patterns@[i] {
                            Some(text) if mask_is_set(entries.validity, i) => {
                                let (start, length) = entries.data@[i];
                                &&& compiled_sequence(tables@, text@) is Some
                                &&& #[trigger] answers@[i] == if exists|k: int|
                                    start <= k < start + length && !(#[trigger] mask_is_set(
                                        elements.validity,
                                        k,
                                    )) {
                                    None
                                } else {
                                    Some(
                                        sequence_accepts(
                                            compiled_sequence(tables@, text@)->0,
                                            elements.data@.subrange(start as int, start + length),
                                        ),
                                    )
                                }
                            },
                            _ => answers@[i] is None,
                        }
                },
                Err(error) => exists|i: int|
                    {
                        &&& 0 <= i < n
                        &&& is_illegal_list_match(tables@, #[trigger] lists[i], texts[i])
                        &&& forall|j: int|
                            0 <= j < i ==> !is_illegal_list_match(
                                tables@,
                                #[trigger] lists[j],
                                texts[j],
                            )
                        &&& Some(error.pattern@) == texts[i]
                    },
            }
        }),
{
    let ghost lists = entries.cells();
    let ghost texts = texts_of(patterns@);
    let mut answers: Vec<Option<bool>> = Vec::new();
    let mut cached_key: String = String::new();
    let mut cached_elems: Vec<Elem> = Vec::new();
    let mut have_cached: bool = false;
    let mut i: usize = 0;
    while i < patterns.len()
        invariant
            i <= patterns.len(),
            entries.covered(),
            elements.covered(),
            entries.data@.len() == patterns@.len(),
            entries_in_range(entries.cells(), elements.data@.len() as int),
            lists == entries.cells(),
            texts == texts_of(patterns@),
            have_cached ==> compiled_sequence(tables@, cached_key@) == Some(cached_elems@),
            forall|j: int|
                0 <= j < i ==> !is_illegal_list_match(tables@, #[trigger] lists[j], texts[j]),
            answers@ == Seq::new(
                i as nat,
                |j: int| list_answer(tables@, lists[j], elements.cells(), texts[j]),
            ),
        decreases patterns.len() - i,
    {
        let entry: Option<(usize, usize)> = entries.get(i);
        let mut answer: Option<bool> = None;
        if let Some((start, length)) = entry {
            assert(lists[i as int] == Some((start, length)));
            if let Some(text) = &patterns[i] {
                assert(texts[i as int] == Some(text@));
                if !(have_cached && cached_key == *text) {
                    match compile_sequence(tables, text.as_str()) {
                        Some(elems) => {
                            cached_key = text.clone();
                            cached_elems = elems;
                            have_cached = true;
                        },
                        None => {
                            assert(is_illegal_list_match(
                                tables@,
                                lists[i as int],
                                texts[i as int],
                            ));
                            return Err(PatternError { pattern: text.clone() });
                        },
                    }
                }
                answer = match_list(cached_elems.as_slice(), elements, start, length);
            }
        }
        assert(answer == list_answer(
            tables@,
            lists[i as int],
            elements.cells(),
            texts[i as int],
        ));
        answers.push(answer);
        assert(answers@ =~= Seq::new(
            (i + 1) as nat,
            |j: int| list_answer(tables@, lists[j], elements.cells(), texts[j]),
        ));
        i = i + 1;
    }
    assert forall|i: int| 0 <= i < patterns@.len() implies match patterns@[i] {
        Some(text) if mask_is_set(entries.validity, i) => {
            let (start, length) = entries.data@[i];
            &&& compiled_sequence(tables@, text@) is Some
            &&& #[trigger] answers@[i] == if exists|k: int|
                start <= k < start + length && !(#[trigger] mask_is_set(elements.validity, k)) {
                None
            } else {
                Some(
                    sequence_accepts(
                        compiled_sequence(tables@, text@)->0,
                        elements.data@.subrange(start as int, start + length),
                    ),
                )
            }
        },
        _ => answers@[i] is None,
    } by {
        assert(!is_illegal_list_match(tables@, lists[i], texts[i]));
        law_cells(*entries, i);
        law_texts(patterns@, i);
        if let Some(text) = patterns@[i] {
            if mask_is_set(entries.validity, i) {
                let entry = entries.data@[i];
                assert(lists[i] == Some(entry));
                assert(answers@[i] == list_answer(tables@, lists[i], elements.cells(), texts[i]));
                lemma_list_of_column(*elements, entry.0, entry.1);
            }
        }
    }
    Ok(answers)
}

// --- reading and writing ------------------------------------------------------

/// The value read from one row: null where the text is null or unreadable.
pub open spec fn read_row(m: TableModel, text: Option<Seq<char>>) -> Option<u16> {
    match text {
        Some(text) => read_text(m, text),
        None => None,
    }
}

/// A row whose text writes no syllable.
pub open spec fn is_unreadable(m: TableModel, text: Option<Seq<char>>) -> bool {
    text matches Some(text) && read_text(m, text) is None
}

/// Parse every row of a column of texts.
///
/// When trying, a bad syllable becomes null; otherwise the first one stops the whole
/// cast.
pub fn parse_rows(tables: &Tables, rows: &[Option<String>], trying: bool) -> (r: Result<
    Vec<Option<u16>>,
    ParseError,
>)
    ensures
        ({
            let n = rows@.len();
            let texts = texts_of(rows@);
            match r {
                Ok(values) => {
                    &&& trying || forall|i: int|
                        0 <= i < n ==> !is_unreadable(tables@, #[trigger] texts[i])
                    &&& values@ == Seq::new(n, |i: int| read_row(tables@, texts[i]))
                    &&& forall|i: int|
                        0 <= i < n ==> #[trigger] values@[i] == match rows@[i] {
                            Some(text) => read_text(tables@, text@),
                            None => None,
                        }
                },
                Err(error) => !trying && exists|i: int|
                    {
                        &&& 0 <= i < n
                        &&& is_unreadable(tables@, #[trigger] texts[i])
                        &&& forall|j: int|
                            0 <= j < i ==> !is_unreadable(tables@, #[trigger] texts[j])
                        &&& Some(error.input@) == texts[i]
                    },
            }
        }),
{
    let ghost texts = texts_of(rows@);
    let mut values: Vec<Option<u16>> = Vec::new();
    let mut i: usize = 0;
    while i < rows.len()
        invariant
            i <= rows.len(),
            texts == texts_of(rows@),
            trying || forall|j: int|
                0 <= j < i ==> !is_unreadable(tables@, #[trigger] texts[j]),
            values@ == Seq::new(i as nat, |j: int| read_row(tables@, texts[j])),
        decreases rows.len() - i,
    {
        let mut value: Option<u16> = None;
        if let Some(text) = &rows[i] {
            assert(texts[i as int] == Some(text@));
            match parse(tables, text.as_str()) {
                Ok(read) => {
                    value = Some(read);
                },
                Err(error) => {
                    if !trying {
                        assert(is_unreadable(tables@, texts[i as int]));
                        return Err(error);
                    }
                },
            }
        }
        assert(value == read_row(tables@, texts[i as int]));
        values.push(value);
        assert(values@ =~= Seq::new((i + 1) as nat, |j: int| read_row(tables@, texts[j])));
        i = i + 1;
    }
    Ok(values)
}

/// The text written for one row: null where the value is null.
pub open spec fn written_row(m: TableModel, value: Option<u16>) -> Option<Seq<char>> {
    match value {
        Some(value) => Some(written(m, value)),
        None => None,
    }
}

/// Render every row of a column of syllables.
pub fn render_rows(tables: &Tables, values: &Column<u16>) -> (r: Vec<Option<String>>)
    requires
        values.covered(),
    ensures
        texts_of(r@) == Seq::new(
            values.data@.len(),
            |i: int| written_row(tables@, values.cells()[i]),
        ),
        r@.len() == values.data@.len(),
        forall|i: int|
            0 <= i < r@.len() ==> match #[trigger] r@[i] {
                Some(text) => {
                    &&& mask_is_set(values.validity, i)
                    &&& text@ == written(tables@, values.data@[i])
                },
                None => !mask_is_set(values.validity, i),
            },
{
    let n: usize = values.data.len();
    let mut texts: Vec<Option<String>> = Vec::new();
    let mut i: usize = 0;
    while i < n
        invariant
            i <= n,
            n == values.data@.len(),
            values.covered(),
            texts_of(texts@) == Seq::new(
                i as nat,
                |j: int| written_row(tables@, values.cells()[j]),
            ),
        decreases n - i,
    {
        let ghost before = texts_of(texts@);
        let text: Option<String> = match values.get(i) {
            Some(value) => Some(render(tables, value)),
            None => None,
        };
        texts.push(text);
        assert(texts_of(texts@) =~= before.push(written_row(tables@, values.cells()[i as int])));
        assert(texts_of(texts@) =~= Seq::new(
            (i + 1) as nat,
            |j: int| written_row(tables@, values.cells()[j]),
        ));
        i = i + 1;
    }
    proof {
        let written_texts = Seq::new(
            n as nat,
            |j: int| written_row(tables@, values.cells()[j]),
        );
        assert(texts_of(texts@).len() == written_texts.len());
        assert forall|i: int| 0 <= i < texts@.len() implies match #[trigger] texts@[i] {
            Some(text) => {
                &&& mask_is_set(values.validity, i)
                &&& text@ == written(tables@, values.data@[i])
            },
            None => !mask_is_set(values.validity, i),
        } by {
            assert(texts_of(texts@)[i] == written_texts[i]);
            law_cells(*values, i);
            law_texts(texts@, i);
        }
    }
    texts
}

// --- laws ---------------------------------------------------------------------

/// The rows of a mask are its bits, 64 to a word, the lowest bit first; without a mask
/// every row is there.
pub proof fn law_mask_bit(mask: Option<&[u64]>, row: int)
    requires
        0 <= row,
    ensures
        match mask {
            Some(words) => mask_is_set(mask, row) <==> (words@[row / 64] >> ((row % 64) as u64)) & 1
                == 1,
            None => mask_is_set(mask, row),
        },
{
    if let Some(words) = mask {
        let word = words@[row / 64];
        let bit = (row % 64) as u64;
        assert(word & (1u64 << bit) != 0 <==> (word >> bit) & 1 == 1) by (bit_vector)
            requires
                bit < 64,
        ;
    }
}

/// A column has a cell for each of its values, and the cell is that very value, or null
/// where the mask has no bit for the row.
pub proof fn law_cells<T: Copy>(column: Column<T>, i: int)
    requires
        0 <= i < column.data@.len(),
    ensures
        column.cells().len() == column.data@.len(),
        mask_is_set(column.validity, i) ==> column.cells()[i] == Some(column.data@[i]),
        !mask_is_set(column.validity, i) ==> column.cells()[i] is None,
{
}

/// A column of texts has a cell for each of its rows, with the text of the row.
pub proof fn law_texts(rows: Seq<Option<String>>, i: int)
    requires
        0 <= i < rows.len(),
    ensures
        texts_of(rows).len() == rows.len(),
        rows[i] is None <==> texts_of(rows)[i] is None,
        rows[i] matches Some(text) ==> texts_of(rows)[i] == Some(text@),
{
}

/// The message quotes the pattern as it was given, behind a fixed beginning.
pub proof fn law_pattern_error_quotes_pattern(pattern: Seq<char>)
    ensures
        pattern_error_message(pattern).len() == pattern.len() + 26,
        pattern_error_message(pattern).take(25) == "Invalid pinyin pattern: '"@,
        pattern_error_message(pattern).subrange(25, pattern.len() + 25int) == pattern,
        pattern_error_message(pattern).last() == '\'',
{
    reveal_strlit("Invalid pinyin pattern: '");
    reveal_strlit("'");
    let text = pattern_error_message(pattern);
    assert(text.take(25) =~= "Invalid pinyin pattern: '"@);
    assert(text.subrange(25, pattern.len() + 25int) =~= pattern);
}

/// The answer of a row is null exactly when its value or its pattern is, and such a row
/// has no illegal pattern.
pub proof fn law_null_answers(m: TableModel, value: Option<u16>, pattern: Option<Seq<char>>)
    ensures
        match_answer(m, value, pattern) is None <==> value is None || pattern is None,
        value is None || pattern is None ==> !is_illegal_match(m, value, pattern),
{
}

/// The answer of a row is one masked compare of the very value of the row, by the mask
/// and the constant of its own pattern; a pattern without them is illegal.
pub proof fn law_answer_is_a_compare(m: TableModel, value: u16, text: Seq<char>)
    ensures
        match compiled_text(m, text) {
            Pattern::Mask { mask, expect } => {
                &&& match_answer(m, Some(value), Some(text)) == Some(value & mask == expect)
                &&& !is_illegal_match(m, Some(value), Some(text))
            },
            Pattern::Never => is_illegal_match(m, Some(value), Some(text)),
        },
{
}

/// A row whose pattern is a text that reads as the value of the row is answered true.
pub proof fn law_row_matches_its_text(m: TableModel, text: Seq<char>)
    requires
        m.valid(),
        read_text(m, text) is Some,
    ensures
        match_answer(m, read_text(m, text), Some(text)) == Some(true),
        !is_illegal_match(m, read_text(m, text), Some(text)),
{
    law_value_matches_its_text(m, text);
}

/// A row with a syllable and its tone as pattern is answered true for that one value, and
/// with the syllable alone for that syllable in any tone.
pub proof fn law_row_matches_syllable(m: TableModel, name: Seq<char>, digit: char, value: u16)
    requires
        m.valid(),
        m.lookup(name) is Some,
        digit_tone(digit) is Some,
        digit != '0',
    ensures
        ({
            let (initial, final_) = m.lookup(name)->0;
            &&& match_answer(m, Some(value), Some(name)) == Some(
                value & 0xFF1F == initial | final_,
            )
            &&& match_answer(m, Some(value), Some(name.push(digit))) == Some(
                value == initial | final_ | digit_tone(digit)->0,
            )
        }),
{
    law_syllable_pattern(m, name, digit, value);
}

/// A row with a tone digit from 1 to 5 as pattern is answered true exactly when its value
/// has that tone.
pub proof fn law_row_matches_tone(m: TableModel, digit: char, value: u16)
    requires
        '1' <= digit <= '5',
    ensures
        match_answer(m, Some(value), Some(seq![digit])) == Some(
            value & 0x00E0 == if digit == '5' {
                0x0060
            } else {
                0x0060 + 0x0020 * (digit as int - '0' as int)
            },
        ),
{
    law_tone_digits(digit);
    law_tone_pattern(m, digit, value);
}

/// A row with a 声母 and a wildcard as pattern is answered true exactly when its value has
/// that 声母, and one with a wildcard and a 韵母 exactly when it has that 韵母.
pub proof fn law_row_matches_part(
    m: TableModel,
    initial: Seq<char>,
    final_: Seq<char>,
    value: u16,
)
    requires
        m.valid(),
        is_written_initial(initial),
        code_named(m.initials, initial) is Some,
        is_spelling(final_),
        final_spelled(m, final_) is Some,
    ensures
        match_answer(m, Some(value), Some(initial.push('?'))) == Some(
            code_named(m.initials, initial) == Some(value & 0x801F),
        ),
        match_answer(m, Some(value), Some(seq!['?'] + final_)) == Some(
            final_spelled(m, final_) == Some(value & 0x7F00),
        ),
{
    law_initial_with_wildcard(m, initial, '?', value);
    law_final_pattern(m, final_, value);
}

/// The cells of a list are as many as its length says, and are the elements from its
/// offset on, one after the other.
pub proof fn law_list_cells(elements: Seq<Option<u16>>, entry: (usize, usize), k: int)
    requires
        entry.0 + entry.1 <= elements.len(),
    ensures
        list_cells(elements, entry).len() == entry.1,
        0 <= k < entry.1 ==> list_cells(elements, entry)[k] == elements[entry.0 + k],
{
}

proof fn lemma_list_of_column(elements: Column<u16>, start: usize, length: usize)
    requires
        start + length <= elements.data@.len(),
    ensures
        ({
            let cells = list_cells(elements.cells(), (start, length));
            &&& has_null(cells) <==> exists|k: int|
                start <= k < start + length && !(#[trigger] mask_is_set(elements.validity, k))
            &&& !has_null(cells) ==> present(cells) == elements.data@.subrange(
                start as int,
                start + length,
            )
        }),
{
    let cells = list_cells(elements.cells(), (start, length));
    assert forall|j: int| 0 <= j < length implies (#[trigger] cells[j]) == (if mask_is_set(
        elements.validity,
        start + j,
    ) {
        Some(elements.data@[start + j])
    } else {
        None
    }) by {
        law_list_cells(elements.cells(), (start, length), j);
        law_cells(elements, start + j);
    }
    if has_null(cells) {
        let j = choose|j: int| 0 <= j < cells.len() && (#[trigger] cells[j]) is None;
        assert(!mask_is_set(elements.validity, start + j));
    }
    if exists|k: int|
        start <= k < start + length && !(#[trigger] mask_is_set(elements.validity, k)) {
        let k = choose|k: int|
            start <= k < start + length && !(#[trigger] mask_is_set(elements.validity, k));
        assert(cells[k - start] is None);
    }
    if !has_null(cells) {
        assert forall|j: int| 0 <= j < length implies present(cells)[j] == elements.data@.subrange(
            start as int,
            start + length,
        )[j] by {
            assert(cells[j] is Some);
        }
        assert(present(cells) =~= elements.data@.subrange(start as int, start + length));
    }
}

/// The answer of a row of lists is null exactly when the list, its pattern or one of the
/// elements of the list is, as long as the pattern is legal.
pub proof fn law_null_list_answers(
    m: TableModel,
    entry: Option<(usize, usize)>,
    elements: Seq<Option<u16>>,
    pattern: Option<Seq<char>>,
)
    requires
        entry matches Some((start, length)) ==> start + length <= elements.len(),
        pattern matches Some(text) ==> compiled_sequence(m, text) is Some,
    ensures
        list_answer(m, entry, elements, pattern) is None <==> {
            ||| pattern is None
            ||| match entry {
                Some((start, length)) => exists|k: int|
                    start <= k < start + length && (#[trigger] elements[k]) is None,
                None => true,
            }
        },
        !is_illegal_list_match(m, entry, pattern),
{
    if let (Some((start, length)), Some(text)) = (entry, pattern) {
        let cells = list_cells(elements, (start, length));
        if exists|k: int| start <= k < start + length && (#[trigger] elements[k]) is None {
            let k = choose|k: int| start <= k < start + length && (#[trigger] elements[k]) is None;
            law_list_cells(elements, (start, length), k - start);
            assert(cells[k - start] is None);
        }
        if has_null(cells) {
            let j = choose|j: int| 0 <= j < cells.len() && (#[trigger] cells[j]) is None;
            law_list_cells(elements, (start, length), j);
            assert(elements[start + j] is None);
        }
    }
}

/// A row of lists without nulls is answered by whether its pattern matches the whole list:
/// all of its elements, in their order.
pub proof fn law_whole_list_is_matched(
    m: TableModel,
    start: usize,
    length: usize,
    elements: Seq<Option<u16>>,
    text: Seq<char>,
    values: Seq<u16>,
)
    requires
        start + length <= elements.len(),
        values.len() == length,
        forall|k: int| 0 <= k < length ==> elements[start + k] == Some(#[trigger] values[k]),
    ensures
        match compiled_sequence(m, text) {
            Some(elems) => list_answer(m, Some((start, length)), elements, Some(text)) == Some(
                sequence_accepts(elems, values),
            ),
            None => is_illegal_list_match(m, Some((start, length)), Some(text)),
        },
{
    let cells = list_cells(elements, (start, length));
    assert forall|k: int| 0 <= k < length implies #[trigger] cells[k] == Some(values[k]) by {
        law_list_cells(elements, (start, length), k);
    }
    assert(cells.len() == length);
    assert(present(cells) =~= values);
}

/// A row of lists with `P ** Q` as pattern is answered true exactly when the list has two
/// elements or more, `P` accepts the first and `Q` accepts the last of them.
pub proof fn law_list_with_run(
    m: TableModel,
    start: usize,
    length: usize,
    elements: Seq<Option<u16>>,
    first: Seq<char>,
    last: Seq<char>,
)
    requires
        start + length <= elements.len(),
        forall|k: int| start <= k < start + length ==> (#[trigger] elements[k]) is Some,
        is_single_word(first),
        is_single_word(last),
        compiled_text(m, first) !is Never,
        compiled_text(m, last) !is Never,
    ensures
        list_answer(
            m,
            Some((start, length)),
            elements,
            Some((first.push(' ') + "**"@).push(' ') + last),
        ) == Some(
            length >= 2 && compiled_text(m, first).accepts(elements[start as int]->0)
                && compiled_text(m, last).accepts(elements[start + length - 1]->0),
        ),
{
    let text = (first.push(' ') + "**"@).push(' ') + last;
    let values = Seq::new(length as nat, |k: int| elements[start + k]->0);
    assert forall|k: int| 0 <= k < length implies elements[start + k] == Some(
        #[trigger] values[k],
    ) by {
        assert(elements[start + k] is Some);
    }
    law_whole_list_is_matched(m, start, length, elements, text, values);
    law_phrase_with_run(m, first, last, values);
}

/// A row of lists whose pattern has no `**` is answered true exactly when the list has as
/// many elements as the pattern has words, and each word accepts its element.
pub proof fn law_list_word_by_word(
    m: TableModel,
    start: usize,
    length: usize,
    elements: Seq<Option<u16>>,
    text: Seq<char>,
)
    requires
        start + length <= elements.len(),
        forall|k: int| start <= k < start + length ==> (#[trigger] elements[k]) is Some,
        forall|i: int|
            0 <= i < words(text).len() ==> #[trigger] words(text)[i] != "**"@ && compiled_text(
                m,
                words(text)[i],
            ) !is Never,
    ensures
        list_answer(m, Some((start, length)), elements, Some(text)) == Some(
            length == words(text).len() && forall|i: int|
                0 <= i < length ==> compiled_text(m, #[trigger] words(text)[i]).accepts(
                    elements[start + i]->0,
                ),
        ),
{
    let values = Seq::new(length as nat, |k: int| elements[start + k]->0);
    assert forall|k: int| 0 <= k < length implies elements[start + k] == Some(
        #[trigger] values[k],
    ) by {
        assert(elements[start + k] is Some);
    }
    law_whole_list_is_matched(m, start, length, elements, text, values);
    law_phrase_word_by_word(m, text, values);
}

/// The value of a row is what its text reads as; a null row reads as null, and a row is
/// unreadable exactly when it has a text that reads as nothing.
pub proof fn law_row_is_read(m: TableModel, name: Seq<char>, digit: char, text: Seq<char>)
    requires
        m.valid(),
        m.lookup(name) is Some,
        digit_tone(digit) is Some,
    ensures
        ({
            let (initial, final_) = m.lookup(name)->0;
            &&& read_row(m, Some(name)) == Some(initial | final_)
            &&& read_row(m, Some(name.push(digit))) == Some(
                initial | final_ | digit_tone(digit)->0,
            )
        }),
        read_row(m, None) is None,
        !is_unreadable(m, None),
        read_row(m, Some(text)) == read_text(m, text),
        is_unreadable(m, Some(text)) <==> read_row(m, Some(text)) is None,
{
    let (initial, final_) = m.lookup(name)->0;
    law_three_ways_agree(m, name, digit_tone(digit)->0, digit);
    assert(initial | final_ | 0u16 == initial | final_) by (bit_vector);
}

/// A row is written so that it reads back as the very value of the row, tone and all; a
/// null row is written as null.
pub proof fn law_written_row_reads_back(m: TableModel, value: u16)
    requires
        m.valid(),
        m.spelling(value & SYLLABLE_MASK) is Some,
        value & 0x00E0 == 0 || tone_digit(value & 0x00E0) is Some,
    ensures
        written_row(m, Some(value)) matches Some(text) && read_text(m, text) == Some(value),
        read_row(m, written_row(m, Some(value))) == Some(value),
        written_row(m, None) is None,
{
    law_written_reads_back(m, value);
}

/// A row is written as the spelling of its syllable with its own tone.
pub proof fn law_row_is_written(m: TableModel, i: int, value: u16)
    requires
        m.spellings_ordered(),
        0 <= i < m.spellings.len(),
        m.spellings[i].0 == value & 0xFF1F,
    ensures
        written_row(m, Some(value)) == Some(with_tone(m.spellings[i].1, value & 0x00E0)),
{
    law_written_from_row(m, i, value);
}

} // verus!
