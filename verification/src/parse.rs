//! Reading a written syllable into its packed value.
use crate::fields::{encode, packed, Initial, Tone, INITIAL_MASK, TONE_MASK};
use crate::standard::{is_standard, law_special_r_unused};
use crate::tables::{TableModel, Tables};
use crate::text::{normalize, normalized};
use crate::tone::{split_lowered, split_result, split_written};
use vstd::prelude::*;

verus! {

/// A text that does not write a syllable.
#[derive(Debug)]
pub struct ParseError {
    pub input: String,
}

/// What is said of a text that does not write a syllable.
pub open spec fn parse_error_message(input: Seq<char>) -> Seq<char> {
    "Invalid pinyin syllable: '"@ + input + "'"@
}

impl ParseError {
    /// The message for the user.
    pub fn message(&self) -> (r: String)
        ensures
            r@ == parse_error_message(self.input@),
    {
        let mut r: String = "Invalid pinyin syllable: '".to_string();
        r.append(self.input.as_str());
        r.append("'");
        r
    }
}

/// The message quotes the text as it was given, behind a fixed beginning.
pub proof fn law_parse_error_quotes_input(input: Seq<char>)
    ensures
        parse_error_message(input).len() == input.len() + 27,
        parse_error_message(input).take(26) == "Invalid pinyin syllable: '"@,
        parse_error_message(input).subrange(26, input.len() + 26int) == input,
        parse_error_message(input).last() == '\'',
{
    reveal_strlit("Invalid pinyin syllable: '");
    reveal_strlit("'");
    let text = parse_error_message(input);
    assert(text.take(26) =~= "Invalid pinyin syllable: '"@);
    assert(text.subrange(26, input.len() + 26int) =~= input);
}

/// The packed value of a spelling and the tone written with it.
pub open spec fn value_of(m: TableModel, spelling: Seq<char>, tone: Option<u16>) -> Option<u16> {
    match m.lookup(spelling) {
        Some((initial, final_)) => Some(
            packed(
                initial,
                final_,
                match tone {
                    Some(code) => code,
                    None => Tone::MISSING,
                },
            ),
        ),
        None => None,
    }
}

/// The packed value of a written syllable, already trimmed and in lower case.
pub open spec fn read_lowered(m: TableModel, text: Seq<char>) -> Option<u16> {
    match split_written(text) {
        Some((spelling, tone)) => value_of(m, spelling, tone),
        None => None,
    }
}

/// The packed value of a written syllable.
pub open spec fn read_text(m: TableModel, text: Seq<char>) -> Option<u16> {
    read_lowered(m, normalized(text))
}

/// Split a written syllable into its toneless spelling and its tone, disregarding
/// letter case and white space around it.
pub fn split_tone(input: &str) -> (r: Result<(Vec<char>, Option<Tone>), ParseError>)
    ensures
        match r {
            Ok(parts) => split_written(normalized(input@)) == split_result(Some(parts)),
            Err(error) => {
                &&& split_written(normalized(input@)) is None
                &&& error.input@ == input@
            },
        },
{
    let text: String = normalize(input);
    match split_lowered(text.as_str()) {
        Some(parts) => Ok(parts),
        None => Err(ParseError { input: input.to_string() }),
    }
}

/// Pack the parts of a written syllable.
fn pack_parts(tables: &Tables, spelling: &[char], tone: Option<Tone>) -> (r: Option<u16>)
    ensures
        r == value_of(
            tables@,
            spelling@,
            match tone {
                Some(tone) => Some(tone@),
                None => None,
            },
        ),
{
    let written: Tone = match tone {
        Some(tone) => tone,
        None => {
            assert(0u16 & TONE_MASK == 0u16) by (bit_vector);
            Tone::from_bits(Tone::MISSING)
        },
    };
    match tables.find(spelling) {
        Some((initial, final_)) => Some(encode(initial, final_, written)),
        None => None,
    }
}

/// Read a written syllable that is already trimmed and in lower case.
pub fn parse_lowered(tables: &Tables, text: &str) -> (r: Option<u16>)
    ensures
        r == read_lowered(tables@, text@),
{
    match split_lowered(text) {
        Some((spelling, tone)) => pack_parts(tables, spelling.as_slice(), tone),
        None => None,
    }
}

/// Parse a written syllable into the packed `u16`. Nothing that is read stands on the
/// pseudo-initial R.
pub fn parse(tables: &Tables, input: &str) -> (r: Result<u16, ParseError>)
    ensures
        tables@.valid(),
        is_standard(tables@),
        match r {
            Ok(value) => {
                &&& read_text(tables@, input@) == Some(value)
                &&& value & INITIAL_MASK != Initial::R
            },
            Err(error) => read_text(tables@, input@) is None && error.input@ == input@,
        },
{
    proof {
        use_type_invariant(tables);
    }
    let (spelling, tone): (Vec<char>, Option<Tone>) = match split_tone(input) {
        Ok(parts) => parts,
        Err(error) => {
            return Err(error);
        },
    };
    match pack_parts(tables, spelling.as_slice(), tone) {
        Some(value) => {
            proof {
                law_special_r_unused(tables@, input@);
            }
            Ok(value)
        },
        None => Err(ParseError { input: input.to_string() }),
    }
}

} // verus!
