//! Pinyin syllables packed into a `u16`, and patterns over them.
//!
//! A syllable is written without a tone, with a tone digit or with a tone mark, and
//! all three read as one value with three bit fields: 声母, 韵母 and 声调. A pattern
//! such as `p?` or `?ang` compiles to a mask and a constant, so that matching is one
//! masked compare; a pattern of several words matches a sequence of syllables.
//!
//! - [`fields`]: the bit layout of the packed value.
//! - [`text`]: characters, white space, letter case and order.
//! - [`tone`]: tone marks, and splitting a written syllable into spelling and tone.
//! - [`tables`]: the syllables with their codes, as data that holds together.
//! - [`parse`] and [`render`]: reading a syllable and writing it out.
//! - [`pattern`] and [`sequence`]: compiling patterns and matching them.
//! - [`rows`]: the same operations over columns with nulls.
//! - [`laws`]: what holds between reading, writing and matching.
//! - [`calls`]: what holds between the results of calls.
//! - [`standard`]: what the tables of standard pinyin hold, and what follows from it.
pub mod calls;
pub mod fields;
pub mod laws;
pub mod parse;
pub mod pattern;
pub mod render;
pub mod rows;
pub mod sequence;
pub mod standard;
pub mod tables;
pub mod text;
pub mod tone;
