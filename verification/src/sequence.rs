//! Patterns over a sequence of syllables.
//!
//! The value is a sequence of syllables and the pattern is a sequence of
//! one-syllable patterns, matched element by element. `*` is one syllable and `**`
//! is any number of them:
//!
//! ```text
//! zhong guo       exactly two syllables, 中 then 国
//! *   *           exactly two syllables, both free
//! p   *   *       three syllables, the first with 声母 p
//! **              anything, including nothing
//! zhong ** guo    中 ... 国, with any number of syllables in between
//! ```
use crate::pattern::{compile_pattern, compiled_text, Pattern};
use crate::tables::{TableModel, Tables};
use crate::text::{
    chars_of, contents, is_space, law_single_word, law_words_at_spaces, same_text, split_words,
    words,
};
use vstd::prelude::*;

verus! {

/// One element of a multi-syllable pattern.
#[derive(Clone, Copy, PartialEq, Eq, Debug, Structural)]
pub enum Elem {
    /// A single syllable the value must match.
    One(Pattern),
    /// Any number of syllables, including none.
    Any,
}

/// What it means for a sequence of syllables to match: `One` takes exactly one
/// syllable, which its pattern accepts; `Any` takes some number of them; and
/// nothing is left over.
pub open spec fn sequence_accepts(elems: Seq<Elem>, values: Seq<u16>) -> bool
    decreases elems.len(),
{
    if elems.len() == 0 {
        values.len() == 0
    } else {
        match elems[0] {
            Elem::One(pattern) => values.len() > 0 && pattern.accepts(values[0])
                && sequence_accepts(elems.skip(1), values.skip(1)),
            Elem::Any => exists|taken: int|
                0 <= taken <= values.len() && sequence_accepts(
                    elems.skip(1),
                    #[trigger] values.skip(taken),
                ),
        }
    }
}

/// The elements from `e` on match the values from `v` on.
spec fn rest_accepts(elems: Seq<Elem>, values: Seq<u16>, e: int, v: int) -> bool {
    sequence_accepts(elems.skip(e), values.skip(v))
}

/// The elements after `e` match the values from some position `from` or later.
spec fn later_accepts(elems: Seq<Elem>, values: Seq<u16>, e: int, from: int) -> bool {
    exists|at: int| from <= at <= values.len() && #[trigger] rest_accepts(elems, values, e, at)
}

proof fn lemma_rest_step(elems: Seq<Elem>, values: Seq<u16>, e: int, v: int)
    requires
        0 <= e <= elems.len(),
        0 <= v <= values.len(),
    ensures
        e == elems.len() ==> (rest_accepts(elems, values, e, v) <==> v == values.len()),
        e < elems.len() ==> match elems[e] {
            Elem::One(pattern) => rest_accepts(elems, values, e, v) <==> (v < values.len()
                && pattern.accepts(values[v]) && rest_accepts(elems, values, e + 1, v + 1)),
            Elem::Any => rest_accepts(elems, values, e, v) <==> later_accepts(
                elems,
                values,
                e + 1,
                v,
            ),
        },
{
    let es = elems.skip(e);
    let vs = values.skip(v);
    if e < elems.len() {
        assert(es[0] == elems[e]);
        assert(es.skip(1) =~= elems.skip(e + 1));
        match elems[e] {
            Elem::One(pattern) => {
                if v < values.len() {
                    assert(vs[0] == values[v]);
                    assert(vs.skip(1) =~= values.skip(v + 1));
                }
            },
            Elem::Any => {
                assert forall|taken: int| 0 <= taken <= vs.len() implies vs.skip(taken)
                    == #[trigger] values.skip(v + taken) by {
                    assert(vs.skip(taken) =~= values.skip(v + taken));
                }
                if rest_accepts(elems, values, e, v) {
                    let taken = choose|taken: int|
                        0 <= taken <= vs.len() && sequence_accepts(
                            es.skip(1),
                            #[trigger] vs.skip(taken),
                        );
                    assert(values.skip(v + taken) == vs.skip(taken));
                    assert(rest_accepts(elems, values, e + 1, v + taken));
                }
                if later_accepts(elems, values, e + 1, v) {
                    let at = choose|at: int|
                        v <= at <= values.len() && #[trigger] rest_accepts(
                            elems,
                            values,
                            e + 1,
                            at,
                        );
                    assert(values.skip(v + (at - v)) == vs.skip(at - v));
                    assert(sequence_accepts(es.skip(1), vs.skip(at - v)));
                }
            },
        }
    }
}

/// A run of `One` elements takes exactly as many values as it has elements.
proof fn lemma_ones_take_their_length(
    elems: Seq<Elem>,
    values: Seq<u16>,
    from: int,
    to: int,
    at: int,
)
    requires
        0 <= from <= to <= elems.len(),
        forall|i: int| from <= i < to ==> elems[i] is One,
        0 <= at <= values.len(),
        rest_accepts(elems, values, from, at),
    ensures
        at + (to - from) <= values.len(),
        rest_accepts(elems, values, to, at + (to - from)),
    decreases to - from,
{
    if from < to {
        lemma_rest_step(elems, values, from, at);
        assert(elems[from] is One);
        lemma_ones_take_their_length(elems, values, from + 1, to, at + 1);
    }
}

/// The matcher has read the values before `v` and the elements before `e`, and
/// the sequence matches exactly when the rest does, or when the last `Any` takes
/// more values than it has so far.
spec fn progress(
    elems: Seq<Elem>,
    values: Seq<u16>,
    e: int,
    v: int,
    star: Option<usize>,
    star_at: int,
) -> bool {
    &&& 0 <= e <= elems.len()
    &&& 0 <= v <= values.len()
    &&& match star {
        None => {
            &&& sequence_accepts(elems, values) <==> rest_accepts(elems, values, e, v)
            &&& star_at == 0
        },
        Some(s) => {
            &&& 0 <= s < e
            &&& elems[s as int] is Any
            &&& forall|i: int| s < i < e ==> elems[i] is One
            &&& 0 <= star_at
            &&& v == star_at + (e - (s + 1))
            &&& sequence_accepts(elems, values) <==> (rest_accepts(elems, values, e, v)
                || later_accepts(elems, values, s + 1, star_at + 1))
        },
    }
}

/// Taking the matched `One` element keeps the progress.
proof fn lemma_take_one(
    elems: Seq<Elem>,
    values: Seq<u16>,
    e: int,
    v: int,
    star: Option<usize>,
    star_at: int,
)
    requires
        progress(elems, values, e, v, star, star_at),
        e < elems.len(),
        v < values.len(),
        elems[e] matches Elem::One(pattern) && pattern.accepts(values[v]),
    ensures
        progress(elems, values, e + 1, v + 1, star, star_at),
{
    lemma_rest_step(elems, values, e, v);
}

/// Reaching an `Any` makes it the one to widen: an earlier `Any` never has to take
/// more, since whatever it could leave, the new one can leave as well.
proof fn lemma_reach_any(
    elems: Seq<Elem>,
    values: Seq<u16>,
    e: int,
    v: int,
    star: Option<usize>,
    star_at: int,
    reached: usize,
)
    requires
        progress(elems, values, e, v, star, star_at),
        e < elems.len(),
        elems[e] is Any,
        reached == e,
    ensures
        progress(elems, values, e + 1, v, Some(reached), v),
{
    lemma_rest_step(elems, values, e, v);
    if let Some(s) = star {
        if later_accepts(elems, values, s + 1, star_at + 1) {
            let at = choose|at: int|
                star_at + 1 <= at <= values.len() && #[trigger] rest_accepts(
                    elems,
                    values,
                    s + 1,
                    at,
                );
            lemma_ones_take_their_length(elems, values, s + 1, e, at);
            let end = at + (e - (s + 1));
            lemma_rest_step(elems, values, e, end);
            let found = choose|found: int|
                end <= found <= values.len() && #[trigger] rest_accepts(
                    elems,
                    values,
                    e + 1,
                    found,
                );
            assert(rest_accepts(elems, values, e + 1, found));
            assert(later_accepts(elems, values, e + 1, v));
        }
    }
    if later_accepts(elems, values, e + 1, v) {
        let at = choose|at: int|
            v <= at <= values.len() && #[trigger] rest_accepts(elems, values, e + 1, at);
        assert(at == v || later_accepts(elems, values, e + 1, v + 1));
    }
}

/// After a mismatch only a wider `Any` is left to try.
proof fn lemma_widen(
    elems: Seq<Elem>,
    values: Seq<u16>,
    e: int,
    v: int,
    s: usize,
    star_at: int,
)
    requires
        progress(elems, values, e, v, Some(s), star_at),
        v < values.len(),
        !rest_accepts(elems, values, e, v),
    ensures
        progress(elems, values, s + 1, star_at + 1, Some(s), star_at + 1),
{
    if later_accepts(elems, values, s + 1, star_at + 1) {
        let at = choose|at: int|
            star_at + 1 <= at <= values.len() && #[trigger] rest_accepts(elems, values, s + 1, at);
        assert(at == star_at + 1 || later_accepts(elems, values, s + 1, star_at + 2));
    }
    if rest_accepts(elems, values, s + 1, star_at + 1) {
        assert(later_accepts(elems, values, s + 1, star_at + 1));
    }
    if later_accepts(elems, values, s + 1, star_at + 2) {
        let at = choose|at: int|
            star_at + 2 <= at <= values.len() && #[trigger] rest_accepts(elems, values, s + 1, at);
        assert(rest_accepts(elems, values, s + 1, at));
    }
}

/// With the values used up, only elements that take nothing may be left.
proof fn lemma_values_used_up(
    elems: Seq<Elem>,
    values: Seq<u16>,
    e: int,
    star: Option<usize>,
    star_at: int,
)
    requires
        progress(elems, values, e, values.len() as int, star, star_at),
    ensures
        sequence_accepts(elems, values) <==> forall|i: int| e <= i < elems.len() ==> elems[i] is Any,
{
    lemma_no_values_left(elems, values, e);
    if let Some(s) = star {
        if later_accepts(elems, values, s + 1, star_at + 1) {
            let at = choose|at: int|
                star_at + 1 <= at <= values.len() && #[trigger] rest_accepts(
                    elems,
                    values,
                    s + 1,
                    at,
                );
            lemma_ones_take_their_length(elems, values, s + 1, e, at);
        }
    }
}

proof fn lemma_no_values_left(elems: Seq<Elem>, values: Seq<u16>, e: int)
    requires
        0 <= e <= elems.len(),
    ensures
        rest_accepts(elems, values, e, values.len() as int) <==> forall|i: int|
            e <= i < elems.len() ==> elems[i] is Any,
    decreases elems.len() - e,
{
    let end = values.len() as int;
    lemma_rest_step(elems, values, e, end);
    if e < elems.len() {
        lemma_no_values_left(elems, values, e + 1);
        if elems[e] is Any {
            if rest_accepts(elems, values, e + 1, end) {
                assert(later_accepts(elems, values, e + 1, end));
            }
        }
    }
}

/// Match a sequence of syllables against a compiled multi-syllable pattern.
///
/// An `Any` is lazy: the match keeps the position of the last one and how much it
/// had swallowed, and when a later element fails, backs up and lets it swallow one
/// more.
pub fn match_sequence(elems: &[Elem], values: &[u16]) -> (r: bool)
    ensures
        r == sequence_accepts(elems@, values@),
{
    let mut e: usize = 0;
    let mut v: usize = 0;
    let mut star: Option<usize> = None;
    let mut star_at: usize = 0;
    proof {
        assert(elems@.skip(0) =~= elems@);
        assert(values@.skip(0) =~= values@);
    }
    while v < values.len()
        invariant
            progress(elems@, values@, e as int, v as int, star, star_at as int),
        decreases
            elems.len() - (match star {
                Some(s) => s as int,
                None => -1int,
            }),
            values.len() - star_at,
            elems.len() - e,
    {
        proof {
            lemma_rest_step(elems@, values@, e as int, v as int);
        }
        if e < elems.len() {
            match elems[e] {
                Elem::One(pattern) => {
                    if pattern.matches(values[v]) {
                        proof {
                            lemma_take_one(
                                elems@,
                                values@,
                                e as int,
                                v as int,
                                star,
                                star_at as int,
                            );
                        }
                        e = e + 1;
                        v = v + 1;
                        continue ;
                    }
                },
                Elem::Any => {
                    proof {
                        lemma_reach_any(
                            elems@,
                            values@,
                            e as int,
                            v as int,
                            star,
                            star_at as int,
                            e,
                        );
                    }
                    star = Some(e);
                    star_at = v;
                    e = e + 1;
                    continue ;
                },
            }
        }
        match star {
            Some(s) => {
                proof {
                    lemma_widen(elems@, values@, e as int, v as int, s, star_at as int);
                }
                star_at = star_at + 1;
                e = s + 1;
                v = star_at;
            },
            None => {
                return false;
            },
        }
    }
    proof {
        lemma_values_used_up(elems@, values@, e as int, star, star_at as int);
    }
    while e < elems.len()
        invariant
            e <= elems.len(),
            sequence_accepts(elems@, values@) <==> forall|i: int|
                e <= i < elems.len() ==> elems@[i] is Any,
        decreases elems.len() - e,
    {
        match elems[e] {
            Elem::Any => {
                e = e + 1;
            },
            Elem::One(_) => {
                assert(!(elems@[e as int] is Any));
                return false;
            },
        }
    }
    true
}

// --- compiling ----------------------------------------------------------------

/// What one word of a pattern stands for by itself, or `None` where it names
/// nothing legal.
pub open spec fn elem_of(m: TableModel, word: Seq<char>) -> Option<Elem> {
    if word == "**"@ {
        Some(Elem::Any)
    } else {
        match compiled_text(m, word) {
            Pattern::Never => None,
            pattern => Some(Elem::One(pattern)),
        }
    }
}

/// One more element, but a run of `Any` stays a single one.
pub open spec fn extended(elems: Seq<Elem>, elem: Elem) -> Seq<Elem> {
    if elem is Any && elems.len() > 0 && elems.last() is Any {
        elems
    } else {
        elems.push(elem)
    }
}

/// What the words of a pattern compile to, or `None` where any of them names
/// nothing legal.
pub open spec fn elems_of(m: TableModel, ws: Seq<Seq<char>>) -> Option<Seq<Elem>>
    decreases ws.len(),
{
    if ws.len() == 0 {
        Some(Seq::empty())
    } else {
        match (elems_of(m, ws.drop_last()), elem_of(m, ws.last())) {
            (Some(elems), Some(elem)) => Some(extended(elems, elem)),
            _ => None,
        }
    }
}

/// What a multi-syllable pattern compiles to.
pub open spec fn compiled_sequence(m: TableModel, pattern: Seq<char>) -> Option<Seq<Elem>> {
    elems_of(m, words(pattern))
}

proof fn lemma_illegal_word(m: TableModel, ws: Seq<Seq<char>>, n: int)
    requires
        0 <= n <= ws.len(),
        elems_of(m, ws.take(n)) is None,
    ensures
        elems_of(m, ws) is None,
    decreases ws.len() - n,
{
    if n < ws.len() {
        assert(ws.take(n + 1).drop_last() =~= ws.take(n));
        lemma_illegal_word(m, ws, n + 1);
    } else {
        assert(ws.take(n) =~= ws);
    }
}

/// Compile a whitespace-separated multi-syllable pattern.
///
/// `*` means the same thing here as it does in a one-syllable pattern, one free
/// syllable, and `**` is that idea widened to a run of them. A pattern with no
/// elements matches only an empty sequence. Returns `None` if any element names
/// nothing legal.
pub fn compile_sequence(tables: &Tables, pattern: &str) -> (r: Option<Vec<Elem>>)
    ensures
        match r {
            Some(elems) => compiled_sequence(tables@, pattern@) == Some(elems@),
            None => compiled_sequence(tables@, pattern@) is None,
        },
{
    let tokens: Vec<String> = split_words(pattern);
    let ghost ws = words(pattern@);
    let mut elems: Vec<Elem> = Vec::new();
    let mut i: usize = 0;
    while i < tokens.len()
        invariant
            i <= tokens.len(),
            ws == words(pattern@),
            contents(tokens@) == ws,
            elems_of(tables@, ws.take(i as int)) == Some(elems@),
        decreases tokens.len() - i,
    {
        let token: &str = tokens[i].as_str();
        proof {
            assert(token@ == ws[i as int]);
            assert(ws.take(i + 1).drop_last() =~= ws.take(i as int));
            assert(ws.take(i + 1).last() == token@);
        }
        let chars: Vec<char> = chars_of(token);
        if same_text(chars.as_slice(), "**") {
            // Consecutive runs are one run; `** **` is just `**`.
            let n: usize = elems.len();
            if !(n > 0 && elems[n - 1] == Elem::Any) {
                elems.push(Elem::Any);
            }
        } else {
            let compiled: Pattern = compile_pattern(tables, token);
            if compiled == Pattern::Never {
                proof {
                    lemma_illegal_word(tables@, ws, i + 1);
                }
                return None;
            }
            elems.push(Elem::One(compiled));
        }
        i = i + 1;
    }
    assert(ws.take(i as int) =~= ws);
    Some(elems)
}

// --- laws ---------------------------------------------------------------------

/// A pattern of two parts matches exactly where the values can be cut in two so that
/// each part matches its own piece.
pub proof fn law_concatenation(a: Seq<Elem>, b: Seq<Elem>, values: Seq<u16>)
    ensures
        sequence_accepts(a + b, values) <==> exists|cut: int|
            0 <= cut <= values.len() && sequence_accepts(a, #[trigger] values.take(cut))
                && sequence_accepts(b, values.skip(cut)),
    decreases a.len(),
{
    if a.len() == 0 {
        assert(a + b =~= b);
        assert(values.skip(0) =~= values);
        assert(values.take(0).len() == 0);
        if sequence_accepts(a + b, values) {
            assert(sequence_accepts(a, values.take(0)));
        }
    } else {
        let rest = a.skip(1);
        assert((a + b)[0] == a[0]);
        assert((a + b).skip(1) =~= rest + b);
        match a[0] {
            Elem::One(pattern) => {
                if values.len() > 0 {
                    let tail = values.skip(1);
                    law_concatenation(rest, b, tail);
                    if sequence_accepts(a + b, values) {
                        let cut = choose|cut: int|
                            0 <= cut <= tail.len() && sequence_accepts(
                                rest,
                                #[trigger] tail.take(cut),
                            ) && sequence_accepts(b, tail.skip(cut));
                        assert(values.take(cut + 1).skip(1) =~= tail.take(cut));
                        assert(values.skip(cut + 1) =~= tail.skip(cut));
                        assert(sequence_accepts(a, values.take(cut + 1)));
                    }
                    if exists|cut: int|
                        0 <= cut <= values.len() && sequence_accepts(
                            a,
                            #[trigger] values.take(cut),
                        ) && sequence_accepts(b, values.skip(cut)) {
                        let cut = choose|cut: int|
                            0 <= cut <= values.len() && sequence_accepts(
                                a,
                                #[trigger] values.take(cut),
                            ) && sequence_accepts(b, values.skip(cut));
                        assert(cut > 0);
                        assert(values.take(cut).skip(1) =~= tail.take(cut - 1));
                        assert(values.skip(cut) =~= tail.skip(cut - 1));
                        assert(values.take(cut)[0] == values[0]);
                        assert(sequence_accepts(rest, tail.take(cut - 1)));
                        assert(sequence_accepts(rest + b, tail));
                    }
                }
            },
            Elem::Any => {
                if sequence_accepts(a + b, values) {
                    let taken = choose|taken: int|
                        0 <= taken <= values.len() && sequence_accepts(
                            (a + b).skip(1),
                            #[trigger] values.skip(taken),
                        );
                    let tail = values.skip(taken);
                    law_concatenation(rest, b, tail);
                    let cut = choose|cut: int|
                        0 <= cut <= tail.len() && sequence_accepts(rest, #[trigger] tail.take(cut))
                            && sequence_accepts(b, tail.skip(cut));
                    let whole = values.take(taken + cut);
                    assert(whole.skip(taken) =~= tail.take(cut));
                    assert(values.skip(taken + cut) =~= tail.skip(cut));
                    assert(sequence_accepts(rest, whole.skip(taken)));
                    assert(sequence_accepts(a, whole));
                }
                if exists|cut: int|
                    0 <= cut <= values.len() && sequence_accepts(a, #[trigger] values.take(cut))
                        && sequence_accepts(b, values.skip(cut)) {
                    let cut = choose|cut: int|
                        0 <= cut <= values.len() && sequence_accepts(
                            a,
                            #[trigger] values.take(cut),
                        ) && sequence_accepts(b, values.skip(cut));
                    let whole = values.take(cut);
                    let taken = choose|taken: int|
                        0 <= taken <= whole.len() && sequence_accepts(
                            a.skip(1),
                            #[trigger] whole.skip(taken),
                        );
                    let tail = values.skip(taken);
                    law_concatenation(rest, b, tail);
                    assert(whole.skip(taken) =~= tail.take(cut - taken));
                    assert(values.skip(cut) =~= tail.skip(cut - taken));
                    assert(sequence_accepts(rest, tail.take(cut - taken)));
                    assert(sequence_accepts((a + b).skip(1), values.skip(taken)));
                }
            },
        }
    }
}

/// A pattern without `**` matches exactly the sequences of its own length whose
/// syllables match one by one.
pub proof fn law_fixed_length(elems: Seq<Elem>, values: Seq<u16>)
    requires
        forall|i: int| 0 <= i < elems.len() ==> elems[i] is One,
    ensures
        sequence_accepts(elems, values) <==> {
            &&& values.len() == elems.len()
            &&& forall|i: int|
                0 <= i < elems.len() ==> (#[trigger] elems[i])->One_0.accepts(values[i])
        },
    decreases elems.len(),
{
    if elems.len() > 0 {
        let rest = elems.skip(1);
        let tail = values.skip(1);
        assert(elems[0] is One);
        assert forall|i: int| 0 <= i < rest.len() implies rest[i] is One by {
            assert(rest[i] == elems[i + 1]);
        }
        if values.len() > 0 {
            law_fixed_length(rest, tail);
            if sequence_accepts(elems, values) {
                assert forall|i: int| 0 <= i < elems.len() implies (
                #[trigger] elems[i])->One_0.accepts(values[i]) by {
                    if i > 0 {
                        assert(rest[i - 1] == elems[i]);
                        assert(tail[i - 1] == values[i]);
                    }
                }
            }
            if values.len() == elems.len() && forall|i: int|
                0 <= i < elems.len() ==> (#[trigger] elems[i])->One_0.accepts(values[i]) {
                assert forall|i: int| 0 <= i < rest.len() implies (
                #[trigger] rest[i])->One_0.accepts(tail[i]) by {
                    assert(elems[i + 1] == rest[i]);
                    assert(values[i + 1] == tail[i]);
                }
                assert(elems[0]->One_0.accepts(values[0]));
            }
        }
    }
}

/// `**` matches anything, including nothing.
pub proof fn law_any_matches_all(values: Seq<u16>)
    ensures
        sequence_accepts(seq![Elem::Any], values),
{
    let elems = seq![Elem::Any];
    assert(elems.skip(1).len() == 0);
    assert(values.skip(values.len() as int).len() == 0);
    assert(sequence_accepts(elems.skip(1), values.skip(values.len() as int)));
}

/// A leading pattern with `**` after it asks of the first syllables only.
pub proof fn law_starts_with(start: Seq<Elem>, values: Seq<u16>)
    ensures
        sequence_accepts(start.push(Elem::Any), values) <==> exists|cut: int|
            0 <= cut <= values.len() && sequence_accepts(start, #[trigger] values.take(cut)),
{
    assert(start.push(Elem::Any) =~= start + seq![Elem::Any]);
    law_concatenation(start, seq![Elem::Any], values);
    assert forall|cut: int| 0 <= cut <= values.len() implies sequence_accepts(
        seq![Elem::Any],
        #[trigger] values.skip(cut),
    ) by {
        law_any_matches_all(values.skip(cut));
    }
    if exists|cut: int|
        0 <= cut <= values.len() && sequence_accepts(start, #[trigger] values.take(cut)) {
        let cut = choose|cut: int|
            0 <= cut <= values.len() && sequence_accepts(start, #[trigger] values.take(cut));
        assert(sequence_accepts(seq![Elem::Any], values.skip(cut)));
    }
}

/// With `**` between two syllable patterns, the first syllable has to match the one
/// and the last syllable the other, and they are two different syllables.
pub proof fn law_first_and_last(first: Pattern, last: Pattern, values: Seq<u16>)
    ensures
        sequence_accepts(seq![Elem::One(first), Elem::Any, Elem::One(last)], values) <==> {
            &&& values.len() >= 2
            &&& first.accepts(values[0])
            &&& last.accepts(values.last())
        },
{
    let elems = seq![Elem::One(first), Elem::Any, Elem::One(last)];
    let inner = elems.skip(1);
    let end = inner.skip(1);
    assert(end =~= seq![Elem::One(last)]);
    if values.len() > 0 {
        let tail = values.skip(1);
        if sequence_accepts(elems, values) {
            assert(sequence_accepts(inner, tail));
            let taken = choose|taken: int|
                0 <= taken <= tail.len() && sequence_accepts(
                    inner.skip(1),
                    #[trigger] tail.skip(taken),
                );
            law_fixed_length(end, tail.skip(taken));
            assert(end[0]->One_0.accepts(tail.skip(taken)[0]));
            assert(tail.skip(taken)[0] == values.last());
        }
        if values.len() >= 2 && first.accepts(values[0]) && last.accepts(values.last()) {
            let taken = tail.len() - 1;
            law_fixed_length(end, tail.skip(taken));
            assert(tail.skip(taken)[0] == values.last());
            assert(sequence_accepts(inner.skip(1), tail.skip(taken)));
            assert(sequence_accepts(inner, tail));
        }
    }
}

/// A run of `**` is one `**`: leaving a second one out changes nothing.
pub proof fn law_runs_are_one(elems: Seq<Elem>, elem: Elem, values: Seq<u16>)
    ensures
        sequence_accepts(extended(elems, elem), values) <==> sequence_accepts(
            elems.push(elem),
            values,
        ),
{
    if elem is Any && elems.len() > 0 && elems.last() is Any {
        let front = elems.drop_last();
        assert(elems =~= front.push(Elem::Any));
        law_starts_with(elems, values);
        law_starts_with(front, values);
        if sequence_accepts(elems, values) {
            assert(values.take(values.len() as int) =~= values);
            assert(sequence_accepts(elems, values.take(values.len() as int)));
        }
        if sequence_accepts(elems.push(elem), values) {
            let cut = choose|cut: int|
                0 <= cut <= values.len() && sequence_accepts(elems, #[trigger] values.take(cut));
            let part = values.take(cut);
            law_starts_with(front, part);
            let inner = choose|inner: int|
                0 <= inner <= part.len() && sequence_accepts(front, #[trigger] part.take(inner));
            assert(part.take(inner) =~= values.take(inner));
            assert(sequence_accepts(front, values.take(inner)));
        }
    }
}

/// The elements that the words of a pattern stand for, one for each.
pub open spec fn word_elems(m: TableModel, ws: Seq<Seq<char>>) -> Seq<Elem> {
    Seq::new(ws.len(), |i: int| elem_of(m, ws[i])->0)
}

/// A pattern is legal exactly when each of its words is, and it is then matched word
/// by word.
pub proof fn law_word_by_word(m: TableModel, ws: Seq<Seq<char>>, values: Seq<u16>)
    ensures
        elems_of(m, ws) is Some <==> forall|i: int|
            0 <= i < ws.len() ==> elem_of(m, #[trigger] ws[i]) is Some,
        elems_of(m, ws) matches Some(elems) ==> (sequence_accepts(elems, values)
            <==> sequence_accepts(word_elems(m, ws), values)),
    decreases ws.len(),
{
    if ws.len() > 0 {
        let front = ws.drop_last();
        law_word_by_word(m, front, values);
        assert(ws =~= front.push(ws.last()));
        assert forall|i: int| 0 <= i < front.len() implies front[i] == #[trigger] ws[i] by {}
        if elems_of(m, ws) is Some {
            let elem = elem_of(m, ws.last())->0;
            let start = elems_of(m, front)->0;
            let plain = word_elems(m, front);
            assert(word_elems(m, ws) =~= plain.push(elem));
            law_runs_are_one(start, elem, values);
            assert(start.push(elem) =~= start + seq![elem]);
            assert(plain.push(elem) =~= plain + seq![elem]);
            law_concatenation(start, seq![elem], values);
            law_concatenation(plain, seq![elem], values);
            assert forall|cut: int| 0 <= cut <= values.len() implies (sequence_accepts(
                start,
                #[trigger] values.take(cut),
            ) <==> sequence_accepts(plain, values.take(cut))) by {
                law_word_by_word(m, front, values.take(cut));
            }
        }
    } else {
        assert(word_elems(m, ws) =~= Seq::<Elem>::empty());
    }
}

/// An empty pattern has no elements, and matches only an empty sequence.
pub proof fn law_empty_pattern(m: TableModel, values: Seq<u16>)
    ensures
        compiled_sequence(m, Seq::empty()) == Some(Seq::<Elem>::empty()),
        sequence_accepts(Seq::empty(), values) <==> values.len() == 0,
{
    assert(words(Seq::empty()) =~= Seq::<Seq<char>>::empty());
}

/// A phrase pattern is matched piece by piece: with white space between two legal
/// patterns, the values can be cut in two so that each pattern matches its own piece.
pub proof fn law_phrase_by_phrase(
    m: TableModel,
    a: Seq<char>,
    space: char,
    b: Seq<char>,
    values: Seq<u16>,
)
    requires
        is_space(space),
        compiled_sequence(m, a) is Some,
        compiled_sequence(m, b) is Some,
    ensures
        compiled_sequence(m, a.push(space) + b) matches Some(elems) && (sequence_accepts(
            elems,
            values,
        ) <==> exists|cut: int|
            0 <= cut <= values.len() && sequence_accepts(
                compiled_sequence(m, a)->0,
                #[trigger] values.take(cut),
            ) && sequence_accepts(compiled_sequence(m, b)->0, values.skip(cut))),
{
    let wa = words(a);
    let wb = words(b);
    let ws = words(a.push(space) + b);
    law_words_at_spaces(a, space, b);
    law_word_by_word(m, wa, values);
    law_word_by_word(m, wb, values);
    law_word_by_word(m, ws, values);
    assert forall|i: int| 0 <= i < ws.len() implies elem_of(m, #[trigger] ws[i]) is Some by {
        if i < wa.len() {
            assert(ws[i] == wa[i]);
        } else {
            assert(ws[i] == wb[i - wa.len()]);
        }
    }
    assert(word_elems(m, ws) =~= word_elems(m, wa) + word_elems(m, wb));
    law_concatenation(word_elems(m, wa), word_elems(m, wb), values);
    assert forall|cut: int| 0 <= cut <= values.len() implies (sequence_accepts(
        compiled_sequence(m, a)->0,
        #[trigger] values.take(cut),
    ) <==> sequence_accepts(word_elems(m, wa), values.take(cut))) && (sequence_accepts(
        compiled_sequence(m, b)->0,
        values.skip(cut),
    ) <==> sequence_accepts(word_elems(m, wb), values.skip(cut))) by {
        law_word_by_word(m, wa, values.take(cut));
        law_word_by_word(m, wb, values.skip(cut));
    }
}

/// A one-syllable pattern is a phrase of exactly one: it accepts a list exactly when
/// the list holds one syllable and the pattern accepts that syllable.
pub proof fn law_list_of_one(m: TableModel, pattern: Seq<char>, values: Seq<u16>)
    requires
        pattern.len() > 0,
        forall|i: int| 0 <= i < pattern.len() ==> !is_space(#[trigger] pattern[i]),
        pattern != "**"@,
    ensures
        compiled_sequence(m, pattern) is Some <==> compiled_text(m, pattern) !is Never,
        compiled_sequence(m, pattern) matches Some(elems) ==> (sequence_accepts(elems, values)
            <==> values.len() == 1 && compiled_text(m, pattern).accepts(values[0])),
{
    let ws = seq![pattern];
    law_single_word(pattern);
    assert(ws.drop_last() =~= Seq::<Seq<char>>::empty());
    assert(elems_of(m, ws.drop_last()) == Some(Seq::<Elem>::empty()));
    if let Some(elems) = compiled_sequence(m, pattern) {
        assert(elems =~= seq![Elem::One(compiled_text(m, pattern))]);
        law_fixed_length(elems, values);
        if values.len() == 1 {
            assert(elems[0]->One_0.accepts(values[0]) == compiled_text(m, pattern).accepts(
                values[0],
            ));
        }
    }
}

/// A phrase of two parts is legal exactly when both parts are.
pub proof fn law_phrase_is_legal(m: TableModel, a: Seq<char>, space: char, b: Seq<char>)
    requires
        is_space(space),
    ensures
        compiled_sequence(m, a.push(space) + b) is Some <==> compiled_sequence(m, a) is Some
            && compiled_sequence(m, b) is Some,
{
    let wa = words(a);
    let wb = words(b);
    let ws = words(a.push(space) + b);
    let none = Seq::<u16>::empty();
    law_words_at_spaces(a, space, b);
    law_word_by_word(m, wa, none);
    law_word_by_word(m, wb, none);
    law_word_by_word(m, ws, none);
    if elems_of(m, ws) is Some {
        assert forall|i: int| 0 <= i < wa.len() implies elem_of(m, #[trigger] wa[i]) is Some by {
            assert(ws[i] == wa[i]);
        }
        assert forall|i: int| 0 <= i < wb.len() implies elem_of(m, #[trigger] wb[i]) is Some by {
            assert(ws[i + wa.len()] == wb[i]);
        }
    }
    if elems_of(m, wa) is Some && elems_of(m, wb) is Some {
        assert forall|i: int| 0 <= i < ws.len() implies elem_of(m, #[trigger] ws[i]) is Some by {
            if i < wa.len() {
                assert(ws[i] == wa[i]);
            } else {
                assert(ws[i] == wb[i - wa.len()]);
            }
        }
    }
}

/// A pattern for one syllable: a text without white space, other than `**`.
pub open spec fn is_single_word(s: Seq<char>) -> bool {
    &&& s.len() > 0
    &&& forall|i: int| 0 <= i < s.len() ==> !is_space(#[trigger] s[i])
    &&& s != "**"@
}

/// `**` by itself is legal and matches every list.
pub proof fn law_run_matches_all(m: TableModel, values: Seq<u16>)
    ensures
        compiled_sequence(m, "**"@) matches Some(elems) && sequence_accepts(elems, values),
{
    let run = "**"@;
    reveal_strlit("**");
    law_single_word(run);
    let ws = seq![run];
    assert(ws.drop_last() =~= Seq::<Seq<char>>::empty());
    assert(elems_of(m, ws.drop_last()) == Some(Seq::<Elem>::empty()));
    assert(ws.last() == run);
    assert(elems_of(m, ws) == Some(seq![Elem::Any])) by {
        assert(Seq::<Elem>::empty().push(Elem::Any) =~= seq![Elem::Any]);
    }
    law_any_matches_all(values);
}

/// A one-syllable pattern with `**` after it asks of the first syllable only, and that
/// there is one.
pub proof fn law_phrase_start(m: TableModel, first: Seq<char>, values: Seq<u16>)
    requires
        is_single_word(first),
        compiled_text(m, first) !is Never,
    ensures
        compiled_sequence(m, first.push(' ') + "**"@) matches Some(elems) && (sequence_accepts(
            elems,
            values,
        ) <==> values.len() >= 1 && compiled_text(m, first).accepts(values[0])),
{
    let run = "**"@;
    law_list_of_one(m, first, values);
    law_run_matches_all(m, values);
    law_phrase_by_phrase(m, first, ' ', run, values);
    assert forall|cut: int| 0 <= cut <= values.len() implies (sequence_accepts(
        compiled_sequence(m, first)->0,
        #[trigger] values.take(cut),
    ) <==> cut == 1 && compiled_text(m, first).accepts(values[0])) && sequence_accepts(
        compiled_sequence(m, run)->0,
        values.skip(cut),
    ) by {
        law_list_of_one(m, first, values.take(cut));
        law_run_matches_all(m, values.skip(cut));
    }
    if values.len() >= 1 && compiled_text(m, first).accepts(values[0]) {
        assert(sequence_accepts(compiled_sequence(m, first)->0, values.take(1)));
    }
}

/// A one-syllable pattern, `**` and another one-syllable pattern: the first syllable has
/// to match the one and the last syllable the other, whatever stands between them, and
/// they are two different syllables.
pub proof fn law_phrase_with_run(m: TableModel, first: Seq<char>, last: Seq<char>, values: Seq<u16>)
    requires
        is_single_word(first),
        is_single_word(last),
        compiled_text(m, first) !is Never,
        compiled_text(m, last) !is Never,
    ensures
        compiled_sequence(m, (first.push(' ') + "**"@).push(' ') + last) matches Some(elems) && (
        sequence_accepts(elems, values) <==> values.len() >= 2 && compiled_text(m, first).accepts(
            values[0],
        ) && compiled_text(m, last).accepts(values[values.len() - 1])),
{
    let start = first.push(' ') + "**"@;
    law_phrase_start(m, first, values);
    law_list_of_one(m, last, values);
    law_phrase_by_phrase(m, start, ' ', last, values);
    assert forall|cut: int| 0 <= cut <= values.len() implies (sequence_accepts(
        compiled_sequence(m, start)->0,
        #[trigger] values.take(cut),
    ) <==> cut >= 1 && compiled_text(m, first).accepts(values[0])) && (sequence_accepts(
        compiled_sequence(m, last)->0,
        values.skip(cut),
    ) <==> cut == values.len() - 1 && compiled_text(m, last).accepts(values[cut])) by {
        law_phrase_start(m, first, values.take(cut));
        law_list_of_one(m, last, values.skip(cut));
        if cut < values.len() {
            assert(values.skip(cut)[0] == values[cut]);
        }
    }
    if values.len() >= 2 && compiled_text(m, first).accepts(values[0]) && compiled_text(
        m,
        last,
    ).accepts(values[values.len() - 1]) {
        assert(sequence_accepts(
            compiled_sequence(m, start)->0,
            values.take(values.len() - 1),
        ));
    }
}

/// A phrase without `**` is legal exactly when each of its words is a legal pattern, and
/// then matches exactly the lists of as many syllables as it has words, each matching
/// its word.
pub proof fn law_phrase_word_by_word(m: TableModel, text: Seq<char>, values: Seq<u16>)
    requires
        forall|i: int| 0 <= i < words(text).len() ==> #[trigger] words(text)[i] != "**"@,
    ensures
        compiled_sequence(m, text) is Some <==> forall|i: int|
            0 <= i < words(text).len() ==> compiled_text(m, #[trigger] words(text)[i]) !is Never,
        compiled_sequence(m, text) matches Some(elems) ==> (sequence_accepts(elems, values) <==> {
            &&& values.len() == words(text).len()
            &&& forall|i: int|
                0 <= i < values.len() ==> compiled_text(m, #[trigger] words(text)[i]).accepts(
                    values[i],
                )
        }),
{
    let ws = words(text);
    law_word_by_word(m, ws, values);
    assert forall|i: int| 0 <= i < ws.len() implies (elem_of(m, #[trigger] ws[i]) is Some)
        == (compiled_text(m, ws[i]) !is Never) by {
        assert(ws[i] != "**"@);
    }
    if compiled_sequence(m, text) is Some {
        let elems = word_elems(m, ws);
        assert forall|i: int| 0 <= i < elems.len() implies (#[trigger] elems[i]) == Elem::One(
            compiled_text(m, ws[i]),
        ) by {
            assert(ws[i] != "**"@);
            assert(elem_of(m, ws[i]) is Some);
        }
        law_fixed_length(elems, values);
        if sequence_accepts(elems, values) {
            assert forall|i: int| 0 <= i < values.len() implies compiled_text(
                m,
                #[trigger] ws[i],
            ).accepts(values[i]) by {
                assert(elems[i]->One_0.accepts(values[i]));
            }
        }
        if values.len() == ws.len() && forall|i: int|
            0 <= i < values.len() ==> compiled_text(m, #[trigger] ws[i]).accepts(values[i]) {
            assert forall|i: int| 0 <= i < elems.len() implies (
            #[trigger] elems[i])->One_0.accepts(values[i]) by {
                assert(compiled_text(m, ws[i]).accepts(values[i]));
            }
        }
    }
}

} // verus!
