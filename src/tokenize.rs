//! Splitting an expression into its term tokens.
//!
//! A token is an optional sign, a run of decimal digits, and optionally a
//! separator (`d` or `D`) and a second run of digits. Scanning goes left to
//! right: at each position the longest die roll token is taken if one starts
//! there, else the longest modifier token, else the character is skipped.
use vstd::prelude::*;

use crate::term::{
    parse_chars, term_of, is_separator, lemma_parsed_term_wf, DieRollTerm, EvaluationError,
};
use crate::text::{chars_of, digit, is_digit};

verus! {

pub open spec fn is_sign(c: char) -> bool {
    c == '+' || c == '-'
}

/// The end of the run of digits in `s` that starts at `i`.
pub open spec fn digits_end(s: Seq<char>, i: int) -> int
    decreases s.len() - i,
{
    if 0 <= i < s.len() && is_digit(s[i]) {
        digits_end(s, i + 1)
    } else {
        i
    }
}

/// The end of the token that starts at `p` in `s`, if one starts there.
pub open spec fn token_end(s: Seq<char>, p: int) -> Option<int> {
    let q0 = if 0 <= p < s.len() && is_sign(s[p]) {
        p + 1
    } else {
        p
    };
    if !(0 <= q0 < s.len() && is_digit(s[q0])) {
        None
    } else {
        let q = digits_end(s, q0);
        if q + 1 < s.len() && is_separator(s[q]) && is_digit(s[q + 1]) {
            Some(digits_end(s, q + 1))
        } else {
            Some(q)
        }
    }
}

pub proof fn lemma_digits_end(s: Seq<char>, i: int)
    requires
        0 <= i <= s.len(),
    ensures
        i <= digits_end(s, i) <= s.len(),
        forall|j: int| i <= j < digits_end(s, i) ==> is_digit(#[trigger] s[j]),
        digits_end(s, i) < s.len() ==> !is_digit(s[digits_end(s, i)]),
    decreases s.len() - i,
{
    if i < s.len() && is_digit(s[i]) {
        lemma_digits_end(s, i + 1);
    }
}

pub proof fn lemma_token_end(s: Seq<char>, p: int)
    requires
        0 <= p < s.len(),
    ensures
        token_end(s, p) matches Some(e) ==> p < e <= s.len(),
{
    let q0 = if is_sign(s[p]) {
        p + 1
    } else {
        p
    };
    if 0 <= q0 < s.len() && is_digit(s[q0]) {
        lemma_digits_end(s, q0);
        let q = digits_end(s, q0);
        if q + 1 < s.len() {
            lemma_digits_end(s, q + 1);
        }
    }
}

/// The tokens of `s` from position `i` on, in order.
pub open spec fn tokens_from(s: Seq<char>, i: int) -> Seq<Seq<char>>
    decreases s.len() - i,
{
    if i < 0 || i >= s.len() {
        Seq::empty()
    } else {
        match token_end(s, i) {
            Some(e) => {
                proof {
                    lemma_token_end(s, i);
                }
                seq![s.subrange(i, e)] + tokens_from(s, e)
            },
            None => tokens_from(s, i + 1),
        }
    }
}

/// The tokens of `s`, in order.
pub open spec fn tokens(s: Seq<char>) -> Seq<Seq<char>> {
    tokens_from(s, 0)
}

/// Every token is a term.
pub open spec fn all_terms(toks: Seq<Seq<char>>) -> bool {
    forall|j: int| 0 <= j < toks.len() ==> (#[trigger] term_of(toks[j])) is Some
}

/// The terms that the tokens write, in order.
pub open spec fn terms_of(toks: Seq<Seq<char>>) -> Seq<DieRollTerm> {
    toks.map_values(|t: Seq<char>| term_of(t)->Some_0)
}

fn digits_end_of(v: &Vec<char>, i: usize) -> (r: usize)
    requires
        i <= v@.len(),
    ensures
        r == digits_end(v@, i as int),
{
    let mut j = i;
    while j < v.len() && digit(v[j])
        invariant
            i <= j <= v@.len(),
            digits_end(v@, j as int) == digits_end(v@, i as int),
        decreases v.len() - j,
    {
        j = j + 1;
    }
    j
}

fn token_end_of(v: &Vec<char>, p: usize) -> (r: Option<usize>)
    requires
        p < v@.len(),
    ensures
        match r {
            Some(e) => token_end(v@, p as int) == Some(e as int),
            None => token_end(v@, p as int) is None,
        },
{
    let n = v.len();
    let q0 = if v[p] == '+' || v[p] == '-' {
        p + 1
    } else {
        p
    };
    if !(q0 < v.len() && digit(v[q0])) {
        return None;
    }
    let q = digits_end_of(v, q0);
    proof {
        lemma_digits_end(v@, q0 as int);
    }
    if q < n && q + 1 < n && (v[q] == 'd' || v[q] == 'D') && digit(v[q + 1]) {
        Some(digits_end_of(v, q + 1))
    } else {
        Some(q)
    }
}

/// The characters `v[lo..hi]` as a vector of their own.
fn copy_range(v: &Vec<char>, lo: usize, hi: usize) -> (r: Vec<char>)
    requires
        lo <= hi <= v@.len(),
    ensures
        r@ == v@.subrange(lo as int, hi as int),
{
    let mut r: Vec<char> = Vec::new();
    let mut i = lo;
    while i < hi
        invariant
            lo <= i <= hi <= v@.len(),
            r@ == v@.subrange(lo as int, i as int),
        decreases hi - i,
    {
        r.push(v[i]);
        i = i + 1;
    }
    r
}

/// The terms of the characters `v`, or `MalformedTerm` where a token is no
/// term.
pub fn terms_of_chars(v: &Vec<char>) -> (r: Result<Vec<DieRollTerm>, EvaluationError>)
    ensures
        match r {
            Ok(ts) => all_terms(tokens(v@)) && ts@ == terms_of(tokens(v@)),
            Err(e) => !all_terms(tokens(v@)) && e == EvaluationError::MalformedTerm,
        },
{
    let mut ts: Vec<DieRollTerm> = Vec::new();
    let ghost mut done: Seq<Seq<char>> = Seq::empty();
    let mut i: usize = 0;
    while i < v.len()
        invariant
            i <= v@.len(),
            tokens(v@) == done + tokens_from(v@, i as int),
            all_terms(done),
            ts@ == terms_of(done),
        decreases v.len() - i,
    {
        match token_end_of(v, i) {
            Some(e) => {
                proof {
                    lemma_token_end(v@, i as int);
                }
                let tok = copy_range(v, i, e);
                let ghost rest = tokens_from(v@, e as int);
                assert(tokens_from(v@, i as int) == seq![tok@] + rest);
                assert(done + (seq![tok@] + rest) == done.push(tok@) + rest);
                match parse_chars(&tok) {
                    Ok(t) => {
                        ts.push(t);
                        proof {
                            assert(terms_of(done.push(tok@)) == terms_of(done).push(t));
                            done = done.push(tok@);
                        }
                        i = e;
                    },
                    Err(err) => {
                        assert(tokens(v@)[done.len() as int] == tok@);
                        return Err(err);
                    },
                }
            },
            None => {
                i = i + 1;
            },
        }
    }
    assert(tokens(v@) == done);
    Ok(ts)
}

/// The terms of an expression that holds no white space, in order: `Ok` with
/// no terms where it holds no token, `MalformedTerm` where a token is no term.
pub fn parse_die_roll_terms(drex: &str) -> (r: Result<Vec<DieRollTerm>, EvaluationError>)
    ensures
        match r {
            Ok(ts) => all_terms(tokens(drex@)) && ts@ == terms_of(tokens(drex@)),
            Err(e) => !all_terms(tokens(drex@)) && e == EvaluationError::MalformedTerm,
        },
{
    let chars = chars_of(drex);
    terms_of_chars(&chars)
}

/// Every term of an expression has at least one side per die.
pub proof fn lemma_terms_wf(toks: Seq<Seq<char>>)
    requires
        all_terms(toks),
    ensures
        forall|j: int| 0 <= j < toks.len() ==> (#[trigger] terms_of(toks)[j]).wf(),
{
    assert forall|j: int| 0 <= j < toks.len() implies (#[trigger] terms_of(toks)[j]).wf() by {
        lemma_parsed_term_wf(toks[j]);
    }
}

} // verus!
