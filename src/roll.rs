//! Evaluating a whole expression into a [`Roll`], rolling it again, and
//! writing it out.
use vstd::prelude::*;

use crate::term::{DieRollTerm, EvaluationError};
use crate::text::{int_text, push_all, push_int, strip_white_space, strip_white_space_of};
use crate::tokenize::{all_terms, lemma_terms_wf, terms_of, terms_of_chars, tokens};

verus! {

/// The outcome of evaluating a die roll expression.
#[derive(Debug)]
pub struct Roll {
    /// The expression, without its white space.
    pub drex: String,
    /// Each term, left to right, with the values it produced: the modifier
    /// itself for a modifier, one value per die for a die roll.
    pub values: Vec<(DieRollTerm, Vec<i16>)>,
    /// The sum of what every term adds. It is wide enough that no expression
    /// that fits in memory can overflow it.
    pub total: i128,
}

/// The sum of what each evaluated term adds.
pub open spec fn total_of(values: Seq<(DieRollTerm, Vec<i16>)>) -> int
    decreases values.len(),
{
    if values.len() == 0 {
        0
    } else {
        total_of(values.drop_last()) + values.last().0.contribution(values.last().1@)
    }
}

/// Why the expression `s` cannot be evaluated, if it can't: it has no token,
/// or a token that is no term.
pub open spec fn evaluation_error(s: Seq<char>) -> Option<EvaluationError> {
    let toks = tokens(strip_white_space(s));
    if toks.len() == 0 {
        Some(EvaluationError::NoTermsFound)
    } else if !all_terms(toks) {
        Some(EvaluationError::MalformedTerm)
    } else {
        None
    }
}

impl Roll {
    /// This is one possible evaluation of the expression `s`: it keeps `s`
    /// without white space, pairs each term of `s`, in order, with a possible
    /// outcome of it, and totals what they add.
    pub open spec fn is_roll_of(self, s: Seq<char>) -> bool {
        let terms = terms_of(tokens(strip_white_space(s)));
        &&& self.drex@ == strip_white_space(s)
        &&& self.values@.len() == terms.len()
        &&& forall|i: int|
            0 <= i < terms.len() ==> {
                &&& (#[trigger] self.values@[i]).0 == terms[i]
                &&& terms[i].is_outcome(self.values@[i].1@)
            }
        &&& self.total == total_of(self.values@)
    }
}

/// Evaluates a die roll expression such as `3d6 + 4`: white space is dropped,
/// every term is rolled, left to right, and the results are summed.
pub fn roll_dice(s: &str) -> (r: Result<Roll, EvaluationError>)
    ensures
        match r {
            Ok(roll) => evaluation_error(s@) is None && roll.is_roll_of(s@),
            Err(e) => evaluation_error(s@) == Some(e),
        },
{
    let (drex, chars) = strip_white_space_of(s);
    let terms = match terms_of_chars(&chars) {
        Ok(t) => t,
        Err(e) => return Err(e),
    };
    if terms.len() == 0 {
        return Err(EvaluationError::NoTermsFound);
    }
    let ghost toks = tokens(strip_white_space(s@));
    proof {
        lemma_terms_wf(toks);
    }
    let mut values: Vec<(DieRollTerm, Vec<i16>)> = Vec::new();
    let mut total: i128 = 0;
    let mut i: usize = 0;
    while i < terms.len()
        invariant
            all_terms(toks),
            terms@ == terms_of(toks),
            forall|j: int| 0 <= j < terms@.len() ==> (#[trigger] terms@[j]).wf(),
            i <= terms@.len(),
            values@.len() == i,
            forall|j: int|
                0 <= j < i ==> {
                    &&& (#[trigger] values@[j]).0 == terms@[j]
                    &&& terms@[j].is_outcome(values@[j].1@)
                },
            total == total_of(values@),
            -(i * 32640) <= total <= i * 32640,
        decreases terms.len() - i,
    {
        let (t, draws) = terms[i].evaluate();
        let c = crate::term::contribution_of(t, &draws);
        let ghost old_values = values@;
        values.push((t, draws));
        assert(values@.drop_last() == old_values);
        total = total + c as i128;
        i = i + 1;
    }
    Ok(Roll { drex, values, total })
}

/// The values of a term in brackets, separated by `, ` (`[4, 1, 6]`).
pub open spec fn draws_text(d: Seq<i16>) -> Seq<char> {
    seq!['['] + joined_text(d) + seq![']']
}

/// The values of `d` in decimal, separated by `, `.
pub open spec fn joined_text(d: Seq<i16>) -> Seq<char>
    decreases d.len(),
{
    if d.len() == 0 {
        Seq::empty()
    } else if d.len() == 1 {
        int_text(d[0] as int)
    } else {
        joined_text(d.drop_last()) + seq![',', ' '] + int_text(d.last() as int)
    }
}

/// How an evaluated term is written: a modifier as itself, a die roll as the
/// term followed by its values (`3d6[4, 1, 6]`).
pub open spec fn evaluated_text(t: DieRollTerm, d: Seq<i16>) -> Seq<char> {
    match t {
        DieRollTerm::Modifier(_) => t.text(),
        DieRollTerm::DieRoll { .. } => t.text() + draws_text(d),
    }
}

/// The evaluated terms written one after the other.
pub open spec fn values_text(values: Seq<(DieRollTerm, Vec<i16>)>) -> Seq<char>
    decreases values.len(),
{
    if values.len() == 0 {
        Seq::empty()
    } else {
        values_text(values.drop_last()) + evaluated_text(values.last().0, values.last().1@)
    }
}

/// Appends the values of `d` to `out`, in brackets and separated by `, `.
fn push_draws(out: &mut String, d: &Vec<i16>)
    ensures
        final(out)@ == old(out)@ + draws_text(d@),
{
    let ghost start = out@;
    out.push('[');
    let mut i: usize = 0;
    while i < d.len()
        invariant
            i <= d@.len(),
            out@ == start + seq!['['] + joined_text(d@.take(i as int)),
        decreases d.len() - i,
    {
        assert(d@.take(i + 1).drop_last() == d@.take(i as int));
        if i > 0 {
            out.push(',');
            out.push(' ');
        }
        push_int(out, d[i] as i128);
        i = i + 1;
    }
    assert(d@.take(d@.len() as int) == d@);
    out.push(']');
}

impl Roll {
    /// Writes the roll: each term as it was evaluated, then the total, as in
    /// `3d1[1, 1, 1]+5 (Total: 8)`.
    pub fn to_string(&self) -> (r: String)
        ensures
            r@ == values_text(self.values@) + " (Total: "@ + int_text(self.total as int) + ")"@,
    {
        let mut out = String::new();
        let mut i: usize = 0;
        while i < self.values.len()
            invariant
                i <= self.values@.len(),
                out@ == values_text(self.values@.take(i as int)),
            decreases self.values.len() - i,
        {
            assert(self.values@.take(i + 1).drop_last() == self.values@.take(i as int));
            let (t, d) = (&self.values[i].0, &self.values[i].1);
            let text = t.to_string();
            push_all(&mut out, text.as_str());
            if let DieRollTerm::DieRoll { .. } = *t {
                push_draws(&mut out, d);
            }
            i = i + 1;
        }
        assert(self.values@.take(self.values@.len() as int) == self.values@);
        push_all(&mut out, " (Total: ");
        push_int(&mut out, self.total);
        push_all(&mut out, ")");
        out
    }

    /// An endless sequence of fresh evaluations of this roll's expression.
    pub fn into_iter(self) -> (it: RollIterator)
        ensures
            it.expression() == self.drex@,
    {
        RollIterator { roll: self }
    }
}

/// Rolls the expression of a [`Roll`] again and again, each time afresh.
pub struct RollIterator {
    roll: Roll,
}

impl RollIterator {
    /// The expression that is rolled.
    pub closed spec fn expression(self) -> Seq<char> {
        self.roll.drex@
    }

    /// A new evaluation of the expression. It is `None` only where the
    /// expression cannot be evaluated, which is never the case for an
    /// iterator made from a roll that [`roll_dice`] returned.
    pub fn next(&mut self) -> (r: Option<Roll>)
        ensures
            final(self).expression() == old(self).expression(),
            match r {
                Some(x) => evaluation_error(old(self).expression()) is None && x.is_roll_of(
                    old(self).expression(),
                ),
                None => evaluation_error(old(self).expression()) is Some,
            },
    {
        match roll_dice(self.roll.drex.as_str()) {
            Ok(r) => Some(r),
            Err(_) => None,
        }
    }

    /// The next `n` evaluations of the expression, or none where it cannot be
    /// evaluated.
    pub fn take(&mut self, n: usize) -> (r: Vec<Roll>)
        ensures
            final(self).expression() == old(self).expression(),
            evaluation_error(old(self).expression()) is None ==> r@.len() == n,
            evaluation_error(old(self).expression()) is Some ==> r@.len() == 0,
            forall|i: int| 0 <= i < r@.len() ==> (#[trigger] r@[i]).is_roll_of(old(self).expression()),
    {
        let ghost e = self.expression();
        let mut out: Vec<Roll> = Vec::new();
        let mut i: usize = 0;
        while i < n
            invariant
                e == old(self).expression(),
                self.expression() == e,
                evaluation_error(e) is Some ==> i == 0,
                i <= n,
                out@.len() == i,
                forall|j: int| 0 <= j < out@.len() ==> (#[trigger] out@[j]).is_roll_of(e),
            decreases n - i,
        {
            match self.next() {
                Some(r) => out.push(r),
                None => return out,
            }
            i = i + 1;
        }
        out
    }
}

/// Evaluating an expression again with its white space dropped is evaluating
/// the same expression: the same terms, the same failures, the same rolls.
pub proof fn lemma_reroll_same_expression(s: Seq<char>)
    ensures
        strip_white_space(strip_white_space(s)) == strip_white_space(s),
        evaluation_error(strip_white_space(s)) == evaluation_error(s),
        forall|x: Roll| #[trigger] x.is_roll_of(strip_white_space(s)) == x.is_roll_of(s),
{
    crate::text::lemma_strip_idempotent(s);
}

} // verus!
