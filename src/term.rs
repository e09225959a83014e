//! A single term of an expression: parsing it, rolling it, and reducing it to
//! its share of the total.
use vstd::prelude::*;

use crate::random::uniform_integer;
use crate::text::{
    chars_of, decimal, i8_value, int_text, parse_i8, parse_u8, push_decimal, push_int, push_signed,
    signed_text, u8_value,
};

verus! {

/// Why an expression could not be evaluated.
#[derive(Debug, Clone, Copy, PartialEq, Eq, Structural)]
pub enum EvaluationError {
    /// A term is not a valid die roll or modifier, or a number in it is out of
    /// range.
    MalformedTerm,
    /// The expression holds no term at all.
    NoTermsFound,
}

/// One term of a die roll expression: dice to roll, or a constant.
#[derive(Debug, Clone, Copy, PartialEq, Eq, Structural)]
pub enum DieRollTerm {
    /// Roll `|multiplier|` dice with `sides` sides each and add them up; a
    /// negative multiplier subtracts that sum instead.
    DieRoll {
        /// Number of dice, negative to subtract their sum.
        multiplier: i8,
        /// Number of sides of each die, at least one.
        sides: u8,
    },
    /// A constant added to the total.
    Modifier(i8),
}

/// The separator between the number of dice and the number of sides.
pub open spec fn is_separator(c: char) -> bool {
    c == 'd' || c == 'D'
}

/// The index of the first separator in `t` at or after `i`, or `t.len()`.
pub open spec fn separator_from(t: Seq<char>, i: int) -> int
    decreases t.len() - i,
{
    if i >= t.len() {
        t.len() as int
    } else if is_separator(t[i]) {
        i
    } else {
        separator_from(t, i + 1)
    }
}

/// The term that the token `t` writes, if any.
///
/// With one separator, the part before it is the multiplier (an `i8`) and the
/// part after it the number of sides (a `u8`, at least one). With none, the
/// whole token is a modifier (an `i8`). With two or more it is no term.
pub open spec fn term_of(t: Seq<char>) -> Option<DieRollTerm> {
    let k = separator_from(t, 0);
    if k >= t.len() {
        match i8_value(t) {
            Some(n) => Some(DieRollTerm::Modifier(n)),
            None => None,
        }
    } else if separator_from(t, k + 1) < t.len() {
        None
    } else {
        match (i8_value(t.subrange(0, k)), u8_value(t.subrange(k + 1, t.len() as int))) {
            (Some(m), Some(s)) => if s >= 1 {
                Some(DieRollTerm::DieRoll { multiplier: m, sides: s })
            } else {
                None
            },
            _ => None,
        }
    }
}

/// The number of dice that a multiplier of `m` rolls.
pub open spec fn dice_count(m: i8) -> nat {
    if m < 0 {
        (-m) as nat
    } else {
        m as nat
    }
}

/// The sum of `d`.
pub open spec fn sum_of(d: Seq<i16>) -> int
    decreases d.len(),
{
    if d.len() == 0 {
        0
    } else {
        sum_of(d.drop_last()) + d.last()
    }
}

impl DieRollTerm {
    /// How the term is written: `3d6` for a die roll, `+5` or `-6` for a
    /// modifier.
    pub open spec fn text(self) -> Seq<char> {
        match self {
            DieRollTerm::DieRoll { multiplier, sides } => int_text(multiplier as int) + seq!['d']
                + decimal(sides as nat),
            DieRollTerm::Modifier(n) => signed_text(n as int),
        }
    }

    /// A die has at least one side.
    pub open spec fn wf(self) -> bool {
        match self {
            DieRollTerm::DieRoll { sides, .. } => sides >= 1,
            DieRollTerm::Modifier(_) => true,
        }
    }

    /// `draws` is a possible outcome of evaluating this term: the modifier
    /// itself for a modifier, and `|multiplier|` values in `[1, sides]` for a
    /// die roll.
    pub open spec fn is_outcome(self, draws: Seq<i16>) -> bool {
        match self {
            DieRollTerm::Modifier(n) => draws == seq![n as i16],
            DieRollTerm::DieRoll { multiplier, sides } => {
                &&& draws.len() == dice_count(multiplier)
                &&& forall|i: int| 0 <= i < draws.len() ==> 1 <= #[trigger] draws[i] <= sides
            },
        }
    }

    /// What this term adds to the total when it produced `draws`: the modifier
    /// itself, or the sum of the draws, negated once for a negative multiplier.
    pub open spec fn contribution(self, draws: Seq<i16>) -> int {
        match self {
            DieRollTerm::Modifier(n) => n as int,
            DieRollTerm::DieRoll { multiplier, .. } => if multiplier < 0 {
                -sum_of(draws)
            } else {
                sum_of(draws)
            },
        }
    }
}

/// The index of the first separator in `t` at or after `from`, or `t.len()`.
fn find_separator(t: &Vec<char>, from: usize) -> (r: usize)
    requires
        from <= t@.len(),
    ensures
        r == separator_from(t@, from as int),
{
    let mut i = from;
    while i < t.len()
        invariant
            from <= i <= t@.len(),
            separator_from(t@, i as int) == separator_from(t@, from as int),
        decreases t.len() - i,
    {
        if t[i] == 'd' || t[i] == 'D' {
            return i;
        }
        i = i + 1;
    }
    i
}

/// Reads the term that the characters `t` write.
pub fn parse_chars(t: &Vec<char>) -> (r: Result<DieRollTerm, EvaluationError>)
    ensures
        r == (match term_of(t@) {
            Some(term) => Ok(term),
            None => Err(EvaluationError::MalformedTerm),
        }),
{
    let k = find_separator(t, 0);
    assert(t@.subrange(0, t@.len() as int) == t@);
    if k >= t.len() {
        match parse_i8(t, 0, t.len()) {
            Some(n) => Ok(DieRollTerm::Modifier(n)),
            None => Err(EvaluationError::MalformedTerm),
        }
    } else if find_separator(t, k + 1) < t.len() {
        Err(EvaluationError::MalformedTerm)
    } else {
        match (parse_i8(t, 0, k), parse_u8(t, k + 1, t.len())) {
            (Some(m), Some(s)) => if s >= 1 {
                Ok(DieRollTerm::DieRoll { multiplier: m, sides: s })
            } else {
                Err(EvaluationError::MalformedTerm)
            },
            _ => Err(EvaluationError::MalformedTerm),
        }
    }
}

/// Every term that parsing produces has at least one side per die.
pub proof fn lemma_parsed_term_wf(t: Seq<char>)
    requires
        term_of(t) is Some,
    ensures
        term_of(t)->Some_0.wf(),
{
}

/// The dice of a term add up to at most `255` each.
proof fn lemma_sum_bounds(d: Seq<i16>, sides: u8)
    requires
        forall|i: int| 0 <= i < d.len() ==> 1 <= #[trigger] d[i] <= sides,
    ensures
        d.len() <= sum_of(d) <= d.len() * sides,
    decreases d.len(),
{
    if d.len() > 0 {
        let n = d.len() - 1;
        assert forall|i: int| 0 <= i < n implies 1 <= #[trigger] d.drop_last()[i] <= sides by {
            assert(d.drop_last()[i] == d[i]);
        }
        lemma_sum_bounds(d.drop_last(), sides);
        assert(1 <= d[n] <= sides);
        assert(n * sides + sides == (n + 1) * sides) by (nonlinear_arith);
    }
}

proof fn lemma_sum_of_ones(d: Seq<i16>)
    requires
        forall|i: int| 0 <= i < d.len() ==> #[trigger] d[i] == 1,
    ensures
        sum_of(d) == d.len(),
    decreases d.len(),
{
    if d.len() > 0 {
        assert forall|i: int| 0 <= i < d.len() - 1 implies #[trigger] d.drop_last()[i] == 1 by {
            assert(d.drop_last()[i] == d[i]);
        }
        lemma_sum_of_ones(d.drop_last());
        assert(d[d.len() - 1] == 1);
    }
}

/// Reducing a modifier yields the modifier itself, whatever values it is
/// paired with.
pub proof fn lemma_modifier_reduces_to_itself(n: i8, draws: Seq<i16>)
    ensures
        DieRollTerm::Modifier(n).contribution(draws) == n,
{
}

/// Reducing a die roll whose dice all show one yields `|multiplier|`, negated
/// for a negative multiplier.
pub proof fn lemma_ones_reduce_to_count(multiplier: i8, sides: u8, draws: Seq<i16>)
    requires
        (DieRollTerm::DieRoll { multiplier, sides }).is_outcome(draws),
        forall|i: int| 0 <= i < draws.len() ==> #[trigger] draws[i] == 1,
    ensures
        (DieRollTerm::DieRoll { multiplier, sides }).contribution(draws) == if multiplier >= 0 {
            dice_count(multiplier) as int
        } else {
            -(dice_count(multiplier) as int)
        },
{
    lemma_sum_of_ones(draws);
}

/// A term adds at most `128 * 255` to the total, either way.
pub proof fn lemma_contribution_bounds(t: DieRollTerm, d: Seq<i16>)
    requires
        t.is_outcome(d),
    ensures
        -32640 <= t.contribution(d) <= 32640,
{
    if let DieRollTerm::DieRoll { multiplier, sides } = t {
        lemma_sum_bounds(d, sides);
        assert(d.len() * sides <= 128 * 255) by (nonlinear_arith)
            requires
                d.len() <= 128,
                sides <= 255,
        ;
    }
}

/// What the term `t` adds to the total when it produced `draws`.
pub fn contribution_of(t: DieRollTerm, draws: &Vec<i16>) -> (r: i32)
    requires
        t.is_outcome(draws@),
    ensures
        r == t.contribution(draws@),
        -32640 <= r <= 32640,
{
    proof {
        lemma_contribution_bounds(t, draws@);
    }
    match t {
        DieRollTerm::Modifier(n) => n as i32,
        DieRollTerm::DieRoll { multiplier, sides } => {
            let mut sum: i32 = 0;
            let mut i: usize = 0;
            while i < draws.len()
                invariant
                    draws@.len() == dice_count(multiplier) <= 128,
                    forall|j: int| 0 <= j < draws@.len() ==> 1 <= #[trigger] draws@[j] <= sides,
                    i <= draws@.len(),
                    sum == sum_of(draws@.take(i as int)),
                    0 <= sum <= 128 * 255,
                decreases draws.len() - i,
            {
                proof {
                    let done = draws@.take(i as int);
                    assert forall|j: int| 0 <= j < i implies 1 <= #[trigger] done[j] <= sides by {
                        assert(done[j] == draws@[j]);
                    }
                    lemma_sum_bounds(done, sides);
                    assert(i * sides + sides <= 128 * 255) by (nonlinear_arith)
                        requires
                            i + 1 <= 128,
                            sides <= 255,
                    ;
                    assert(draws@.take(i + 1).drop_last() == done);
                }
                sum = sum + draws[i] as i32;
                i = i + 1;
            }
            assert(draws@.take(draws@.len() as int) == draws@);
            if multiplier < 0 {
                sum = -sum;
            }
            sum
        },
    }
}

impl DieRollTerm {
    /// Reads a single term: `3d6`, `-2D10`, `+7` or `-4`.
    pub fn parse(drt: &str) -> (r: Result<DieRollTerm, EvaluationError>)
        ensures
            r == (match term_of(drt@) {
                Some(term) => Ok(term),
                None => Err(EvaluationError::MalformedTerm),
            }),
    {
        let chars = chars_of(drt);
        parse_chars(&chars)
    }

    /// Rolls this term: a modifier yields itself, a die roll yields
    /// `|multiplier|` values, each drawn uniformly from `[1, sides]`.
    pub fn evaluate(self) -> (r: (DieRollTerm, Vec<i16>))
        requires
            self.wf(),
        ensures
            r.0 == self,
            self.is_outcome(r.1@),
    {
        match self {
            DieRollTerm::Modifier(n) => {
                let v = vec![n as i16];
                assert(v@ == seq![n as i16]);
                (self, v)
            },
            DieRollTerm::DieRoll { multiplier, sides } => {
                let count: u8 = if multiplier < 0 {
                    (0 - multiplier as i16) as u8
                } else {
                    multiplier as u8
                };
                let mut draws: Vec<i16> = Vec::new();
                let mut i: u8 = 0;
                while i < count
                    invariant
                        sides >= 1,
                        count == dice_count(multiplier),
                        i <= count,
                        draws@.len() == i,
                        forall|j: int| 0 <= j < draws@.len() ==> 1 <= #[trigger] draws@[j] <= sides,
                    decreases count - i,
                {
                    let x = uniform_integer(1, sides as i32);
                    draws.push(x as i16);
                    i = i + 1;
                }
                (self, draws)
            },
        }
    }

    /// Writes the term: `3d6` for a die roll, `+5` or `-6` for a modifier.
    pub fn to_string(&self) -> (r: String)
        ensures
            r@ == self.text(),
    {
        let mut out = String::new();
        match *self {
            DieRollTerm::DieRoll { multiplier, sides } => {
                push_int(&mut out, multiplier as i128);
                out.push('d');
                push_decimal(&mut out, sides as u128);
            },
            DieRollTerm::Modifier(n) => push_signed(&mut out, n as i128),
        }
        out
    }

    /// What an evaluated term adds to the total.
    pub fn calculate(v: (DieRollTerm, Vec<i16>)) -> (r: i32)
        requires
            v.0.is_outcome(v.1@),
        ensures
            r == v.0.contribution(v.1@),
    {
        contribution_of(v.0, &v.1)
    }
}

} // verus!
