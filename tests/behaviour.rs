use d20::{
    parse_die_roll_terms, roll_dice, roll_range, DieRollTerm, EvaluationError, RangeError,
};
use regex::Regex;

#[test]
fn garbage_has_no_terms() {
    let r = roll_dice("two plus two equals CHICKEN!");
    assert_eq!(r.unwrap_err(), EvaluationError::NoTermsFound);
    assert_eq!(roll_dice("").unwrap_err(), EvaluationError::NoTermsFound);
    assert_eq!(roll_dice("   \t ").unwrap_err(), EvaluationError::NoTermsFound);
    assert_eq!(roll_dice("+-d").unwrap_err(), EvaluationError::NoTermsFound);
}

#[test]
fn out_of_range_numbers_are_malformed() {
    assert_eq!(roll_dice("200").unwrap_err(), EvaluationError::MalformedTerm);
    assert_eq!(roll_dice("-129").unwrap_err(), EvaluationError::MalformedTerm);
    assert_eq!(roll_dice("128d6").unwrap_err(), EvaluationError::MalformedTerm);
    assert_eq!(roll_dice("3d256").unwrap_err(), EvaluationError::MalformedTerm);
    assert_eq!(roll_dice("2d6 + 3d0").unwrap_err(), EvaluationError::MalformedTerm);
    assert_eq!(roll_dice("99999999999999999999").unwrap_err(), EvaluationError::MalformedTerm);
}

#[test]
fn term_parse_rejects_malformed_tokens() {
    assert_eq!(DieRollTerm::parse("1d2d3"), Err(EvaluationError::MalformedTerm));
    assert_eq!(DieRollTerm::parse("d6"), Err(EvaluationError::MalformedTerm));
    assert_eq!(DieRollTerm::parse("3d"), Err(EvaluationError::MalformedTerm));
    assert_eq!(DieRollTerm::parse("3d-6"), Err(EvaluationError::MalformedTerm));
    assert_eq!(DieRollTerm::parse(""), Err(EvaluationError::MalformedTerm));
    assert_eq!(DieRollTerm::parse("+"), Err(EvaluationError::MalformedTerm));
    assert_eq!(DieRollTerm::parse("x"), Err(EvaluationError::MalformedTerm));
    assert_eq!(DieRollTerm::parse("3d0"), Err(EvaluationError::MalformedTerm));
}

#[test]
fn term_parse_accepts_edge_values() {
    assert_eq!(
        DieRollTerm::parse("-128d255"),
        Ok(DieRollTerm::DieRoll { multiplier: -128, sides: 255 })
    );
    assert_eq!(
        DieRollTerm::parse("+127D1"),
        Ok(DieRollTerm::DieRoll { multiplier: 127, sides: 1 })
    );
    assert_eq!(DieRollTerm::parse("3d+6"), Ok(DieRollTerm::DieRoll { multiplier: 3, sides: 6 }));
    assert_eq!(DieRollTerm::parse("007"), Ok(DieRollTerm::Modifier(7)));
    assert_eq!(DieRollTerm::parse("-0"), Ok(DieRollTerm::Modifier(0)));
    assert_eq!(DieRollTerm::parse("-128"), Ok(DieRollTerm::Modifier(-128)));
}

#[test]
fn upper_case_separator_is_accepted() {
    let r = roll_dice("2D1 + 1").unwrap();
    assert_eq!(r.total, 3);
    assert_eq!(r.values[0].0, DieRollTerm::DieRoll { multiplier: 2, sides: 1 });
}

#[test]
fn unmatched_text_is_skipped() {
    let r = roll_dice("3d1 and a potato").unwrap();
    assert_eq!(r.drex, "3d1andapotato");
    assert_eq!(r.values.len(), 1);
    assert_eq!(r.total, 3);
}

#[test]
fn all_white_space_is_dropped() {
    let r = roll_dice("3d1\u{a0}+\u{2003}2\n").unwrap();
    assert_eq!(r.drex, "3d1+2");
    assert_eq!(r.total, 5);
}

#[test]
fn largest_terms_total_exactly() {
    let r = roll_dice("-128d1 + 127d1 + 127 - 128").unwrap();
    assert_eq!(r.values[0].1.len(), 128);
    assert_eq!(r.total, -128 + 127 + 127 - 128);
}

#[test]
fn wide_dice_stay_in_range() {
    let r = roll_dice("20d255").unwrap();
    assert_eq!(r.values[0].1.len(), 20);
    for v in &r.values[0].1 {
        assert!(*v >= 1 && *v <= 255);
    }
    let sum: i128 = r.values[0].1.iter().map(|v| *v as i128).sum();
    assert_eq!(r.total, sum);
}

#[test]
fn negative_multiplier_negates_sum_once() {
    let t = DieRollTerm::DieRoll { multiplier: -3, sides: 6 };
    assert_eq!(DieRollTerm::calculate((t, vec![2, 5, 6])), -13);
    let t = DieRollTerm::DieRoll { multiplier: 3, sides: 6 };
    assert_eq!(DieRollTerm::calculate((t, vec![2, 5, 6])), 13);
}

#[test]
fn all_ones_reduce_to_multiplier() {
    for m in [-128i8, -4, -1, 0, 1, 4, 127] {
        let n = (m as i32).unsigned_abs() as usize;
        let t = DieRollTerm::DieRoll { multiplier: m, sides: 6 };
        assert_eq!(DieRollTerm::calculate((t, vec![1; n])), m as i32);
    }
    assert_eq!(DieRollTerm::calculate((DieRollTerm::Modifier(-9), vec![-9])), -9);
}

#[test]
fn draws_lie_between_one_and_sides() {
    for m in [-7i8, 0, 5] {
        let (t, d) = DieRollTerm::DieRoll { multiplier: m, sides: 4 }.evaluate();
        assert_eq!(t, DieRollTerm::DieRoll { multiplier: m, sides: 4 });
        assert_eq!(d.len(), (m as i32).unsigned_abs() as usize);
        assert!(d.iter().all(|v| *v >= 1 && *v <= 4));
    }
}

#[test]
fn range_errors_and_single_values() {
    assert_eq!(roll_range(12, 1), Err(RangeError::InvalidRange));
    assert_eq!(roll_range(3, 3), Ok(3));
    assert_eq!(roll_range(-5, -5), Ok(-5));
    for _ in 0..100 {
        let x = roll_range(-10, 10).unwrap();
        assert!(x >= -10 && x <= 10);
    }
}

#[test]
fn random_draws_reach_both_faces() {
    let mut seen = [false; 2];
    for _ in 0..200 {
        let r = roll_dice("1d2").unwrap();
        seen[(r.total - 1) as usize] = true;
    }
    assert!(seen[0] && seen[1]);
    let mut low = false;
    let mut high = false;
    for _ in 0..200 {
        match roll_range(7, 8).unwrap() {
            7 => low = true,
            8 => high = true,
            _ => panic!("out of range"),
        }
    }
    assert!(low && high);
}

#[test]
fn reroll_keeps_expression() {
    let mut it = roll_dice(" 2d1 - 1 ").unwrap().into_iter();
    for _ in 0..5 {
        let r = it.next().unwrap();
        assert_eq!(r.drex, "2d1-1");
        assert_eq!(r.total, 1);
    }
    let v = roll_dice("3d6").unwrap().into_iter().take(6);
    assert!(v.iter().all(|r| r.total >= 3 && r.total <= 18));
}

#[test]
fn rendering_of_modifiers_and_empty_dice() {
    let r = roll_dice("0d6 + 0 - 128").unwrap();
    assert_eq!(r.to_string(), "0d6[]+0-128 (Total: -128)");
    assert_eq!(DieRollTerm::Modifier(0).to_string(), "+0");
    assert_eq!(DieRollTerm::DieRoll { multiplier: -12, sides: 100 }.to_string(), "-12d100");
}

#[test]
fn tokens_match_the_pattern() {
    let re = Regex::new(r"([+-]?\s*\d+[dD]\d+|[+-]?\s*\d+)").unwrap();
    let inputs = [
        "3d12+4",
        "-4d10+5",
        "50+2d8-1d4",
        "3dd6",
        "12d34d5",
        "--3",
        "+d4+-2",
        "1d20-3xyz7D8",
        "abc",
        "3d6andapotato",
        "0d0",
        "+5-6+7d",
    ];
    for input in inputs {
        let expected: Result<Vec<DieRollTerm>, EvaluationError> =
            re.find_iter(input).map(|m| DieRollTerm::parse(m.as_str())).collect();
        assert_eq!(parse_die_roll_terms(input), expected, "{}", input);
    }
}
