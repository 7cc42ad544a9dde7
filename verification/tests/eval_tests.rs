//! Evaluation: rolls, checked arithmetic, error payloads, determinism.

use dice_parser::ast::Expr;
use dice_parser::dice::{Dice, DiceErrorKind, Roller};
use dice_parser::eval::{ArithmeticError, DiceRoller, DivideByZeroError, MockCryptoRng, ThreadRandom};
use dice_parser::precedence::Op;

/// A plainly recursive reference evaluator with the same contract as
/// `DiceRoller::try_eval`.
fn naive_try_eval<R: dice_parser::eval::RollSource>(
    roller: &mut DiceRoller<R>,
    expr: &Expr,
) -> Result<i64, ArithmeticError> {
    match expr {
        Expr::Int(x) => Ok(*x as i64),
        Expr::Dice(c, s) => Ok(roller.roll(*c, *s)),
        Expr::Not(e) => match naive_try_eval(roller, e) {
            Ok(v) => {
                if v == i64::MIN {
                    Err(ArithmeticError::Overflow { lhs: None, op: Op::Not, rhs: Some(v) })
                } else {
                    Ok(-v)
                }
            }
            Err(er) => Err(er),
        },
        Expr::Label(e, _) => naive_try_eval(roller, e),
        Expr::Add(l, r) | Expr::Sub(l, r) | Expr::Mul(l, r) | Expr::Div(l, r) => {
            let left = naive_try_eval(roller, l)?;
            let right = naive_try_eval(roller, r)?;
            match expr {
                Expr::Add(..) => left.checked_add(right).ok_or(ArithmeticError::Overflow {
                    lhs: Some(left),
                    op: Op::Add,
                    rhs: Some(right),
                }),
                Expr::Sub(..) => left.checked_sub(right).ok_or(ArithmeticError::Overflow {
                    lhs: Some(left),
                    op: Op::Sub,
                    rhs: Some(right),
                }),
                Expr::Mul(..) => left.checked_mul(right).ok_or(ArithmeticError::Overflow {
                    lhs: Some(left),
                    op: Op::Mul,
                    rhs: Some(right),
                }),
                Expr::Div(..) => {
                    if right == 0 {
                        Err(ArithmeticError::DivideByZero(left))
                    } else {
                        left.checked_div(right).ok_or(ArithmeticError::Overflow {
                            lhs: Some(left),
                            op: Op::Div,
                            rhs: Some(right),
                        })
                    }
                }
                _ => unreachable!(),
            }
        }
    }
}

#[test]
fn test_roll_with_mock_rng() {
    let mock_crypto_rng = MockCryptoRng::default();
    let mut dr = DiceRoller::new(mock_crypto_rng);

    assert_eq!(dr.roll(1, 20), 1);
    assert_eq!(dr.roll(100, 20), 100);
}

#[test]
fn test_try_eval() {
    // 1d20 + (-(4+4)/2 * (0 - 5d20)["subtraction"])
    // 21
    let tree = Expr::add(
        Expr::dice(1, 20),
        Expr::mul(
            Expr::not(Expr::div(
                Expr::add(Expr::literal(4), Expr::literal(4)),
                Expr::literal(2),
            )),
            Expr::label(
                Expr::sub(Expr::literal(0), Expr::dice(5, 20)),
                String::from("subtraction"),
            ),
        ),
    );

    let mock_rng = MockCryptoRng::default();
    let mut dr = DiceRoller::new(mock_rng);

    assert_eq!(dr.try_eval(&tree), Ok(21));
}

#[test]
fn test_try_eval_div_zero() {
    // 1d20 / 0
    let tree = Expr::div(Expr::dice(1, 20), Expr::literal(0));
    let mut dr = DiceRoller::new(MockCryptoRng::default());

    assert_eq!(dr.try_eval(&tree), Err(ArithmeticError::DivideByZero(1)))
}

#[test]
fn proptest_regressions() {
    let cases = [
        (Expr::not(Expr::literal(-1)), &[1u64]),
        (
            Expr::div(
                Expr::literal(0),
                Expr::add(Expr::literal(0), Expr::literal(-1)),
            ),
            &[1],
        ),
        (
            Expr::sub(Expr::div(Expr::literal(0), Expr::literal(0)), Expr::literal(0)),
            &[1],
        ),
        (
            Expr::sub(Expr::literal(0), Expr::div(Expr::literal(0), Expr::literal(-1))),
            &[1],
        ),
    ];

    for (input_tree, input_seed) in cases.into_iter() {
        let mut roller_gat = DiceRoller::new(MockCryptoRng::new(input_seed));
        let mut roller_naive = DiceRoller::new(MockCryptoRng::new(input_seed));
        let expr = Box::new(input_tree);

        let eval_gat = roller_gat.try_eval(expr.as_ref());
        let eval_naive = naive_try_eval(&mut roller_naive, expr.as_ref());
        assert_eq!(eval_naive, eval_gat, "naive impl differs from stack impl!");
    }
}

#[test]
fn same_seed_same_outcome() {
    let tree = Expr::add(
        Expr::dice(3, 6),
        Expr::mul(Expr::dice(2, 10), Expr::not(Expr::dice(1, 4))),
    );
    let mut r1 = DiceRoller::new(MockCryptoRng::new(&[9, 4, 7, 1, 3]));
    let mut r2 = DiceRoller::new(MockCryptoRng::new(&[9, 4, 7, 1, 3]));
    assert_eq!(r1.try_eval(&tree), r2.try_eval(&tree));

    let mut n1 = DiceRoller::new(MockCryptoRng::new(&[9, 4, 7, 1, 3]));
    let stacked = r1.try_eval(&tree);
    let naive = naive_try_eval(&mut n1, &tree);
    // r1 advanced past the first evaluation; redo from a fresh seed.
    let mut r3 = DiceRoller::new(MockCryptoRng::new(&[9, 4, 7, 1, 3]));
    assert_eq!(r3.try_eval(&tree), naive);
    let _ = stacked;
}

#[test]
fn thread_random_draws_stay_in_range() {
    let mut dr: DiceRoller<ThreadRandom> = DiceRoller::default();
    // A die of one side can only roll a 1, whatever the generator does.
    assert_eq!(dr.roll(4, 1), 4);
    let r = dr.roll(5, 6);
    assert!(5 <= r && r <= 30);
    let v = dr.try_eval(&Expr::dice(1, 1));
    assert_eq!(v, Ok(1));
}

#[test]
fn eval_returns_the_plain_value() {
    let tree = Expr::add(Expr::dice(2, 8), Expr::literal(5));
    let mut dr = DiceRoller::new(MockCryptoRng::default());
    // Every mock roll is a 1, so 1 + 1 + 5.
    assert_eq!(dr.eval(&tree), 7);
}

#[test]
fn multiplication_overflow_is_exact() {
    // (2^30) * ((2^30) * 16) = 2^64, past the 64-bit range.
    let big = 1073741824;
    let tree = Expr::mul(
        Expr::literal(big),
        Expr::mul(Expr::literal(big), Expr::literal(16)),
    );
    let mut dr = DiceRoller::new(MockCryptoRng::default());
    assert_eq!(
        dr.try_eval(&tree),
        Err(ArithmeticError::Overflow {
            lhs: Some(big as i64),
            op: Op::Mul,
            rhs: Some((big as i64) * 16),
        })
    );
    // One factor smaller and the product fits.
    let fits = Expr::mul(
        Expr::literal(big),
        Expr::mul(Expr::literal(big), Expr::literal(4)),
    );
    assert_eq!(dr.try_eval(&fits), Ok((big as i64) * (big as i64) * 4));
}

#[test]
fn negating_the_minimum_reports_overflow() {
    // 65536 * (65536 * -2147483648) evaluates to i64::MIN exactly.
    let tree = Expr::not(Expr::mul(
        Expr::literal(65536),
        Expr::mul(Expr::literal(65536), Expr::literal(i32::MIN)),
    ));
    let mut dr = DiceRoller::new(MockCryptoRng::default());
    assert_eq!(
        dr.try_eval(&tree),
        Err(ArithmeticError::Overflow { lhs: None, op: Op::Not, rhs: Some(i64::MIN) })
    );
}

#[test]
fn division_truncates_toward_zero() {
    let mut dr = DiceRoller::new(MockCryptoRng::default());
    let t1 = Expr::div(Expr::literal(-7), Expr::literal(2));
    assert_eq!(dr.try_eval(&t1), Ok(-3));
    let t2 = Expr::div(Expr::literal(7), Expr::literal(-2));
    assert_eq!(dr.try_eval(&t2), Ok(-3));
    let t3 = Expr::div(Expr::literal(-7), Expr::literal(-2));
    assert_eq!(dr.try_eval(&t3), Ok(3));
}

#[test]
fn divide_by_zero_error_wraps_the_numerator() {
    let e = DivideByZeroError::new(42);
    assert_eq!(e, DivideByZeroError(42));
}

#[test]
fn dice_descriptor_conversion() {
    let ok = Dice::try_from_expr(&Expr::Dice(3, 6)).unwrap();
    assert_eq!(ok, Dice::new(3, 6));

    let invalid = Dice::try_from_expr(&Expr::Int(3)).unwrap_err();
    assert!(matches!(invalid.kind(), DiceErrorKind::Invalid));

    let overflow = Dice::try_from_expr(&Expr::Dice(70000, 6)).unwrap_err();
    assert!(matches!(overflow.kind(), DiceErrorKind::Overflow));

    let negative = Dice::try_from_expr(&Expr::Dice(-1, 6)).unwrap_err();
    assert!(matches!(negative.kind(), DiceErrorKind::Overflow));

    let zero = Dice::try_from_expr(&Expr::Dice(0, 6)).unwrap_err();
    assert!(matches!(zero.kind(), DiceErrorKind::Zero));
}

#[test]
fn roller_rolls_descriptors() {
    let mut roller = Roller::new(MockCryptoRng::default());
    let die = Dice::new(4, 12);
    assert_eq!(roller.roll_dice(die), 4);
}

#[test]
fn dice_free_evaluation_ignores_the_source() {
    // With no dice in the tree, even the live random source cannot
    // change the outcome.
    let mut dr: DiceRoller<ThreadRandom> = DiceRoller::default();
    let tree = Expr::div(
        Expr::sub(Expr::literal(100), Expr::literal(58)),
        Expr::literal(7),
    );
    assert_eq!(dr.try_eval(&tree), Ok(6));
    let div_zero = Expr::div(Expr::literal(9), Expr::literal(0));
    assert_eq!(dr.try_eval(&div_zero), Err(ArithmeticError::DivideByZero(9)));
}
