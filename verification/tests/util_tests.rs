//! Character helpers, precedence tables, and the frame machinery.

use dice_parser::ast::{Expr, ExprFrame};
use dice_parser::exts::AsCharExt;
use dice_parser::precedence::{BinOp, Op};

#[test]
fn test_numbers() {
    for digit in 1..=9 {
        assert!(char::from_digit(digit, 10).is_some_and(|d| d.is_nonzero_dec_digit()));
    }

    assert!('0'.is_nonzero_dec_digit() == false);
}

#[test]
fn test_all_u8() {
    for n in u8::MIN..=u8::MAX {
        assert_eq!(
            n.is_nonzero_dec_digit(),
            n.is_ascii_digit() && n != b'0',
            "byte `{n}` (char = `{}`).is_nonzero_dec_digit()",
            n as char,
        );
    }
}

#[test]
fn precedence_tables() {
    assert_eq!(Op::Empty.prec(), 0);
    assert_eq!(Op::Label.prec(), 10);
    assert_eq!(Op::Not.prec(), 20);
    assert_eq!(Op::Mul.prec(), 30);
    assert_eq!(Op::Add.prec(), 40);

    assert_eq!(Op::Add.as_binop(), Some(BinOp::Add));
    assert_eq!(Op::Not.as_binop(), None);
    assert_eq!(BinOp::Div.as_op(), Op::Div);
    assert_eq!(BinOp::Sub.as_str(), "-");
    assert_eq!(BinOp::Mul.prec(), 30);

    assert_eq!(Op::from_expr(&Expr::literal(1)), Op::Empty);
    assert_eq!(
        Op::from_expr(&Expr::sub(Expr::literal(1), Expr::literal(2))),
        Op::Sub
    );

    // Equal precedence needs no parentheses on the left, and on the right
    // exactly for the non-associative operators.
    assert_eq!(BinOp::needs_parenthesis(BinOp::Sub, Op::Sub, Op::Sub), (false, true));
    assert_eq!(BinOp::needs_parenthesis(BinOp::Add, Op::Add, Op::Add), (false, false));
    assert_eq!(BinOp::needs_parenthesis(BinOp::Mul, Op::Add, Op::Empty), (true, false));
}

#[test]
fn frames_unroll_and_roll_up() {
    let tree = Expr::add(Expr::literal(1), Expr::dice(2, 6));
    match tree.into_frame() {
        ExprFrame::Add(l, r) => {
            assert_eq!(*l, Expr::Int(1));
            assert_eq!(*r, Expr::Dice(2, 6));
        }
        other => panic!("expected an addition frame, got {:?}", other),
    }

    let rolled = Expr::from_frame(ExprFrame::Sub(Expr::literal(5), Expr::literal(3)));
    assert_eq!(rolled, Expr::sub(Expr::literal(5), Expr::literal(3)));
}

#[test]
fn frame_map_touches_only_children() {
    let frame: ExprFrame<i32> = ExprFrame::Add(3, 4);
    let doubled = frame.map(|x| x * 2);
    assert_eq!(doubled, ExprFrame::Add(6, 8));

    let labeled: ExprFrame<i32> = ExprFrame::Label(7, String::from("note"));
    match labeled.map(|x| x + 1) {
        ExprFrame::Label(v, m) => {
            assert_eq!(v, 8);
            assert_eq!(m.as_str(), "note");
        }
        other => panic!("expected a label frame, got {:?}", other),
    }

    let leaf: ExprFrame<i32> = ExprFrame::Dice(2, 6);
    assert_eq!(leaf.map(|x| x + 1), ExprFrame::Dice(2, 6));
}

#[test]
fn is_unit_follows_the_unary_spine() {
    assert!(Expr::literal(4).is_unit());
    assert!(Expr::not(Expr::label(Expr::dice(1, 6), String::from("x"))).is_unit());
    assert!(!Expr::add(Expr::literal(1), Expr::literal(2)).is_unit());
    assert!(!Expr::not(Expr::add(Expr::literal(1), Expr::literal(2))).is_unit());
}
