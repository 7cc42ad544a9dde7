//! Rendering with minimal parenthesization, and the round trip back
//! through the parser.

use dice_parser::ast::Expr;
use dice_parser::ast::Expr as e;
use dice_parser::eval::{DiceRoller, MockCryptoRng};
use dice_parser::parser::parse;

#[test]
fn test_normalized_parenthesis() {
    // 4 * (1 + 3) / 7 / ((8 + 9) * 2)
    let four = e::literal(4);
    let one = e::literal(1);
    let three = e::literal(3);
    let seven = e::literal(7);
    let eight = e::literal(8);
    let nine = e::literal(9);
    let two = e::literal(2);

    let tree = e::div(
        e::div(e::mul(four, e::add(one, three)), seven),
        e::mul(e::add(eight, nine), two),
    );

    assert_eq!(tree.render().as_str(), "4 * (1 + 3) / 7 / ((8 + 9) * 2)");
}

#[test]
fn can_construct_tree() {
    let tree1 = Expr::Mul(
        Box::new(Expr::Add(
            Box::new(Expr::Int(1)),
            Box::new(Expr::Not(Box::new(Expr::Int(5)))),
        )),
        Box::new(Expr::Label(Box::new(Expr::Int(10)), String::from("mult 10"))),
    );

    let tree2 = {
        e::mul(
            e::add(e::literal(1), e::not(e::literal(5))),
            e::label(e::literal(10), String::from("mult 10")),
        )
    };

    let tree3 = { e::add(e::literal(1), e::literal(2)) };

    assert_eq!(tree1, tree2);
    assert_ne!(tree1, tree3);
}

#[test]
fn test_parse_eval() {
    let to_parse = "4 * (1 + 3) / 7 / ((8 + 9) * 2)";

    let tree_exp = {
        e::div(
            e::div(
                e::mul(e::literal(4), e::add(e::literal(1), e::literal(3))),
                e::literal(7),
            ),
            e::mul(e::add(e::literal(8), e::literal(9)), e::literal(2)),
        )
    };

    let tree_res = parse(to_parse).unwrap();
    assert_eq!(tree_res, tree_exp);

    let mut rng: DiceRoller = DiceRoller::default();
    let eval_res = rng.try_eval(&tree_res);
    assert_eq!(eval_res, Ok(0));

    assert_eq!(tree_res.render().as_str(), to_parse);
}

#[test]
fn addition_chain_renders_without_parens() {
    let tree = Expr::add(
        Expr::add(Expr::literal(1), Expr::dice(2, 6)),
        Expr::add(Expr::literal(3), Expr::literal(4)),
    );
    let text = tree.render();
    assert!(!text.contains('('));
    assert!(!text.contains(')'));
    assert_eq!(text.as_str(), "1 + 2d6 + 3 + 4");
}

#[test]
fn subtraction_grouping_is_preserved() {
    let right_nested = Expr::sub(
        Expr::literal(1),
        Expr::sub(Expr::literal(2), Expr::literal(3)),
    );
    assert_eq!(right_nested.render().as_str(), "1 - (2 - 3)");

    let left_nested = Expr::sub(
        Expr::sub(Expr::literal(1), Expr::literal(2)),
        Expr::literal(3),
    );
    assert_eq!(left_nested.render().as_str(), "1 - 2 - 3");
}

#[test]
fn round_trip_preserves_the_value() {
    let tree = Expr::mul(
        Expr::sub(Expr::literal(10), Expr::sub(Expr::literal(4), Expr::dice(2, 6))),
        Expr::not(Expr::label(Expr::literal(3), String::from("bonus"))),
    );
    let text = tree.render();
    let reparsed = parse(text.as_str()).unwrap();

    let mut r1 = DiceRoller::new(MockCryptoRng::new(&[5, 2]));
    let mut r2 = DiceRoller::new(MockCryptoRng::new(&[5, 2]));
    assert_eq!(r1.try_eval(&tree), r2.try_eval(&reparsed));
    // The canonical text re-renders to itself.
    assert_eq!(reparsed.render(), text);
}

#[test]
fn negative_literals_render_with_their_sign() {
    assert_eq!(Expr::literal(-12).render().as_str(), "-12");
    assert_eq!(Expr::literal(0).render().as_str(), "0");
    assert_eq!(
        Expr::literal(i32::MIN).render().as_str(),
        "-2147483648"
    );
    assert_eq!(Expr::dice(3, 20).render().as_str(), "3d20");
}

#[test]
fn unary_wrapping_follows_unit_children() {
    let unit_child = Expr::not(Expr::label(Expr::dice(1, 6), String::from("x")));
    assert_eq!(unit_child.render().as_str(), "-1d6[x]");

    let wrapped_child = Expr::not(Expr::add(Expr::literal(1), Expr::literal(2)));
    assert_eq!(wrapped_child.render().as_str(), "-(1 + 2)");

    let labeled_sum = Expr::label(
        Expr::add(Expr::literal(1), Expr::literal(2)),
        String::from("sum"),
    );
    assert_eq!(labeled_sum.render().as_str(), "(1 + 2)[sum]");
}
