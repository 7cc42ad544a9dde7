//! Parsing through both grammars: the tree builder and the token-stream
//! engine specialization.

use dice_parser::ast::Expr;
use dice_parser::engine::precedence_parse;
use dice_parser::lex::lex;
use dice_parser::parser::{parse, DiceTables, ParseError};
use dice_parser::pratt::{pratt_parser, PrattTables};
use dice_parser::shunting_yard::shunting_yard_parse;

fn parse_ok(input: &str, expect: &str) {
    let tree = pratt_parser(input).unwrap();
    assert_eq!(tree.to_prefix_notation().as_str(), expect);
}

fn parse_err(input: &str) {
    assert!(pratt_parser(input).is_err(), "expected error for `{}`", input);
}

#[test]
fn op() {
    parse_ok("   1 ", "1");
    parse_ok("    1d20", "1d20");
    parse_ok("100D5", "100d5");
    parse_ok("( 1 )", "1");

    parse_err("1 d20");
    parse_err("(123");
}

#[test]
fn bad_dice() {
    parse_err("00001d01");
    parse_err("0d");
    parse_err("d0");
    parse_err("0d0");
}

#[test]
fn unary() {
    parse_ok("- - 1", "(-(-1))");
    parse_ok("+ - 1", "(-1)");
    parse_ok("++ -- 1", "(-(-1))");

    parse_err("1 -- ++");
}

#[test]
fn postfix() {
    parse_ok("1 [label]", "([label]1)");
}

#[test]
fn same_precedence() {
    parse_ok("1 + 2 + 3", "(+ (+ 1 2) 3)");
    parse_ok("1 - 2 - 3", "(- (- 1 2) 3)");
    parse_ok("1 * 2 * 3", "(* (* 1 2) 3)");
    parse_ok("1 / 2 / 3", "(/ (/ 1 2) 3)");
    parse_ok("+-+1", "(-1)");
}

#[test]
fn different_precedence() {
    parse_ok("1 + 2 * 3", "(+ 1 (* 2 3))");
    parse_ok("1 + 2 * 3 - 4 / 5", "(- (+ 1 (* 2 3)) (/ 4 5))");
    parse_ok("1 + 2 * 3 * 4 + 5", "(+ (+ 1 (* (* 2 3) 4)) 5)");
}

#[test]
fn prefix_postfix_power() {
    parse_ok("-1 [100]", "(-([100]1))");
    parse_ok("+1[lbl]", "([lbl]1)");
}

#[test]
fn bad_labels() {
    parse_err(" 26 [ unfinished label ");
    parse_err("25 [ bad label chars[ ]");
    parse_err("20 [ bad label chars \\]");
    parse_err("25 [ non-ascii ⭐]");
}

#[test]
fn large_numbers() {
    parse_ok(&u8::MAX.to_string(), &u8::MAX.to_string());
    parse_ok(&u8::MIN.to_string(), &u8::MIN.to_string());

    parse_err(&i16::MAX.to_string());
    parse_err(&u16::MAX.to_string());
    parse_err(&u32::MAX.to_string());
    parse_err(&u64::MAX.to_string());
}

#[test]
fn test_dice_parses() {
    let tree = parse("1d20").unwrap();
    assert_eq!(tree, Expr::Dice(1, 20));
}

#[test]
fn dice_minus_literal_parses() {
    let tree = parse("1d20 - 1").unwrap();
    let expected = Expr::sub(Expr::dice(1, 20), Expr::literal(1));
    assert_eq!(tree, expected);
}

#[test]
fn second_label_is_discarded() {
    let tree = parse("1 [lbl1] [lbl2]").unwrap();
    let expected = Expr::label(Expr::literal(1), String::from("lbl1"));
    assert_eq!(tree, expected);
}

#[test]
fn empty_label_is_dropped() {
    let tree = parse("1 [  ]").unwrap();
    assert_eq!(tree, Expr::Int(1));
}

#[test]
fn label_text_is_trimmed() {
    let tree = parse("1 [ dmg  ]").unwrap();
    assert_eq!(tree, Expr::label(Expr::literal(1), String::from("dmg")));
}

#[test]
fn zero_dice_rejected_as_out_of_range() {
    assert_eq!(parse("0d5"), Err(ParseError::OutOfRange(0)));
    assert_eq!(parse("5d0"), Err(ParseError::OutOfRange(0)));
}

#[test]
fn too_long_literal_keeps_its_span() {
    match parse("12345") {
        Err(ParseError::IntTooLong { span }) => {
            assert_eq!(span.input.as_str(), "12345");
            assert_eq!(span.start, 0);
            assert_eq!(span.end, 5);
        }
        other => panic!("expected IntTooLong, got {:?}", other),
    }
}

#[test]
fn unknown_character_reports_its_position() {
    assert_eq!(parse("1 $"), Err(ParseError::Syntax { at: 2 }));
}

#[test]
fn deep_nesting_is_rejected() {
    let mut text = String::new();
    for _ in 0..600 {
        text.push('(');
    }
    text.push('1');
    for _ in 0..600 {
        text.push(')');
    }
    assert_eq!(parse(&text), Err(ParseError::TooDeep));
}

#[test]
fn moderate_nesting_is_accepted() {
    let mut text = String::new();
    for _ in 0..100 {
        text.push('(');
    }
    text.push('7');
    for _ in 0..100 {
        text.push(')');
    }
    assert_eq!(parse(&text), Ok(Expr::Int(7)));
}

#[test]
fn trailing_input_is_rejected() {
    assert_eq!(parse("1 2"), Err(ParseError::Unexpected));
    assert!(parse("").is_err());
}

#[test]
fn both_engines_agree() {
    let inputs = [
        "1d20 - 1",
        "4 * (1 + 3) / 7 / ((8 + 9) * 2)",
        "-2 [all of it] + 3d6",
        "1 - 2 - 3",
        "((((5))))",
        "1 +",
        "* 3",
        "(1",
        "0d5",
        "12345",
        "1 [x] [y]",
    ];
    for input in inputs {
        let toks = lex(input).unwrap();
        let climb = precedence_parse(&DiceTables, &toks, 0);
        let yard = shunting_yard_parse(&DiceTables, &toks, 0);
        assert_eq!(climb, yard, "engines disagree on `{}`", input);

        let climb_p = precedence_parse(&PrattTables, &toks, 0);
        let yard_p = shunting_yard_parse(&PrattTables, &toks, 0);
        assert_eq!(climb_p, yard_p, "engines disagree on `{}`", input);
    }
}
