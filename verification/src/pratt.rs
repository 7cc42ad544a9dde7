//! A second grammar on the same engine, driven straight from the token
//! stream: narrower 16-bit operands, a unary plus, explicit [`PExpr::Paren`]
//! nodes for parenthesized sub-expressions, and labels kept verbatim
//! (no trimming of trailing space, no collapsing). Its printer writes
//! prefix notation, which makes the tree shape visible in tests.

use vstd::prelude::*;
use crate::display::int_str;
use crate::engine::{self, EngineError, OpTable};
use crate::lex::{self, Token, TokenView};
use crate::parser::{all_digits, digits_val, trim_start, ParseError, ParseErrorView, TokenLocation, TokenLocationView};

verus! {

/// An expression of the token-stream grammar, with 16-bit operands and
/// explicit parenthesis nodes.
#[derive(Debug, PartialEq)]
pub enum PExpr {
    Value(i16),
    Dice(i16, i16),
    /// A parenthesized sub-expression, kept as its own node.
    Paren(Box<PExpr>),
    Neg(Box<PExpr>),
    Label(Box<PExpr>, String),
    Add(Box<PExpr>, Box<PExpr>),
    Sub(Box<PExpr>, Box<PExpr>),
    Mul(Box<PExpr>, Box<PExpr>),
    Div(Box<PExpr>, Box<PExpr>),
}

/// The specification-level image of a [`PExpr`].
pub enum PExprView {
    Value(i16),
    Dice(i16, i16),
    Paren(Box<PExprView>),
    Neg(Box<PExprView>),
    Label(Box<PExprView>, Seq<char>),
    Add(Box<PExprView>, Box<PExprView>),
    Sub(Box<PExprView>, Box<PExprView>),
    Mul(Box<PExprView>, Box<PExprView>),
    Div(Box<PExprView>, Box<PExprView>),
}

/// The view of a tree of the token-stream grammar.
pub open spec fn pexpr_view(e: PExpr) -> PExprView
    decreases e,
{
    match e {
        PExpr::Value(n) => PExprView::Value(n),
        PExpr::Dice(c, s) => PExprView::Dice(c, s),
        PExpr::Paren(a) => PExprView::Paren(Box::new(pexpr_view(*a))),
        PExpr::Neg(a) => PExprView::Neg(Box::new(pexpr_view(*a))),
        PExpr::Label(a, m) => PExprView::Label(Box::new(pexpr_view(*a)), m@),
        PExpr::Add(a, b) => PExprView::Add(Box::new(pexpr_view(*a)), Box::new(pexpr_view(*b))),
        PExpr::Sub(a, b) => PExprView::Sub(Box::new(pexpr_view(*a)), Box::new(pexpr_view(*b))),
        PExpr::Mul(a, b) => PExprView::Mul(Box::new(pexpr_view(*a)), Box::new(pexpr_view(*b))),
        PExpr::Div(a, b) => PExprView::Div(Box::new(pexpr_view(*a)), Box::new(pexpr_view(*b))),
    }
}

impl View for PExpr {
    type V = PExprView;

    open spec fn view(&self) -> PExprView {
        pexpr_view(*self)
    }
}

/// What a numeric token builds here: no leading zeros, at most four
/// digits, read as a 16-bit value.
pub open spec fn pnum_view(digits: Seq<char>, start: int, end: int) -> Result<
    i16,
    ParseErrorView,
> {
    if !(all_digits(digits) && digits.len() >= 1) {
        Err(ParseErrorView::ParseIntError(digits))
    } else if digits[0] == '0' && digits.len() != 1 {
        Err(ParseErrorView::Unexpected)
    } else if digits.len() > 4 {
        Err(ParseErrorView::IntTooLong { span: TokenLocationView { input: digits, start, end } })
    } else {
        Ok(digits_val(digits) as i16)
    }
}

/// The operand builder and operator tables of the token-stream grammar:
/// prefix plus and minus at power 18, the postfix label at 19, `*` and
/// `/` left-associative at 16, `+` and `-` left-associative at 14.
pub struct PrattTables;

impl OpTable for PrattTables {
    type Value = PExpr;

    type BuildError = ParseError;

    open spec fn operand_spec(&self, t: TokenView) -> Option<Result<PExprView, ParseErrorView>> {
        match t {
            TokenView::Int { digits, start, end } => Some(
                match pnum_view(digits, start, end) {
                    Ok(v) => Ok(PExprView::Value(v)),
                    Err(e) => Err(e),
                },
            ),
            TokenView::Dice { count, sides, start, end } => Some(
                match pnum_view(count, start, end) {
                    Err(e) => Err(e),
                    Ok(c) => if c <= 0 {
                        Err(ParseErrorView::OutOfRange(c as i32))
                    } else {
                        match pnum_view(sides, start, end) {
                            Err(e) => Err(e),
                            Ok(s) => if s <= 0 {
                                Err(ParseErrorView::OutOfRange(s as i32))
                            } else {
                                Ok(PExprView::Dice(c, s))
                            },
                        }
                    },
                },
            ),
            _ => None,
        }
    }

    open spec fn prefix_power_spec(&self, t: TokenView) -> Option<u32> {
        match t {
            TokenView::Plus => Some(18u32),
            TokenView::Minus => Some(18u32),
            _ => None,
        }
    }

    open spec fn apply_prefix_spec(&self, t: TokenView, v: PExprView) -> Result<
        PExprView,
        ParseErrorView,
    > {
        match t {
            TokenView::Plus => Ok(v),
            TokenView::Minus => Ok(PExprView::Neg(Box::new(v))),
            _ => Ok(v),
        }
    }

    open spec fn postfix_power_spec(&self, t: TokenView) -> Option<u32> {
        match t {
            TokenView::Label { .. } => Some(19u32),
            _ => None,
        }
    }

    open spec fn apply_postfix_spec(&self, t: TokenView, v: PExprView) -> Result<
        PExprView,
        ParseErrorView,
    > {
        match t {
            TokenView::Label { text, .. } => {
                let m = trim_start(text);
                if m.len() == 0 {
                    Err(ParseErrorView::Unexpected)
                } else {
                    Ok(PExprView::Label(Box::new(v), m))
                }
            },
            _ => Ok(v),
        }
    }

    open spec fn infix_power_spec(&self, t: TokenView) -> Option<(u32, u32)> {
        match t {
            TokenView::Plus => Some((14u32, 15u32)),
            TokenView::Minus => Some((14u32, 15u32)),
            TokenView::Star => Some((16u32, 17u32)),
            TokenView::Slash => Some((16u32, 17u32)),
            _ => None,
        }
    }

    open spec fn apply_infix_spec(&self, t: TokenView, l: PExprView, r: PExprView) -> Result<
        PExprView,
        ParseErrorView,
    > {
        match t {
            TokenView::Plus => Ok(PExprView::Add(Box::new(l), Box::new(r))),
            TokenView::Minus => Ok(PExprView::Sub(Box::new(l), Box::new(r))),
            TokenView::Star => Ok(PExprView::Mul(Box::new(l), Box::new(r))),
            TokenView::Slash => Ok(PExprView::Div(Box::new(l), Box::new(r))),
            _ => Ok(l),
        }
    }

    open spec fn wrap_paren_spec(&self, v: PExprView) -> PExprView {
        PExprView::Paren(Box::new(v))
    }

    fn operand(&self, t: &Token) -> (r: Option<Result<PExpr, ParseError>>) {
        match t {
            Token::Int { digits, start, end } => {
                match pnum(digits, *start, *end) {
                    Ok(v) => Some(Ok(PExpr::Value(v))),
                    Err(e) => Some(Err(e)),
                }
            },
            Token::Dice { count, sides, start, end } => {
                match pnum(count, *start, *end) {
                    Err(e) => Some(Err(e)),
                    Ok(c) => {
                        if c <= 0 {
                            Some(Err(ParseError::OutOfRange(c as i32)))
                        } else {
                            match pnum(sides, *start, *end) {
                                Err(e) => Some(Err(e)),
                                Ok(s) => {
                                    if s <= 0 {
                                        Some(Err(ParseError::OutOfRange(s as i32)))
                                    } else {
                                        Some(Ok(PExpr::Dice(c, s)))
                                    }
                                },
                            }
                        }
                    },
                }
            },
            _ => None,
        }
    }

    fn prefix_power(&self, t: &Token) -> (r: Option<u32>) {
        match t {
            Token::Plus => Some(18),
            Token::Minus => Some(18),
            _ => None,
        }
    }

    fn apply_prefix(&self, t: &Token, v: PExpr) -> (r: Result<PExpr, ParseError>) {
        match t {
            Token::Plus => Ok(v),
            Token::Minus => Ok(PExpr::Neg(Box::new(v))),
            _ => Ok(v),
        }
    }

    fn postfix_power(&self, t: &Token) -> (r: Option<u32>) {
        match t {
            Token::Label { .. } => Some(19),
            _ => None,
        }
    }

    fn apply_postfix(&self, t: &Token, v: PExpr) -> (r: Result<PExpr, ParseError>) {
        match t {
            Token::Label { text, .. } => {
                let m = trim_start_string(text);
                if m.as_str().unicode_len() == 0 {
                    Err(ParseError::Unexpected)
                } else {
                    Ok(PExpr::Label(Box::new(v), m))
                }
            },
            _ => Ok(v),
        }
    }

    fn infix_power(&self, t: &Token) -> (r: Option<(u32, u32)>) {
        match t {
            Token::Plus => Some((14, 15)),
            Token::Minus => Some((14, 15)),
            Token::Star => Some((16, 17)),
            Token::Slash => Some((16, 17)),
            _ => None,
        }
    }

    fn apply_infix(&self, t: &Token, l: PExpr, r: PExpr) -> (res: Result<PExpr, ParseError>) {
        match t {
            Token::Plus => Ok(PExpr::Add(Box::new(l), Box::new(r))),
            Token::Minus => Ok(PExpr::Sub(Box::new(l), Box::new(r))),
            Token::Star => Ok(PExpr::Mul(Box::new(l), Box::new(r))),
            Token::Slash => Ok(PExpr::Div(Box::new(l), Box::new(r))),
            _ => Ok(l),
        }
    }

    fn wrap_paren(&self, v: PExpr) -> (r: PExpr) {
        PExpr::Paren(Box::new(v))
    }
}

/// Reads a numeric token of this grammar: no leading zeros, at most four
/// digits, as a 16-bit value.
fn pnum(digits: &String, start: usize, end: usize) -> (r: Result<i16, ParseError>)
    ensures
        match r {
            Ok(v) => pnum_view(digits@, start as int, end as int) == Ok::<i16, ParseErrorView>(v),
            Err(e) => pnum_view(digits@, start as int, end as int) == Err::<i16, ParseErrorView>(
                e@,
            ),
        },
{
    let st = digits.as_str();
    let n = st.unicode_len();
    let mut i: usize = 0;
    while i < n
        invariant
            i <= n,
            n == st@.len(),
            st@ == digits@,
            all_digits(st@.take(i as int)),
        decreases n - i,
    {
        if !lex::is_digit_char(st.get_char(i)) {
            proof {
                assert(!lex::is_digit(st@[i as int]));
            }
            return Err(ParseError::ParseIntError(digits.clone()));
        }
        proof {
            assert(st@.take(i as int + 1).drop_last() =~= st@.take(i as int));
            assert(st@.take(i as int + 1).last() == st@[i as int]);
            assert(forall|k: int| 0 <= k < i as int ==> st@.take(i as int + 1)[k] == st@.take(
                i as int,
            )[k]);
            assert(all_digits(st@.take(i as int + 1)));
        }
        i = i + 1;
    }
    proof {
        assert(st@.take(n as int) =~= st@);
    }
    if n == 0 {
        return Err(ParseError::ParseIntError(digits.clone()));
    }
    if st.get_char(0) == '0' && n != 1 {
        return Err(ParseError::Unexpected);
    }
    if n > 4 {
        return Err(
            ParseError::IntTooLong { span: TokenLocation { input: digits.clone(), start, end } },
        );
    }
    match crate::parser::parse_digits(digits) {
        Some(v) => Ok(v as i16),
        None => {
            proof {
                assert(false);
            }
            Err(ParseError::Unexpected)
        },
    }
}

/// Strips leading whitespace from a label's text, as this grammar's
/// label rule does.
fn trim_start_string(s: &String) -> (r: String)
    ensures
        r@ == trim_start(s@),
{
    let st = s.as_str();
    let n = st.unicode_len();
    let mut a: usize = 0;
    proof {
        assert(st@.skip(0) =~= st@);
    }
    while a < n && is_pratt_space(st.get_char(a))
        invariant
            a <= n,
            n == st@.len(),
            trim_start(st@) == trim_start(st@.skip(a as int)),
        decreases n - a,
    {
        proof {
            assert(st@.skip(a as int).drop_first() =~= st@.skip(a as int + 1));
            assert(st@.skip(a as int).first() == st@[a as int]);
        }
        a = a + 1;
    }
    proof {
        if a < n {
            assert(st@.skip(a as int).first() == st@[a as int]);
        }
        assert(trim_start(st@) == st@.skip(a as int));
        assert(st@.skip(a as int) =~= st@.subrange(a as int, n as int));
    }
    String::from_str(st.substring_char(a, n))
}

/// Whether `c` is whitespace for this grammar's label rule.
fn is_pratt_space(c: char) -> (r: bool)
    ensures
        r == crate::parser::is_trim_space(c),
{
    let u = c as u32;
    c == ' ' || c == '\t' || c == '\n' || c == '\r' || u == 11 || u == 12
}

/// What parsing text with this grammar means.
pub open spec fn spec_pratt_parse(text: Seq<char>) -> Result<PExprView, ParseErrorView> {
    match lex::spec_lex(text) {
        Err(at) => Err(ParseErrorView::Syntax { at }),
        Ok(toks) => match engine::sp_precedence_parse(PrattTables, toks, 0u32) {
            Ok(v) => Ok(v),
            Err(EngineError::Syntax) => Err(ParseErrorView::Unexpected),
            Err(EngineError::TooDeep) => Err(ParseErrorView::TooDeep),
            Err(EngineError::Build(b)) => Err(b),
        },
    }
}

/// Parses text with the token-stream grammar by precedence climbing.
pub fn pratt_parser(text: &str) -> (r: Result<PExpr, ParseError>)
    ensures
        match r {
            Ok(e) => spec_pratt_parse(text@) == Ok::<PExprView, ParseErrorView>(e@),
            Err(pe) => spec_pratt_parse(text@) == Err::<PExprView, ParseErrorView>(pe@),
        },
{
    match lex::lex(text) {
        Err(at) => Err(ParseError::Syntax { at }),
        Ok(toks) => {
            match engine::precedence_parse(&PrattTables, &toks, 0) {
                Ok(e) => Ok(e),
                Err(EngineError::Syntax) => Err(ParseError::Unexpected),
                Err(EngineError::TooDeep) => Err(ParseError::TooDeep),
                Err(EngineError::Build(b)) => Err(b),
            }
        },
    }
}

/// The prefix-notation text of a tree: operators before their operands,
/// parenthesis nodes transparent.
pub open spec fn spec_prefix_notation(e: PExprView) -> Seq<char>
    decreases e,
{
    match e {
        PExprView::Value(n) => int_str(n as int),
        PExprView::Dice(c, s) => int_str(c as int) + seq!['d'] + int_str(s as int),
        PExprView::Paren(a) => spec_prefix_notation(*a),
        PExprView::Neg(a) => seq!['(', '-'] + spec_prefix_notation(*a) + seq![')'],
        PExprView::Label(a, m) => seq!['(', '['] + m + seq![']'] + spec_prefix_notation(*a)
            + seq![')'],
        PExprView::Add(a, b) => seq!['(', '+', ' '] + spec_prefix_notation(*a) + seq![' ']
            + spec_prefix_notation(*b) + seq![')'],
        PExprView::Sub(a, b) => seq!['(', '-', ' '] + spec_prefix_notation(*a) + seq![' ']
            + spec_prefix_notation(*b) + seq![')'],
        PExprView::Mul(a, b) => seq!['(', '*', ' '] + spec_prefix_notation(*a) + seq![' ']
            + spec_prefix_notation(*b) + seq![')'],
        PExprView::Div(a, b) => seq!['(', '/', ' '] + spec_prefix_notation(*a) + seq![' ']
            + spec_prefix_notation(*b) + seq![')'],
    }
}

impl PExpr {
    /// Appends the prefix-notation text of the tree to `out`.
    fn prefix_into(&self, out: &mut String)
        ensures
            final(out)@ == old(out)@ + spec_prefix_notation(self@),
        decreases self.psize(),
    {
        proof {
            reveal_strlit("(");
            reveal_strlit(")");
            reveal_strlit("[");
            reveal_strlit("]");
            reveal_strlit("d");
            reveal_strlit("-");
            reveal_strlit("+");
            reveal_strlit("*");
            reveal_strlit("/");
            reveal_strlit(" ");
        }
        match self {
            PExpr::Value(n) => {
                crate::display::push_int(*n as i32, out);
                proof {
                    assert(out@ =~= old(out)@ + spec_prefix_notation(self@));
                }
            },
            PExpr::Dice(c, s) => {
                crate::display::push_int(*c as i32, out);
                out.append("d");
                crate::display::push_int(*s as i32, out);
                proof {
                    assert("d"@ =~= seq!['d']) by {
                        reveal_strlit("d");
                    }
                    assert(out@ =~= old(out)@ + spec_prefix_notation(self@));
                }
            },
            PExpr::Paren(a) => {
                a.prefix_into(out);
                proof {
                    assert(out@ =~= old(out)@ + spec_prefix_notation(self@));
                }
            },
            PExpr::Neg(a) => {
                out.append("(");
                out.append("-");
                a.prefix_into(out);
                out.append(")");
                proof {
                    assert("("@ + "-"@ =~= seq!['(', '-']) by {
                        reveal_strlit("(");
                        reveal_strlit("-");
                    }
                    assert(")"@ =~= seq![')']) by {
                        reveal_strlit(")");
                    }
                    assert(out@ =~= old(out)@ + spec_prefix_notation(self@));
                }
            },
            PExpr::Label(a, m) => {
                out.append("(");
                out.append("[");
                out.append(m.as_str());
                out.append("]");
                a.prefix_into(out);
                out.append(")");
                proof {
                    assert("("@ + "["@ =~= seq!['(', '[']) by {
                        reveal_strlit("(");
                        reveal_strlit("[");
                    }
                    assert("]"@ =~= seq![']']) by {
                        reveal_strlit("]");
                    }
                    assert(")"@ =~= seq![')']) by {
                        reveal_strlit(")");
                    }
                    assert(out@ =~= old(out)@ + spec_prefix_notation(self@));
                }
            },
            PExpr::Add(a, b) => {
                Self::prefix_binop_into("+", a, b, out);
                proof {
                    assert("+"@ =~= seq!['+']) by {
                        reveal_strlit("+");
                    }
                    assert(out@ =~= old(out)@ + spec_prefix_notation(self@));
                }
            },
            PExpr::Sub(a, b) => {
                Self::prefix_binop_into("-", a, b, out);
                proof {
                    assert("-"@ =~= seq!['-']) by {
                        reveal_strlit("-");
                    }
                    assert(out@ =~= old(out)@ + spec_prefix_notation(self@));
                }
            },
            PExpr::Mul(a, b) => {
                Self::prefix_binop_into("*", a, b, out);
                proof {
                    assert("*"@ =~= seq!['*']) by {
                        reveal_strlit("*");
                    }
                    assert(out@ =~= old(out)@ + spec_prefix_notation(self@));
                }
            },
            PExpr::Div(a, b) => {
                Self::prefix_binop_into("/", a, b, out);
                proof {
                    assert("/"@ =~= seq!['/']) by {
                        reveal_strlit("/");
                    }
                    assert(out@ =~= old(out)@ + spec_prefix_notation(self@));
                }
            },
        }
    }

    /// Appends one prefix-notation binary node to `out`.
    fn prefix_binop_into(op: &str, a: &PExpr, b: &PExpr, out: &mut String)
        requires
            op@.len() == 1,
        ensures
            final(out)@ == old(out)@ + seq!['('] + op@ + seq![' '] + spec_prefix_notation(a@)
                + seq![' '] + spec_prefix_notation(b@) + seq![')'],
        decreases a.psize() + b.psize(),
    {
        proof {
            reveal_strlit("(");
            reveal_strlit(")");
            reveal_strlit(" ");
        }
        out.append("(");
        out.append(op);
        out.append(" ");
        a.prefix_into(out);
        out.append(" ");
        b.prefix_into(out);
        out.append(")");
        proof {
            assert("("@ =~= seq!['(']) by {
                reveal_strlit("(");
            }
            assert(")"@ =~= seq![')']) by {
                reveal_strlit(")");
            }
            assert(" "@ =~= seq![' ']) by {
                reveal_strlit(" ");
            }
            assert(out@ =~= old(out)@ + seq!['('] + op@ + seq![' '] + spec_prefix_notation(a@)
                + seq![' '] + spec_prefix_notation(b@) + seq![')']);
        }
    }

    /// The number of nodes in the tree.
    pub open spec fn psize(self) -> nat
        decreases self,
    {
        match self {
            PExpr::Value(_) => 1,
            PExpr::Dice(_, _) => 1,
            PExpr::Paren(a) => 1 + a.psize(),
            PExpr::Neg(a) => 1 + a.psize(),
            PExpr::Label(a, _) => 1 + a.psize(),
            PExpr::Add(a, b) => 1 + a.psize() + b.psize(),
            PExpr::Sub(a, b) => 1 + a.psize() + b.psize(),
            PExpr::Mul(a, b) => 1 + a.psize() + b.psize(),
            PExpr::Div(a, b) => 1 + a.psize() + b.psize(),
        }
    }

    /// Renders the tree in prefix notation.
    pub fn to_prefix_notation(&self) -> (s: String)
        ensures
            s@ == spec_prefix_notation(self@),
    {
        proof {
            reveal_strlit("");
        }
        let mut s = String::from_str("");
        self.prefix_into(&mut s);
        proof {
            assert(""@ =~= Seq::<char>::empty()) by {
                reveal_strlit("");
            }
            assert(s@ =~= spec_prefix_notation(self@));
        }
        s
    }
}

} // verus!
