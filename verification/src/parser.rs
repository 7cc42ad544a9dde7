//! The tree builder: the dice grammar's operator tables for the generic
//! engine, and the whole-text [`parse`] entry.
//!
//! The builder validates numeric literals (at most four digits), rejects
//! non-positive dice counts and sides, trims label text and drops empty
//! or repeated labels, and otherwise assembles [`Expr`] nodes. Every
//! tree it returns satisfies [`Expr::wf`].

use vstd::prelude::*;
use crate::ast::{Expr, ExprView};
use crate::engine::{self, EngineError, OpTable};
use crate::lex::{self, Token, TokenView, is_digit, toks_view};

verus! {

/// Where in the source text an offending number stood, and its text.
#[derive(Debug, Clone, PartialEq)]
pub struct TokenLocation {
    /// The text of the offending number.
    pub input: String,
    /// The position of the token's first character.
    pub start: usize,
    /// The position just after the token's last character.
    pub end: usize,
}

/// The specification-level image of a [`TokenLocation`].
pub struct TokenLocationView {
    pub input: Seq<char>,
    pub start: int,
    pub end: int,
}

impl View for TokenLocation {
    type V = TokenLocationView;

    open spec fn view(&self) -> TokenLocationView {
        TokenLocationView { input: self.input@, start: self.start as int, end: self.end as int }
    }
}

/// A failure to turn text into an [`Expr`].
#[derive(Debug, Clone, PartialEq)]
pub enum ParseError {
    /// A numeric literal of more than four digits.
    IntTooLong { span: TokenLocation },
    /// A numeric token whose text is not a plain digit run; carries that
    /// text. The lexer never produces such a token, so this mirrors a
    /// native integer-parse failure that cannot arise from [`parse`].
    ParseIntError(String),
    /// A dice count or sides of zero.
    OutOfRange(i32),
    /// A character that fits no token, at this position.
    Syntax { at: usize },
    /// The token stream fits no expression shape.
    Unexpected,
    /// The expression nests more deeply than the engine's budget.
    TooDeep,
}

/// The specification-level image of a [`ParseError`].
pub enum ParseErrorView {
    IntTooLong { span: TokenLocationView },
    ParseIntError(Seq<char>),
    OutOfRange(i32),
    Syntax { at: int },
    Unexpected,
    TooDeep,
}

impl View for ParseError {
    type V = ParseErrorView;

    open spec fn view(&self) -> ParseErrorView {
        match self {
            ParseError::IntTooLong { span } => ParseErrorView::IntTooLong { span: span@ },
            ParseError::ParseIntError(s) => ParseErrorView::ParseIntError(s@),
            ParseError::OutOfRange(x) => ParseErrorView::OutOfRange(*x),
            ParseError::Syntax { at } => ParseErrorView::Syntax { at: *at as int },
            ParseError::Unexpected => ParseErrorView::Unexpected,
            ParseError::TooDeep => ParseErrorView::TooDeep,
        }
    }
}

/// Every character is a decimal digit.
pub open spec fn all_digits(s: Seq<char>) -> bool {
    forall|i: int| 0 <= i < s.len() ==> is_digit(#[trigger] s[i])
}

/// The numeric value of a digit run, most significant first.
pub open spec fn digits_val(s: Seq<char>) -> int
    decreases s.len(),
{
    if s.len() == 0 {
        0
    } else {
        digits_val(s.drop_last()) * 10 + (s.last() as u32 - 48)
    }
}

spec fn pow10(n: nat) -> int
    decreases n,
{
    if n == 0 {
        1
    } else {
        10 * pow10((n - 1) as nat)
    }
}

proof fn lemma_digits_val_bound(s: Seq<char>)
    requires
        all_digits(s),
    ensures
        0 <= digits_val(s) < pow10(s.len()),
    decreases s.len(),
{
    if s.len() > 0 {
        assert(all_digits(s.drop_last())) by {
            assert(forall|i: int|
                0 <= i < s.drop_last().len() ==> #[trigger] s.drop_last()[i] == s[i]);
        }
        lemma_digits_val_bound(s.drop_last());
        assert(is_digit(s.last()));
        let dv = digits_val(s.drop_last());
        let p = pow10((s.len() - 1) as nat);
        assert(pow10(s.len()) == 10 * p);
        assert(s.last() as u32 - 48 <= 9);
        assert(dv * 10 + 9 < 10 * p) by (nonlinear_arith)
            requires
                0 <= dv,
                dv < p,
        ;
    }
}


/// The numeral level of the parse-render round trip: the decimal digits
/// the renderer writes for a value read back as exactly that value, with
/// no sign and no leading zero.
pub proof fn lemma_digits_round_trip(n: nat)
    ensures
        all_digits(crate::display::dec_digits(n)),
        digits_val(crate::display::dec_digits(n)) == n,
        crate::display::dec_digits(n).len() >= 1,
    decreases n,
{
    let ds = crate::display::dec_digits(n);
    if n < 10 {
        lemma_digit_char_code((n % 10) as int);
        assert(ds == seq![crate::display::digit_char(n as int)]);
        assert(ds.drop_last() =~= Seq::<char>::empty());
        assert(digits_val(ds) == digits_val(ds.drop_last()) * 10 + (ds.last() as u32 - 48));
    } else {
        lemma_digits_round_trip(n / 10);
        lemma_digit_char_code((n % 10) as int);
        let prefix = crate::display::dec_digits(n / 10);
        let dc = crate::display::digit_char((n % 10) as int);
        assert(ds == prefix + seq![dc]);
        assert(ds.drop_last() =~= prefix);
        assert(ds.last() == dc);
        assert(all_digits(ds)) by {
            assert(forall|i: int| 0 <= i < prefix.len() ==> ds[i] == prefix[i]);
            assert(ds[ds.len() - 1] == dc);
        }
        assert(digits_val(ds) == digits_val(prefix) * 10 + (dc as u32 - 48));
        assert(n == (n / 10) * 10 + (n % 10)) by (nonlinear_arith);
    }
}

/// Digit characters carry their value in their code.
proof fn lemma_digit_char_code(d: int)
    requires
        0 <= d <= 9,
    ensures
        (crate::display::digit_char(d) as u32) == 48 + d,
        is_digit(crate::display::digit_char(d)),
{
}


proof fn lemma_scan_digits_all(text: Seq<char>, i: int)
    requires
        all_digits(text),
        0 <= i <= text.len(),
    ensures
        lex::scan_digits(text, i) == text.len(),
    decreases text.len() - i,
{
    if i < text.len() {
        assert(is_digit(text[i]));
        lemma_scan_digits_all(text, i + 1);
    }
}

proof fn lemma_dec_digits_len(n: nat, k: nat)
    requires
        n < pow10(k),
        k >= 1,
    ensures
        crate::display::dec_digits(n).len() <= k,
    decreases k,
{
    if n < 10 {
    } else {
        assert(pow10(k) == 10 * pow10((k - 1) as nat));
        assert(n / 10 < pow10((k - 1) as nat)) by (nonlinear_arith)
            requires
                n < 10 * pow10((k - 1) as nat),
                n >= 10,
        ;
        assert(k >= 2) by {
            if k == 1 {
                assert(pow10(1nat) == 10);
            }
        }
        lemma_dec_digits_len(n / 10, (k - 1) as nat);
    }
}

/// The round trip for a single small literal, proved through the whole
/// pipeline: the canonical text of `Int(x)` lexes to one numeric token,
/// and the tree builder reads it back as exactly `Int(x)`.
pub proof fn lemma_literal_round_trip(x: i32)
    requires
        0 <= x <= 9999,
    ensures
        spec_parse(crate::display::spec_render(Expr::Int(x))) == Ok::<ExprView, ParseErrorView>(
            ExprView::Int(x),
        ),
{
    let text = crate::display::spec_render(Expr::Int(x));
    assert(text == crate::display::dec_digits(x as nat));
    lemma_digits_round_trip(x as nat);
    assert(pow10(4nat) == 10000) by {
        reveal_with_fuel(pow10, 5);
    }
    lemma_dec_digits_len(x as nat, 4nat);
    let n = text.len() as int;
    assert(1 <= n <= 4);
    lemma_scan_digits_all(text, 0);
    assert(is_digit(text[0]));
    assert(!lex::is_space(text[0]));
    let tok = TokenView::Int { digits: text.subrange(0, n), start: 0, end: n };
    assert(text.subrange(0, n) =~= text);
    assert(lex::spec_lex_from(text, n) == Ok::<Seq<TokenView>, int>(Seq::empty()));
    let toks = seq![tok];
    assert(lex::spec_lex(text) == Ok::<Seq<TokenView>, int>(toks)) by {
        assert(seq![tok] + Seq::<TokenView>::empty() =~= toks);
    }
    let tbl = DiceTables;
    assert(tbl.operand_spec(tok) == Some(Ok::<ExprView, ParseErrorView>(ExprView::Int(x)))) by {
        assert(num_view(text, 0, n) == Ok::<ExprView, ParseErrorView>(ExprView::Int(x)));
    }
    let d = engine::MAX_DEPTH as nat;
    assert(toks[0] == tok);
    let lp = engine::sp_loop(tbl, toks, 1, 0u32, ExprView::Int(x), d);
    assert(lp == Ok::<(ExprView, int), EngineError<ParseErrorView>>((ExprView::Int(x), 1)));
    let sp = engine::sp_parse(tbl, toks, 0, 0u32, d);
    assert(sp == lp);
    assert(engine::sp_precedence_parse(tbl, toks, 0u32) == Ok::<
        ExprView,
        EngineError<ParseErrorView>,
    >(ExprView::Int(x)));
}


proof fn lemma_scan_digits_until(text: Seq<char>, i: int, j: int)
    requires
        0 <= i <= j <= text.len(),
        forall|k: int| i <= k < j ==> is_digit(#[trigger] text[k]),
        j < text.len() ==> !is_digit(text[j]),
    ensures
        lex::scan_digits(text, i) == j,
    decreases j - i,
{
    if i < j {
        assert(is_digit(text[i]));
        lemma_scan_digits_until(text, i + 1, j);
    }
}

/// The round trip for a single small dice term: the canonical text of
/// `Dice(c, s)` lexes to one dice token, and the tree builder reads it
/// back as exactly `Dice(c, s)`.
pub proof fn lemma_dice_round_trip(c: i32, s: i32)
    requires
        1 <= c <= 9999,
        1 <= s <= 9999,
    ensures
        spec_parse(crate::display::spec_render(Expr::Dice(c, s))) == Ok::<
            ExprView,
            ParseErrorView,
        >(ExprView::Dice(c, s)),
{
    let text = crate::display::spec_render(Expr::Dice(c, s));
    let cd = crate::display::dec_digits(c as nat);
    let sd = crate::display::dec_digits(s as nat);
    assert(text == cd + seq!['d'] + sd);
    lemma_digits_round_trip(c as nat);
    lemma_digits_round_trip(s as nat);
    assert(pow10(4nat) == 10000) by {
        reveal_with_fuel(pow10, 5);
    }
    lemma_dec_digits_len(c as nat, 4nat);
    lemma_dec_digits_len(s as nat, 4nat);
    let j = cd.len() as int;
    let n = text.len() as int;
    assert(n == j + 1 + sd.len());
    assert(forall|k: int| 0 <= k < j ==> #[trigger] text[k] == cd[k]);
    assert(text[j] == 'd');
    assert(forall|k: int| j + 1 <= k < n ==> #[trigger] text[k] == sd[k - j - 1]);
    assert(!is_digit('d'));
    lemma_scan_digits_until(text, 0, j);
    lemma_scan_digits_until(text, j + 1, n);
    assert(is_digit(text[0]));
    assert(!lex::is_space(text[0]));
    assert(is_digit(text[j + 1]));
    let tok = TokenView::Dice {
        count: text.subrange(0, j),
        sides: text.subrange(j + 1, n),
        start: 0,
        end: n,
    };
    assert(text.subrange(0, j) =~= cd);
    assert(text.subrange(j + 1, n) =~= sd);
    assert(lex::spec_lex_from(text, n) == Ok::<Seq<TokenView>, int>(Seq::empty()));
    let toks = seq![tok];
    assert(lex::spec_lex(text) == Ok::<Seq<TokenView>, int>(toks)) by {
        assert(seq![tok] + Seq::<TokenView>::empty() =~= toks);
    }
    let tbl = DiceTables;
    assert(tbl.operand_spec(tok) == Some(Ok::<ExprView, ParseErrorView>(ExprView::Dice(c, s))))
        by {
        assert(dice_view(cd, sd, 0, n) == Ok::<ExprView, ParseErrorView>(ExprView::Dice(c, s)));
    }
    let d = engine::MAX_DEPTH as nat;
    assert(toks[0] == tok);
    let lp = engine::sp_loop(tbl, toks, 1, 0u32, ExprView::Dice(c, s), d);
    assert(lp == Ok::<(ExprView, int), EngineError<ParseErrorView>>((ExprView::Dice(c, s), 1)));
    let sp = engine::sp_parse(tbl, toks, 0, 0u32, d);
    assert(sp == lp);
    assert(engine::sp_precedence_parse(tbl, toks, 0u32) == Ok::<
        ExprView,
        EngineError<ParseErrorView>,
    >(ExprView::Dice(c, s)));
}

/// Whitespace stripped from the ends of a label, as `str::trim` strips
/// ASCII whitespace.
pub open spec fn is_trim_space(c: char) -> bool {
    c == ' ' || c == '\t' || c == '\n' || c == '\r' || (c as u32) == 11 || (c as u32) == 12
}

/// The sequence without its leading whitespace.
pub open spec fn trim_start(s: Seq<char>) -> Seq<char>
    decreases s.len(),
{
    if s.len() > 0 && is_trim_space(s.first()) {
        trim_start(s.drop_first())
    } else {
        s
    }
}

/// The sequence without its trailing whitespace.
pub open spec fn trim_end(s: Seq<char>) -> Seq<char>
    decreases s.len(),
{
    if s.len() > 0 && is_trim_space(s.last()) {
        trim_end(s.drop_last())
    } else {
        s
    }
}

/// The sequence without leading and trailing whitespace.
pub open spec fn spec_trim(s: Seq<char>) -> Seq<char> {
    trim_end(trim_start(s))
}

/// What an integer-literal token builds: its value, unless the digit run
/// is over four digits long or is no digit run at all.
pub open spec fn num_view(digits: Seq<char>, start: int, end: int) -> Result<
    ExprView,
    ParseErrorView,
> {
    if digits.len() > 4 {
        Err(
            ParseErrorView::IntTooLong {
                span: TokenLocationView { input: digits, start, end },
            },
        )
    } else if !(all_digits(digits) && digits.len() >= 1) {
        Err(ParseErrorView::ParseIntError(digits))
    } else {
        Ok(ExprView::Int(digits_val(digits) as i32))
    }
}

/// What a dice token builds: count and sides validated like integer
/// literals, and additionally both positive.
pub open spec fn dice_view(count: Seq<char>, sides: Seq<char>, start: int, end: int) -> Result<
    ExprView,
    ParseErrorView,
> {
    if count.len() > 4 {
        Err(ParseErrorView::IntTooLong { span: TokenLocationView { input: count, start, end } })
    } else if sides.len() > 4 {
        Err(ParseErrorView::IntTooLong { span: TokenLocationView { input: sides, start, end } })
    } else if !(all_digits(count) && count.len() >= 1) {
        Err(ParseErrorView::ParseIntError(count))
    } else if digits_val(count) <= 0 {
        Err(ParseErrorView::OutOfRange(digits_val(count) as i32))
    } else if !(all_digits(sides) && sides.len() >= 1) {
        Err(ParseErrorView::ParseIntError(sides))
    } else if digits_val(sides) <= 0 {
        Err(ParseErrorView::OutOfRange(digits_val(sides) as i32))
    } else {
        Ok(ExprView::Dice(digits_val(count) as i32, digits_val(sides) as i32))
    }
}

proof fn lemma_pow10_small(n: nat)
    requires
        n <= 4,
    ensures
        pow10(n) <= 10000,
{
    reveal_with_fuel(pow10, 5);
    if n == 0 {
    } else if n == 1 {
    } else if n == 2 {
    } else if n == 3 {
    } else {
        assert(n == 4);
    }
}

/// Reads a digit run of at most four characters as its numeric value;
/// `None` if the text is empty or holds a non-digit.
pub(crate) fn parse_digits(s: &String) -> (r: Option<i32>)
    requires
        s@.len() <= 4,
    ensures
        match r {
            Some(v) => all_digits(s@) && s@.len() >= 1 && v as int == digits_val(s@) && 0 <= v
                <= 9999,
            None => !(all_digits(s@) && s@.len() >= 1),
        },
{
    let st = s.as_str();
    let n = st.unicode_len();
    if n == 0 {
        return None;
    }
    let mut v: i32 = 0;
    let mut i: usize = 0;
    while i < n
        invariant
            i <= n,
            n == st@.len(),
            n <= 4,
            st@ == s@,
            all_digits(st@.take(i as int)),
            v as int == digits_val(st@.take(i as int)),
            0 <= v,
            (v as int) < pow10(i as nat),
        decreases n - i,
    {
        let c = st.get_char(i);
        if !(lex::is_digit_char(c)) {
            proof {
                assert(!is_digit(st@[i as int]));
            }
            return None;
        }
        proof {
            lemma_pow10_small(i as nat);
            assert(pow10((i + 1) as nat) == 10 * pow10(i as nat));
            assert(st@.take(i as int + 1).drop_last() =~= st@.take(i as int));
            assert(st@.take(i as int + 1).last() == st@[i as int]);
            assert(all_digits(st@.take(i as int + 1))) by {
                assert(forall|k: int|
                    0 <= k < i as int + 1 ==> #[trigger] st@.take(i as int + 1)[k] == st@.take(
                        i as int + 1,
                    )[k]);
                assert(forall|k: int| 0 <= k < i as int ==> st@.take(i as int + 1)[k] == st@.take(
                    i as int,
                )[k]);
            }
        }
        let d: u32 = (c as u32) - 48;
        v = v * 10 + (d as i32);
        i = i + 1;
    }
    proof {
        assert(st@.take(n as int) =~= st@);
        lemma_pow10_small(n as nat);
    }
    Some(v)
}

/// Strips leading and trailing whitespace from a label's text.
fn trim_string(s: &String) -> (r: String)
    ensures
        r@ == spec_trim(s@),
{
    let st = s.as_str();
    let n = st.unicode_len();
    let mut a: usize = 0;
    proof {
        assert(st@.skip(0) =~= st@);
    }
    while a < n && is_trim_space_char(st.get_char(a))
        invariant
            a <= n,
            n == st@.len(),
            trim_start(st@) == trim_start(st@.skip(a as int)),
        decreases n - a,
    {
        proof {
            assert(st@.skip(a as int).drop_first() =~= st@.skip(a as int + 1));
            assert(st@.skip(a as int).first() == st@[a as int]);
        }
        a = a + 1;
    }
    proof {
        if a < n {
            assert(st@.skip(a as int).first() == st@[a as int]);
        }
        assert(trim_start(st@) == st@.skip(a as int));
    }
    let mut b: usize = n;
    proof {
        assert(st@.skip(a as int) =~= st@.subrange(a as int, n as int));
    }
    while b > a && is_trim_space_char(st.get_char(b - 1))
        invariant
            a <= b <= n,
            n == st@.len(),
            trim_end(st@.skip(a as int)) == trim_end(st@.subrange(a as int, b as int)),
        decreases b,
    {
        proof {
            assert(st@.subrange(a as int, b as int).drop_last() =~= st@.subrange(
                a as int,
                b as int - 1,
            ));
            assert(st@.subrange(a as int, b as int).last() == st@[b as int - 1]);
        }
        b = b - 1;
    }
    proof {
        if b > a {
            assert(st@.subrange(a as int, b as int).last() == st@[b as int - 1]);
        }
        assert(trim_end(st@.subrange(a as int, b as int)) == st@.subrange(a as int, b as int));
    }
    String::from_str(st.substring_char(a, b))
}

/// Whether `c` is whitespace for label trimming.
fn is_trim_space_char(c: char) -> (r: bool)
    ensures
        r == is_trim_space(c),
{
    let u = c as u32;
    c == ' ' || c == '\t' || c == '\n' || c == '\r' || u == 11 || u == 12
}

/// The dice grammar's operand builder and operator tables: `+` and `-`
/// bind loosest, then `*` and `/`, then prefix negation, then the postfix
/// label, which binds tightest. All four binary operators associate to
/// the left.
pub struct DiceTables;

impl OpTable for DiceTables {
    type Value = Expr;

    type BuildError = ParseError;

    open spec fn operand_spec(&self, t: TokenView) -> Option<Result<ExprView, ParseErrorView>> {
        match t {
            TokenView::Int { digits, start, end } => Some(num_view(digits, start, end)),
            TokenView::Dice { count, sides, start, end } => Some(
                dice_view(count, sides, start, end),
            ),
            _ => None,
        }
    }

    open spec fn prefix_power_spec(&self, t: TokenView) -> Option<u32> {
        match t {
            TokenView::Minus => Some(30u32),
            _ => None,
        }
    }

    open spec fn apply_prefix_spec(&self, t: TokenView, v: ExprView) -> Result<
        ExprView,
        ParseErrorView,
    > {
        Ok(ExprView::Not(Box::new(v)))
    }

    open spec fn postfix_power_spec(&self, t: TokenView) -> Option<u32> {
        match t {
            TokenView::Label { .. } => Some(40u32),
            _ => None,
        }
    }

    open spec fn apply_postfix_spec(&self, t: TokenView, v: ExprView) -> Result<
        ExprView,
        ParseErrorView,
    > {
        match t {
            TokenView::Label { text, .. } => {
                let m = spec_trim(text);
                if m.len() == 0 {
                    Ok(v)
                } else if v is Label {
                    Ok(v)
                } else {
                    Ok(ExprView::Label(Box::new(v), m))
                }
            },
            _ => Ok(v),
        }
    }

    open spec fn infix_power_spec(&self, t: TokenView) -> Option<(u32, u32)> {
        match t {
            TokenView::Plus => Some((10u32, 11u32)),
            TokenView::Minus => Some((10u32, 11u32)),
            TokenView::Star => Some((20u32, 21u32)),
            TokenView::Slash => Some((20u32, 21u32)),
            _ => None,
        }
    }

    open spec fn apply_infix_spec(&self, t: TokenView, l: ExprView, r: ExprView) -> Result<
        ExprView,
        ParseErrorView,
    > {
        match t {
            TokenView::Plus => Ok(ExprView::Add(Box::new(l), Box::new(r))),
            TokenView::Minus => Ok(ExprView::Sub(Box::new(l), Box::new(r))),
            TokenView::Star => Ok(ExprView::Mul(Box::new(l), Box::new(r))),
            TokenView::Slash => Ok(ExprView::Div(Box::new(l), Box::new(r))),
            _ => Ok(l),
        }
    }

    open spec fn wrap_paren_spec(&self, v: ExprView) -> ExprView {
        v
    }

    fn operand(&self, t: &Token) -> (r: Option<Result<Expr, ParseError>>) {
        match t {
            Token::Int { digits, start, end } => {
                if digits.as_str().unicode_len() > 4 {
                    Some(
                        Err(
                            ParseError::IntTooLong {
                                span: TokenLocation {
                                    input: digits.clone(),
                                    start: *start,
                                    end: *end,
                                },
                            },
                        ),
                    )
                } else {
                    match parse_digits(digits) {
                        None => Some(Err(ParseError::ParseIntError(digits.clone()))),
                        Some(v) => Some(Ok(Expr::Int(v))),
                    }
                }
            },
            Token::Dice { count, sides, start, end } => {
                if count.as_str().unicode_len() > 4 {
                    Some(
                        Err(
                            ParseError::IntTooLong {
                                span: TokenLocation {
                                    input: count.clone(),
                                    start: *start,
                                    end: *end,
                                },
                            },
                        ),
                    )
                } else if sides.as_str().unicode_len() > 4 {
                    Some(
                        Err(
                            ParseError::IntTooLong {
                                span: TokenLocation {
                                    input: sides.clone(),
                                    start: *start,
                                    end: *end,
                                },
                            },
                        ),
                    )
                } else {
                    match parse_digits(count) {
                        None => Some(Err(ParseError::ParseIntError(count.clone()))),
                        Some(c) => {
                            if c <= 0 {
                                Some(Err(ParseError::OutOfRange(c)))
                            } else {
                                match parse_digits(sides) {
                                    None => Some(Err(ParseError::ParseIntError(sides.clone()))),
                                    Some(s) => {
                                        if s <= 0 {
                                            Some(Err(ParseError::OutOfRange(s)))
                                        } else {
                                            Some(Ok(Expr::Dice(c, s)))
                                        }
                                    },
                                }
                            }
                        },
                    }
                }
            },
            _ => None,
        }
    }

    fn prefix_power(&self, t: &Token) -> (r: Option<u32>) {
        match t {
            Token::Minus => Some(30),
            _ => None,
        }
    }

    fn apply_prefix(&self, t: &Token, v: Expr) -> (r: Result<Expr, ParseError>) {
        Ok(Expr::Not(Box::new(v)))
    }

    fn postfix_power(&self, t: &Token) -> (r: Option<u32>) {
        match t {
            Token::Label { .. } => Some(40),
            _ => None,
        }
    }

    fn apply_postfix(&self, t: &Token, v: Expr) -> (r: Result<Expr, ParseError>) {
        match t {
            Token::Label { text, .. } => {
                let m = trim_string(text);
                if m.as_str().unicode_len() == 0 {
                    proof {
                        assert(spec_trim(text@).len() == 0);
                    }
                    Ok(v)
                } else {
                    let already = matches!(&v, Expr::Label(_, _));
                    if already {
                        Ok(v)
                    } else {
                        Ok(Expr::Label(Box::new(v), m))
                    }
                }
            },
            _ => Ok(v),
        }
    }

    fn infix_power(&self, t: &Token) -> (r: Option<(u32, u32)>) {
        match t {
            Token::Plus => Some((10, 11)),
            Token::Minus => Some((10, 11)),
            Token::Star => Some((20, 21)),
            Token::Slash => Some((20, 21)),
            _ => None,
        }
    }

    fn apply_infix(&self, t: &Token, l: Expr, r: Expr) -> (res: Result<Expr, ParseError>) {
        match t {
            Token::Plus => Ok(Expr::Add(Box::new(l), Box::new(r))),
            Token::Minus => Ok(Expr::Sub(Box::new(l), Box::new(r))),
            Token::Star => Ok(Expr::Mul(Box::new(l), Box::new(r))),
            Token::Slash => Ok(Expr::Div(Box::new(l), Box::new(r))),
            _ => Ok(l),
        }
    }

    fn wrap_paren(&self, v: Expr) -> (r: Expr) {
        v
    }
}

/// Trees built by the dice tables' operand are well formed.
proof fn lemma_dice_operand_wf(t: TokenView)
    ensures
        match DiceTables.operand_spec(t) {
            Some(Ok(v)) => v.wf(),
            _ => true,
        },
{
    match t {
        TokenView::Int { digits, start, end } => {},
        TokenView::Dice { count, sides, start, end } => {
            if count.len() <= 4 && sides.len() <= 4 && all_digits(count) && count.len() >= 1
                && digits_val(count) > 0 && all_digits(sides) && sides.len() >= 1 && digits_val(
                sides,
            ) > 0 {
                lemma_digits_val_bound(count);
                lemma_digits_val_bound(sides);
                lemma_pow10_small(count.len());
                lemma_pow10_small(sides.len());
            }
        },
        _ => {},
    }
}

/// Everything the dice grammar's climb produces is well formed.
proof fn lemma_dice_parse_wf(toks: Seq<TokenView>, pos: int, min_bp: u32, depth: nat)
    ensures
        match engine::sp_parse(DiceTables, toks, pos, min_bp, depth) {
            Ok(step) => step.0.wf(),
            Err(_) => true,
        },
    decreases toks.len() - pos, 2int,
{
    let tbl = DiceTables;
    if depth == 0 {
    } else if pos < 0 || pos >= toks.len() {
    } else {
        let t = toks[pos];
        match tbl.prefix_power_spec(t) {
            Some(p) => {
                lemma_dice_parse_wf(toks, pos + 1, p, (depth - 1) as nat);
                match engine::sp_parse(tbl, toks, pos + 1, p, (depth - 1) as nat) {
                    Ok(step) => {
                        if pos < step.1 <= toks.len() {
                            lemma_dice_loop_wf(
                                toks,
                                step.1,
                                min_bp,
                                ExprView::Not(Box::new(step.0)),
                                depth,
                            );
                        }
                    },
                    Err(_) => {},
                }
            },
            None => {
                if t is LParen {
                    lemma_dice_parse_wf(toks, pos + 1, 0, (depth - 1) as nat);
                    match engine::sp_parse(tbl, toks, pos + 1, 0, (depth - 1) as nat) {
                        Ok(step) => {
                            if pos < step.1 < toks.len() && toks[step.1] is RParen {
                                lemma_dice_loop_wf(toks, step.1 + 1, min_bp, step.0, depth);
                            }
                        },
                        Err(_) => {},
                    }
                } else {
                    lemma_dice_operand_wf(t);
                    match tbl.operand_spec(t) {
                        Some(Ok(v)) => {
                            lemma_dice_loop_wf(toks, pos + 1, min_bp, v, depth);
                        },
                        _ => {},
                    }
                }
            },
        }
    }
}

/// The operator loop preserves well-formedness of the accumulated tree.
proof fn lemma_dice_loop_wf(toks: Seq<TokenView>, pos: int, min_bp: u32, acc: ExprView, depth: nat)
    requires
        acc.wf(),
    ensures
        match engine::sp_loop(DiceTables, toks, pos, min_bp, acc, depth) {
            Ok(step) => step.0.wf(),
            Err(_) => true,
        },
    decreases toks.len() - pos, 1int,
{
    let tbl = DiceTables;
    if pos < 0 {
    } else if pos >= toks.len() {
    } else {
        let t = toks[pos];
        match tbl.postfix_power_spec(t) {
            Some(p) => {
                if p >= min_bp {
                    match tbl.apply_postfix_spec(t, acc) {
                        Ok(v) => {
                            lemma_dice_loop_wf(toks, pos + 1, min_bp, v, depth);
                        },
                        Err(_) => {},
                    }
                } else {
                    lemma_dice_loop_infix_wf(toks, pos, min_bp, acc, depth);
                }
            },
            None => {
                lemma_dice_loop_infix_wf(toks, pos, min_bp, acc, depth);
            },
        }
    }
}

/// The infix half of the loop preserves well-formedness.
proof fn lemma_dice_loop_infix_wf(
    toks: Seq<TokenView>,
    pos: int,
    min_bp: u32,
    acc: ExprView,
    depth: nat,
)
    requires
        acc.wf(),
    ensures
        match engine::sp_loop_infix(DiceTables, toks, pos, min_bp, acc, depth) {
            Ok(step) => step.0.wf(),
            Err(_) => true,
        },
    decreases toks.len() - pos, 0int,
{
    let tbl = DiceTables;
    if pos < 0 || pos >= toks.len() {
    } else {
        let t = toks[pos];
        match tbl.infix_power_spec(t) {
            Some(powers) => {
                if powers.0 >= min_bp && depth != 0 {
                    lemma_dice_parse_wf(toks, pos + 1, powers.1, (depth - 1) as nat);
                    match engine::sp_parse(tbl, toks, pos + 1, powers.1, (depth - 1) as nat) {
                        Ok(step) => {
                            match tbl.apply_infix_spec(t, acc, step.0) {
                                Ok(v) => {
                                    if pos < step.1 <= toks.len() {
                                        lemma_dice_loop_wf(toks, step.1, min_bp, v, depth);
                                    }
                                },
                                Err(_) => {},
                            }
                        },
                        Err(_) => {},
                    }
                }
            },
            None => {},
        }
    }
}

/// What parsing the whole text means: lex it, then climb the tokens with
/// the dice grammar's tables; any lexical, structural, or build failure
/// is a [`ParseErrorView`].
pub open spec fn spec_parse(text: Seq<char>) -> Result<ExprView, ParseErrorView> {
    match lex::spec_lex(text) {
        Err(at) => Err(ParseErrorView::Syntax { at }),
        Ok(toks) => match engine::sp_precedence_parse(DiceTables, toks, 0u32) {
            Ok(v) => Ok(v),
            Err(EngineError::Syntax) => Err(ParseErrorView::Unexpected),
            Err(EngineError::TooDeep) => Err(ParseErrorView::TooDeep),
            Err(EngineError::Build(b)) => Err(b),
        },
    }
}

/// Parses expression text into a well-formed tree, or reports the first
/// failure. The result is exactly [`spec_parse`] of the text.
pub fn parse(text: &str) -> (r: Result<Expr, ParseError>)
    ensures
        match r {
            Ok(e) => spec_parse(text@) == Ok::<ExprView, ParseErrorView>(e@) && e.wf()
                && e.rollable(),
            Err(pe) => spec_parse(text@) == Err::<ExprView, ParseErrorView>(pe@),
        },
{
    match lex::lex(text) {
        Err(at) => Err(ParseError::Syntax { at }),
        Ok(toks) => try_parse_to_ast(&toks),
    }
}

/// Builds a well-formed tree from lexed tokens, or reports the first
/// failure: the tree-builder half of [`parse`].
pub fn try_parse_to_ast(toks: &Vec<Token>) -> (r: Result<Expr, ParseError>)
    ensures
        ({
            let sp = engine::sp_precedence_parse(DiceTables, toks_view(toks@), 0u32);
            match r {
                Ok(e) => sp == Ok::<ExprView, EngineError<ParseErrorView>>(e@) && e.wf()
                    && e.rollable(),
                Err(pe) => {
                    ||| sp == Err::<ExprView, EngineError<ParseErrorView>>(
                        EngineError::Build(pe@),
                    )
                    ||| (pe@ is Unexpected && sp == Err::<ExprView, EngineError<ParseErrorView>>(
                        EngineError::Syntax,
                    ))
                    ||| (pe@ is TooDeep && sp == Err::<ExprView, EngineError<ParseErrorView>>(
                        EngineError::TooDeep,
                    ))
                },
            }
        }),
{
    match engine::precedence_parse(&DiceTables, toks, 0) {
        Ok(e) => {
            proof {
                lemma_dice_parse_wf(toks_view(toks@), 0, 0u32, engine::MAX_DEPTH as nat);
                crate::ast::lemma_wf_view(e);
                crate::ast::lemma_wf_rollable(e);
            }
            Ok(e)
        },
        Err(EngineError::Syntax) => Err(ParseError::Unexpected),
        Err(EngineError::TooDeep) => Err(ParseError::TooDeep),
        Err(EngineError::Build(b)) => Err(b),
    }
}

/// Builds the tree for text already known to be valid; the non-robust
/// sibling of [`parse`], for callers that have checked their input.
pub fn parse_expr(text: &str) -> (e: Expr)
    requires
        spec_parse(text@) is Ok,
    ensures
        Ok::<ExprView, ParseErrorView>(e@) == spec_parse(text@),
        e.wf(),
        e.rollable(),
{
    match parse(text) {
        Ok(e) => e,
        Err(_) => {
            proof {
                assert(false);
            }
            Expr::Int(0)
        },
    }
}

/// The parsing entrypoint as a named front end.
pub struct DiceParser;

impl DiceParser {
    /// Parses expression text; see [`parse`].
    pub fn parse(text: &str) -> (r: Result<Expr, ParseError>)
        ensures
            match r {
                Ok(e) => spec_parse(text@) == Ok::<ExprView, ParseErrorView>(e@) && e.wf()
                    && e.rollable(),
                Err(pe) => spec_parse(text@) == Err::<ExprView, ParseErrorView>(pe@),
            },
    {
        parse(text)
    }
}

} // verus!
