//! Lexing expression text into a stream of [`Token`]s.
//!
//! The lexer recognizes integers, dice terms (`3d6`, case-insensitive
//! separator), the four operators, parentheses, bracketed labels, and
//! whitespace between tokens. [`spec_lex`] is the mathematical statement
//! of its output; [`lex`] produces exactly that.

use vstd::prelude::*;

verus! {

/// A lexed token. Numeric tokens keep their raw digits so the tree
/// builder can enforce its own length and range rules; spans are kept for
/// error reporting.
#[derive(Debug, Clone, PartialEq)]
pub enum Token {
    /// A run of decimal digits.
    Int { digits: String, start: usize, end: usize },
    /// Two digit runs joined by `d` or `D`: a dice term.
    Dice { count: String, sides: String, start: usize, end: usize },
    Plus,
    Minus,
    Star,
    Slash,
    LParen,
    RParen,
    /// The text between `[` and `]`, as written.
    Label { text: String, start: usize, end: usize },
}

/// The specification-level image of a [`Token`], with text as character
/// sequences.
pub enum TokenView {
    Int { digits: Seq<char>, start: int, end: int },
    Dice { count: Seq<char>, sides: Seq<char>, start: int, end: int },
    Plus,
    Minus,
    Star,
    Slash,
    LParen,
    RParen,
    Label { text: Seq<char>, start: int, end: int },
}

impl View for Token {
    type V = TokenView;

    open spec fn view(&self) -> TokenView {
        match self {
            Token::Int { digits, start, end } => TokenView::Int {
                digits: digits@,
                start: *start as int,
                end: *end as int,
            },
            Token::Dice { count, sides, start, end } => TokenView::Dice {
                count: count@,
                sides: sides@,
                start: *start as int,
                end: *end as int,
            },
            Token::Plus => TokenView::Plus,
            Token::Minus => TokenView::Minus,
            Token::Star => TokenView::Star,
            Token::Slash => TokenView::Slash,
            Token::LParen => TokenView::LParen,
            Token::RParen => TokenView::RParen,
            Token::Label { text, start, end } => TokenView::Label {
                text: text@,
                start: *start as int,
                end: *end as int,
            },
        }
    }
}

/// The views of a token sequence.
pub open spec fn toks_view(ts: Seq<Token>) -> Seq<TokenView> {
    ts.map_values(|t: Token| t@)
}

/// Whitespace between tokens.
pub open spec fn is_space(c: char) -> bool {
    c == ' ' || c == '\t' || c == '\r' || c == '\n'
}

/// A decimal digit.
pub open spec fn is_digit(c: char) -> bool {
    48 <= (c as u32) && (c as u32) <= 57
}

/// A character allowed inside a label: ASCII, and none of the bracket or
/// escape characters.
pub open spec fn is_label_char(c: char) -> bool {
    (c as u32) < 128 && c != '[' && c != ']' && c != '\\'
}

/// The first position at or after `i` that does not hold a digit.
pub open spec fn scan_digits(text: Seq<char>, i: int) -> int
    decreases text.len() - i,
{
    if 0 <= i < text.len() && is_digit(text[i]) {
        scan_digits(text, i + 1)
    } else {
        i
    }
}

/// The first position at or after `i` that does not hold a label
/// character.
pub open spec fn scan_label(text: Seq<char>, i: int) -> int
    decreases text.len() - i,
{
    if 0 <= i < text.len() && is_label_char(text[i]) {
        scan_label(text, i + 1)
    } else {
        i
    }
}

proof fn lemma_scan_digits_bounds(text: Seq<char>, i: int)
    requires
        0 <= i <= text.len(),
    ensures
        i <= scan_digits(text, i) <= text.len(),
    decreases text.len() - i,
{
    if i < text.len() && is_digit(text[i]) {
        lemma_scan_digits_bounds(text, i + 1);
    }
}

proof fn lemma_scan_label_bounds(text: Seq<char>, i: int)
    requires
        0 <= i <= text.len(),
    ensures
        i <= scan_label(text, i) <= text.len(),
    decreases text.len() - i,
{
    if i < text.len() && is_label_char(text[i]) {
        lemma_scan_label_bounds(text, i + 1);
    }
}

/// The tokens of `text` from position `i` on, or the position of the
/// first character that fits no token.
pub open spec fn spec_lex_from(text: Seq<char>, i: int) -> Result<Seq<TokenView>, int>
    decreases text.len() - i,
{
    if i < 0 || i >= text.len() {
        Ok(Seq::empty())
    } else if is_space(text[i]) {
        spec_lex_from(text, i + 1)
    } else if is_digit(text[i]) {
        let j = scan_digits(text, i);
        if j < text.len() && (text[j] == 'd' || text[j] == 'D') && j + 1 < text.len() && is_digit(
            text[j + 1],
        ) {
            let k = scan_digits(text, j + 1);
            let tok = TokenView::Dice {
                count: text.subrange(i, j),
                sides: text.subrange(j + 1, k),
                start: i,
                end: k,
            };
            if i < k <= text.len() {
                match spec_lex_from(text, k) {
                    Ok(rest) => Ok(seq![tok] + rest),
                    Err(e) => Err(e),
                }
            } else {
                Err(i)
            }
        } else {
            let tok = TokenView::Int { digits: text.subrange(i, j), start: i, end: j };
            if i < j <= text.len() {
                match spec_lex_from(text, j) {
                    Ok(rest) => Ok(seq![tok] + rest),
                    Err(e) => Err(e),
                }
            } else {
                Err(i)
            }
        }
    } else if text[i] == '+' {
        match spec_lex_from(text, i + 1) {
            Ok(rest) => Ok(seq![TokenView::Plus] + rest),
            Err(e) => Err(e),
        }
    } else if text[i] == '-' {
        match spec_lex_from(text, i + 1) {
            Ok(rest) => Ok(seq![TokenView::Minus] + rest),
            Err(e) => Err(e),
        }
    } else if text[i] == '*' {
        match spec_lex_from(text, i + 1) {
            Ok(rest) => Ok(seq![TokenView::Star] + rest),
            Err(e) => Err(e),
        }
    } else if text[i] == '/' {
        match spec_lex_from(text, i + 1) {
            Ok(rest) => Ok(seq![TokenView::Slash] + rest),
            Err(e) => Err(e),
        }
    } else if text[i] == '(' {
        match spec_lex_from(text, i + 1) {
            Ok(rest) => Ok(seq![TokenView::LParen] + rest),
            Err(e) => Err(e),
        }
    } else if text[i] == ')' {
        match spec_lex_from(text, i + 1) {
            Ok(rest) => Ok(seq![TokenView::RParen] + rest),
            Err(e) => Err(e),
        }
    } else if text[i] == '[' {
        let j = scan_label(text, i + 1);
        if i <= j && j < text.len() && text[j] == ']' {
            let tok = TokenView::Label { text: text.subrange(i + 1, j), start: i, end: j + 1 };
            match spec_lex_from(text, j + 1) {
                Ok(rest) => Ok(seq![tok] + rest),
                Err(e) => Err(e),
            }
        } else {
            Err(j)
        }
    } else {
        Err(i)
    }
}

/// The tokens of the whole text, or the position of the first character
/// that fits no token.
pub open spec fn spec_lex(text: Seq<char>) -> Result<Seq<TokenView>, int> {
    spec_lex_from(text, 0)
}

/// Prepends already-lexed tokens to the outcome of lexing the remainder.
spec fn lex_combine(prefix: Seq<TokenView>, r: Result<Seq<TokenView>, int>) -> Result<
    Seq<TokenView>,
    int,
> {
    match r {
        Ok(rest) => Ok(prefix + rest),
        Err(e) => Err(e),
    }
}

/// Whether `c` is whitespace between tokens.
fn is_space_char(c: char) -> (r: bool)
    ensures
        r == is_space(c),
{
    c == ' ' || c == '\t' || c == '\r' || c == '\n'
}

/// Whether `c` is a decimal digit.
pub fn is_digit_char(c: char) -> (r: bool)
    ensures
        r == is_digit(c),
{
    let u = c as u32;
    48 <= u && u <= 57
}

/// Whether `c` may stand inside a label.
fn is_label_char_exec(c: char) -> (r: bool)
    ensures
        r == is_label_char(c),
{
    let u = c as u32;
    u < 128 && c != '[' && c != ']' && c != '\\'
}

/// Copies the characters of `text` in `a..b` into an owned string.
fn string_range(text: &str, a: usize, b: usize) -> (s: String)
    requires
        a <= b <= text@.len(),
    ensures
        s@ == text@.subrange(a as int, b as int),
{
    String::from_str(text.substring_char(a, b))
}

/// Finds the end of the digit run starting at `i`.
fn scan_digits_exec(text: &str, i: usize, n: usize) -> (j: usize)
    requires
        n == text@.len(),
        i <= n,
    ensures
        j as int == scan_digits(text@, i as int),
        i <= j <= n,
{
    let mut j: usize = i;
    while j < n && is_digit_char(text.get_char(j))
        invariant
            i <= j <= n,
            n == text@.len(),
            scan_digits(text@, i as int) == scan_digits(text@, j as int),
        decreases n - j,
    {
        j = j + 1;
    }
    proof {
        lemma_scan_digits_bounds(text@, j as int);
    }
    j
}

/// Finds the end of the label-character run starting at `i`.
fn scan_label_exec(text: &str, i: usize, n: usize) -> (j: usize)
    requires
        n == text@.len(),
        i <= n,
    ensures
        j as int == scan_label(text@, i as int),
        i <= j <= n,
{
    let mut j: usize = i;
    while j < n && is_label_char_exec(text.get_char(j))
        invariant
            i <= j <= n,
            n == text@.len(),
            scan_label(text@, i as int) == scan_label(text@, j as int),
        decreases n - j,
    {
        j = j + 1;
    }
    proof {
        lemma_scan_label_bounds(text@, j as int);
    }
    j
}

/// Splits `text` into tokens, or reports the position of the first
/// character that fits no token.
pub fn lex(text: &str) -> (r: Result<Vec<Token>, usize>)
    ensures
        match r {
            Ok(toks) => spec_lex(text@) == Ok::<Seq<TokenView>, int>(toks_view(toks@)),
            Err(at) => spec_lex(text@) == Err::<Seq<TokenView>, int>(at as int),
        },
{
    let n = text.unicode_len();
    let mut out: Vec<Token> = Vec::new();
    let mut i: usize = 0;
    proof {
        assert(toks_view(out@) =~= Seq::<TokenView>::empty());
    }
    while i < n
        invariant
            i <= n,
            n == text@.len(),
            spec_lex(text@) == lex_combine(toks_view(out@), spec_lex_from(text@, i as int)),
        decreases n - i,
    {
        let ghost out0 = out@;
        let ghost i0 = i as int;
        let c = text.get_char(i);
        if is_space_char(c) {
            i = i + 1;
        } else if is_digit_char(c) {
            let j = scan_digits_exec(text, i, n);
            let mut dice = false;
            if j < n {
                let cj = text.get_char(j);
                if (cj == 'd' || cj == 'D') && j + 1 < n && is_digit_char(text.get_char(j + 1)) {
                    dice = true;
                }
            }
            proof {
                assert(scan_digits(text@, i as int) == scan_digits(text@, i as int + 1));
                lemma_scan_digits_bounds(text@, i as int + 1);
            }
            if dice {
                let k = scan_digits_exec(text, j + 1, n);
                proof {
                    assert(scan_digits(text@, j as int + 1) == scan_digits(text@, j as int + 2));
                    lemma_scan_digits_bounds(text@, j as int + 2);
                }
                let count = string_range(text, i, j);
                let sides = string_range(text, j + 1, k);
                out.push(Token::Dice { count, sides, start: i, end: k });
                proof {
                    lemma_lex_step(out0, out@, spec_lex_from(text@, k as int));
                }
                i = k;
            } else {
                let digits = string_range(text, i, j);
                out.push(Token::Int { digits, start: i, end: j });
                proof {
                    lemma_lex_step(out0, out@, spec_lex_from(text@, j as int));
                }
                i = j;
            }
        } else if c == '+' {
            out.push(Token::Plus);
            proof {
                lemma_lex_step(out0, out@, spec_lex_from(text@, i0 + 1));
            }
            i = i + 1;
        } else if c == '-' {
            out.push(Token::Minus);
            proof {
                lemma_lex_step(out0, out@, spec_lex_from(text@, i0 + 1));
            }
            i = i + 1;
        } else if c == '*' {
            out.push(Token::Star);
            proof {
                lemma_lex_step(out0, out@, spec_lex_from(text@, i0 + 1));
            }
            i = i + 1;
        } else if c == '/' {
            out.push(Token::Slash);
            proof {
                lemma_lex_step(out0, out@, spec_lex_from(text@, i0 + 1));
            }
            i = i + 1;
        } else if c == '(' {
            out.push(Token::LParen);
            proof {
                lemma_lex_step(out0, out@, spec_lex_from(text@, i0 + 1));
            }
            i = i + 1;
        } else if c == ')' {
            out.push(Token::RParen);
            proof {
                lemma_lex_step(out0, out@, spec_lex_from(text@, i0 + 1));
            }
            i = i + 1;
        } else if c == '[' {
            let j = scan_label_exec(text, i + 1, n);
            if j < n && text.get_char(j) == ']' {
                let content = string_range(text, i + 1, j);
                out.push(Token::Label { text: content, start: i, end: j + 1 });
                proof {
                    lemma_lex_step(out0, out@, spec_lex_from(text@, j as int + 1));
                }
                i = j + 1;
            } else {
                return Err(j);
            }
        } else {
            return Err(i);
        }
    }
    proof {
        assert(spec_lex_from(text@, i as int) == Ok::<Seq<TokenView>, int>(Seq::empty()));
        assert(toks_view(out@) + Seq::<TokenView>::empty() =~= toks_view(out@));
    }
    Ok(out)
}

/// One token appended on the executable side matches one token prepended
/// on the specification side.
proof fn lemma_lex_step(before: Seq<Token>, after: Seq<Token>, rest: Result<Seq<TokenView>, int>)
    requires
        after == before.push(after.last()),
        after.len() == before.len() + 1,
    ensures
        lex_combine(toks_view(before), lex_combine(seq![after.last()@], rest)) == lex_combine(
            toks_view(after),
            rest,
        ),
{
    match rest {
        Ok(r) => {
            assert(toks_view(before) + (seq![after.last()@] + r) =~= toks_view(after) + r);
        },
        Err(_) => {},
    }
}

} // verus!
