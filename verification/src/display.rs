//! Rendering an [`Expr`] back to text with the minimal parenthesization
//! that lets re-parsing rebuild a tree evaluating to the same value.
//!
//! [`spec_render`] is the mathematical statement of the output;
//! [`Expr::render`] produces exactly that text.

use vstd::prelude::*;
use crate::ast::Expr;
use crate::precedence::{BinOp, Op};

verus! {

/// The character of a single decimal digit value.
pub open spec fn digit_char(d: int) -> char {
    if d == 0 { '0' }
    else if d == 1 { '1' }
    else if d == 2 { '2' }
    else if d == 3 { '3' }
    else if d == 4 { '4' }
    else if d == 5 { '5' }
    else if d == 6 { '6' }
    else if d == 7 { '7' }
    else if d == 8 { '8' }
    else { '9' }
}

/// The decimal digits of `n`, most significant first, with no sign and no
/// leading zeros (`0` itself is the single digit `0`).
pub open spec fn dec_digits(n: nat) -> Seq<char>
    decreases n,
{
    if n < 10 {
        seq![digit_char(n as int)]
    } else {
        dec_digits(n / 10) + seq![digit_char((n % 10) as int)]
    }
}

/// The decimal rendering of a signed integer: a `-` sign for negative
/// values, then the digits of the magnitude.
pub open spec fn int_str(x: int) -> Seq<char> {
    if x < 0 {
        seq!['-'] + dec_digits((-x) as nat)
    } else {
        dec_digits(x as nat)
    }
}

/// One rendered binary node: each child wrapped in parentheses exactly
/// when [`BinOp::spec_needs_parenthesis`] says so, children separated from
/// the operator by single spaces.
pub open spec fn spec_render_binop(me: BinOp, ls: Seq<char>, rs: Seq<char>, lop: Op, rop: Op) -> Seq<char> {
    let wraps = BinOp::spec_needs_parenthesis(me, lop, rop);
    (if wraps.0 { seq!['('] + ls + seq![')'] } else { ls })
        + seq![' '] + me.spec_as_str() + seq![' ']
        + (if wraps.1 { seq!['('] + rs + seq![')'] } else { rs })
}

/// The canonical text of an expression, using the fewest parentheses that
/// keep the value: binary children are wrapped per the precedence rules,
/// and a unary operator parenthesizes its child exactly when the child
/// contains a binary operator at its root spine.
pub open spec fn spec_render(e: Expr) -> Seq<char>
    decreases e,
{
    match e {
        Expr::Int(x) => int_str(x as int),
        Expr::Dice(c, s) => int_str(c as int) + seq!['d'] + int_str(s as int),
        Expr::Not(x) => if x.spec_is_unit() {
            seq!['-'] + spec_render(*x)
        } else {
            seq!['-', '('] + spec_render(*x) + seq![')']
        },
        Expr::Label(x, m) => if x.spec_is_unit() {
            spec_render(*x) + seq!['['] + m@ + seq![']']
        } else {
            seq!['('] + spec_render(*x) + seq![')', '['] + m@ + seq![']']
        },
        Expr::Add(l, r) => spec_render_binop(BinOp::Add, spec_render(*l), spec_render(*r), l.spec_op(), r.spec_op()),
        Expr::Sub(l, r) => spec_render_binop(BinOp::Sub, spec_render(*l), spec_render(*r), l.spec_op(), r.spec_op()),
        Expr::Mul(l, r) => spec_render_binop(BinOp::Mul, spec_render(*l), spec_render(*r), l.spec_op(), r.spec_op()),
        Expr::Div(l, r) => spec_render_binop(BinOp::Div, spec_render(*l), spec_render(*r), l.spec_op(), r.spec_op()),
    }
}

/// Returns a one-character string for a digit value.
fn digit_str(d: u32) -> (r: &'static str)
    requires
        d < 10,
    ensures
        r@ =~= seq![digit_char(d as int)],
{
    match d {
        0u32 => {
            proof { reveal_strlit("0"); }
            "0"
        },
        1u32 => {
            proof { reveal_strlit("1"); }
            "1"
        },
        2u32 => {
            proof { reveal_strlit("2"); }
            "2"
        },
        3u32 => {
            proof { reveal_strlit("3"); }
            "3"
        },
        4u32 => {
            proof { reveal_strlit("4"); }
            "4"
        },
        5u32 => {
            proof { reveal_strlit("5"); }
            "5"
        },
        6u32 => {
            proof { reveal_strlit("6"); }
            "6"
        },
        7u32 => {
            proof { reveal_strlit("7"); }
            "7"
        },
        8u32 => {
            proof { reveal_strlit("8"); }
            "8"
        },
        _ => {
            proof { reveal_strlit("9"); }
            "9"
        },
    }
}

/// Appends the decimal digits of `n` to `out`.
fn push_dec_digits(n: u32, out: &mut String)
    ensures
        final(out)@ == old(out)@ + dec_digits(n as nat),
{
    if n == 0 {
        out.append(digit_str(0));
        return;
    }
    let mut digs: Vec<u32> = Vec::new();
    let mut m: u32 = n;
    while m > 0
        invariant
            m > 0 ==> dec_digits(n as nat) == dec_digits(m as nat) + digs@.map_values(|d: u32| digit_char(d as int)).reverse(),
            m == 0 ==> dec_digits(n as nat) == digs@.map_values(|d: u32| digit_char(d as int)).reverse(),
            forall|i: int| 0 <= i < digs@.len() ==> digs@[i] < 10,
        decreases m,
    {
        let ghost prev = digs@;
        let d: u32 = m % 10;
        digs.push(d);
        m = m / 10;
        proof {
            let chars = |dd: u32| digit_char(dd as int);
            assert(digs@ == prev.push(d));
            assert(digs@.map_values(chars).reverse() =~= seq![digit_char(d as int)] + prev.map_values(chars).reverse());
            if m > 0 {
                assert(dec_digits((m * 10 + d) as nat) == dec_digits(m as nat) + seq![digit_char(d as int)]);
            } else {
                assert(dec_digits(d as nat) == seq![digit_char(d as int)]);
            }
        }
    }
    let ghost target = digs@.map_values(|d: u32| digit_char(d as int)).reverse();
    let mut i: usize = digs.len();
    while i > 0
        invariant
            i <= digs@.len(),
            forall|k: int| 0 <= k < digs@.len() ==> digs@[k] < 10,
            target == digs@.map_values(|d: u32| digit_char(d as int)).reverse(),
            out@ == old(out)@ + target.take(digs@.len() - i),
        decreases i,
    {
        i = i - 1;
        let ghost before = out@;
        out.append(digit_str(digs[i]));
        proof {
            let n_len = digs@.len() as int;
            assert(target[n_len - 1 - i] == digs@.map_values(|d: u32| digit_char(d as int))[i as int]);
            assert(target.take(n_len - i as int) =~= target.take(n_len - i - 1).push(target[n_len - 1 - i]));
            assert(out@ =~= old(out)@ + target.take(n_len - i as int));
        }
    }
    proof {
        assert(target.take(digs@.len() as int) =~= target);
        assert(dec_digits(n as nat) == target);
    }
}

/// Appends the decimal rendering of `x` to `out`.
pub(crate) fn push_int(x: i32, out: &mut String)
    ensures
        final(out)@ == old(out)@ + int_str(x as int),
{
    if x < 0 {
        proof { reveal_strlit("-"); }
        out.append("-");
        let wide: i64 = x as i64;
        let mag: u32 = (-wide) as u32;
        proof {
            assert(seq!['-'] =~= "-"@) by {
                reveal_strlit("-");
            }
            assert(mag as nat == (-(x as int)) as nat);
        }
        push_dec_digits(mag, out);
        proof {
            assert(old(out)@ + int_str(x as int) =~= (old(out)@ + "-"@) + dec_digits(mag as nat));
        }
    } else {
        push_dec_digits(x as u32, out);
    }
}

impl Expr {
    /// Appends the canonical text of the expression to `out`.
    fn render_into(&self, out: &mut String)
        ensures
            final(out)@ == old(out)@ + spec_render(*self),
        decreases self.size(),
    {
        proof {
            reveal_strlit("d");
            reveal_strlit("-");
            reveal_strlit("(");
            reveal_strlit(")");
            reveal_strlit("[");
            reveal_strlit("]");
            reveal_strlit(" ");
        }
        match self {
            Expr::Int(x) => {
                push_int(*x, out);
            },
            Expr::Dice(c, s) => {
                push_int(*c, out);
                out.append("d");
                push_int(*s, out);
                proof {
                    assert("d"@ =~= seq!['d']) by {
                        reveal_strlit("d");
                    }
                    assert(out@ =~= old(out)@ + spec_render(*self));
                }
            },
            Expr::Not(x) => {
                out.append("-");
                if x.is_unit() {
                    x.render_into(out);
                    proof {
                        assert("-"@ =~= seq!['-']) by {
                            reveal_strlit("-");
                        }
                        assert(out@ =~= old(out)@ + spec_render(*self));
                    }
                } else {
                    out.append("(");
                    x.render_into(out);
                    out.append(")");
                    proof {
                        assert("-"@ + "("@ =~= seq!['-', '(']) by {
                            reveal_strlit("-");
                            reveal_strlit("(");
                        }
                        assert(")"@ =~= seq![')']) by {
                            reveal_strlit(")");
                        }
                        assert(out@ =~= old(out)@ + spec_render(*self));
                    }
                }
            },
            Expr::Label(x, m) => {
                if x.is_unit() {
                    x.render_into(out);
                } else {
                    out.append("(");
                    x.render_into(out);
                    out.append(")");
                }
                out.append("[");
                out.append(m.as_str());
                out.append("]");
                proof {
                    assert("("@ =~= seq!['(']) by {
                        reveal_strlit("(");
                    }
                    assert(")"@ =~= seq![')']) by {
                        reveal_strlit(")");
                    }
                    assert("["@ =~= seq!['[']) by {
                        reveal_strlit("[");
                    }
                    assert("]"@ =~= seq![']']) by {
                        reveal_strlit("]");
                    }
                    assert(out@ =~= old(out)@ + spec_render(*self));
                }
            },
            Expr::Add(l, r) => {
                Self::render_binop_into(BinOp::Add, l, r, out);
                proof {
                    assert(out@ =~= old(out)@ + spec_render(*self));
                }
            },
            Expr::Sub(l, r) => {
                Self::render_binop_into(BinOp::Sub, l, r, out);
                proof {
                    assert(out@ =~= old(out)@ + spec_render(*self));
                }
            },
            Expr::Mul(l, r) => {
                Self::render_binop_into(BinOp::Mul, l, r, out);
                proof {
                    assert(out@ =~= old(out)@ + spec_render(*self));
                }
            },
            Expr::Div(l, r) => {
                Self::render_binop_into(BinOp::Div, l, r, out);
                proof {
                    assert(out@ =~= old(out)@ + spec_render(*self));
                }
            },
        }
    }

    /// Appends one rendered binary node to `out`.
    fn render_binop_into(me: BinOp, l: &Expr, r: &Expr, out: &mut String)
        ensures
            final(out)@ == old(out)@ + spec_render_binop(me, spec_render(*l), spec_render(*r), l.spec_op(), r.spec_op()),
        decreases l.size() + r.size(),
    {
        let lop = Op::from_expr(l);
        let rop = Op::from_expr(r);
        let wraps = BinOp::needs_parenthesis(me, lop, rop);

        if wraps.0 {
            out.append("(");
            l.render_into(out);
            out.append(")");
        } else {
            l.render_into(out);
        }
        out.append(" ");
        out.append(me.as_str());
        out.append(" ");
        if wraps.1 {
            out.append("(");
            r.render_into(out);
            out.append(")");
        } else {
            r.render_into(out);
        }
        proof {
            assert("("@ =~= seq!['(']) by {
                reveal_strlit("(");
            }
            assert(")"@ =~= seq![')']) by {
                reveal_strlit(")");
            }
            assert(" "@ =~= seq![' ']) by {
                reveal_strlit(" ");
            }
            assert(out@ =~= old(out)@ + spec_render_binop(me, spec_render(*l), spec_render(*r), l.spec_op(), r.spec_op()));
        }
    }

    /// Renders the expression to its canonical minimal-parenthesis text.
    pub fn render(&self) -> (s: String)
        ensures
            s@ == spec_render(*self),
    {
        proof {
            reveal_strlit("");
        }
        let mut s = String::from_str("");
        self.render_into(&mut s);
        proof {
            assert(""@ =~= Seq::<char>::empty()) by {
                reveal_strlit("");
            }
            assert(s@ =~= spec_render(*self));
        }
        s
    }
}


/// A chain of one associative operator (`Add` or `Mul`) over plain
/// leaves: every inner node is that operator.
pub open spec fn assoc_chain(e: Expr, op: BinOp) -> bool
    decreases e,
{
    match e {
        Expr::Int(_) => true,
        Expr::Dice(_, _) => true,
        Expr::Add(l, r) => op == BinOp::Add && assoc_chain(*l, op) && assoc_chain(*r, op),
        Expr::Mul(l, r) => op == BinOp::Mul && assoc_chain(*l, op) && assoc_chain(*r, op),
        _ => false,
    }
}

/// Text with no parenthesis characters.
pub open spec fn paren_free(s: Seq<char>) -> bool {
    forall|i: int| 0 <= i < s.len() ==> s[i] != '(' && #[trigger] s[i] != ')'
}

proof fn lemma_paren_free_concat(a: Seq<char>, b: Seq<char>)
    requires
        paren_free(a),
        paren_free(b),
    ensures
        paren_free(a + b),
{
    assert forall|i: int| 0 <= i < (a + b).len() implies (a + b)[i] != '(' && #[trigger] (a
        + b)[i] != ')' by {
        if i < a.len() {
            assert((a + b)[i] == a[i]);
        } else {
            assert((a + b)[i] == b[i - a.len()]);
        }
    }
}

proof fn lemma_dec_digits_paren_free(n: nat)
    ensures
        paren_free(dec_digits(n)),
    decreases n,
{
    if n < 10 {
    } else {
        lemma_dec_digits_paren_free(n / 10);
        lemma_paren_free_concat(dec_digits(n / 10), seq![digit_char((n % 10) as int)]);
    }
}

proof fn lemma_int_str_paren_free(x: int)
    ensures
        paren_free(int_str(x)),
{
    if x < 0 {
        lemma_dec_digits_paren_free((-x) as nat);
        lemma_paren_free_concat(seq!['-'], dec_digits((-x) as nat));
    } else {
        lemma_dec_digits_paren_free(x as nat);
    }
}

/// A chain of one associative operator over plain leaves renders with no
/// parentheses at all: regrouping such a chain is semantically
/// transparent, so none are needed.
pub proof fn lemma_assoc_chain_paren_free(e: Expr, op: BinOp)
    requires
        assoc_chain(e, op),
    ensures
        paren_free(spec_render(e)),
    decreases e,
{
    match e {
        Expr::Int(x) => {
            lemma_int_str_paren_free(x as int);
        },
        Expr::Dice(c, s) => {
            lemma_int_str_paren_free(c as int);
            lemma_int_str_paren_free(s as int);
            lemma_paren_free_concat(int_str(c as int), seq!['d']);
            lemma_paren_free_concat(int_str(c as int) + seq!['d'], int_str(s as int));
        },
        Expr::Add(l, r) => {
            lemma_assoc_chain_paren_free(*l, op);
            lemma_assoc_chain_paren_free(*r, op);
            lemma_chain_prec(*l, op);
            lemma_chain_prec(*r, op);
            lemma_chain_binop_paren_free(BinOp::Add, *l, *r);
        },
        Expr::Mul(l, r) => {
            lemma_assoc_chain_paren_free(*l, op);
            lemma_assoc_chain_paren_free(*r, op);
            lemma_chain_prec(*l, op);
            lemma_chain_prec(*r, op);
            lemma_chain_binop_paren_free(BinOp::Mul, *l, *r);
        },
        _ => {},
    }
}

/// A chain's root is a leaf or the chain's own operator, so its
/// precedence class is no looser than the operator's.
proof fn lemma_chain_prec(e: Expr, op: BinOp)
    requires
        assoc_chain(e, op),
        op == BinOp::Add || op == BinOp::Mul,
    ensures
        e.spec_op().spec_prec() <= op.spec_prec(),
{
    match e {
        Expr::Int(_) => {},
        Expr::Dice(_, _) => {},
        Expr::Add(_, _) => {},
        Expr::Mul(_, _) => {},
        _ => {
            assert(false);
        },
    }
}

/// One associative node over children of the same or tighter precedence
/// class wraps neither child.
proof fn lemma_chain_binop_paren_free(me: BinOp, l: Expr, r: Expr)
    requires
        me == BinOp::Add || me == BinOp::Mul,
        l.spec_op().spec_prec() <= me.spec_prec(),
        r.spec_op().spec_prec() <= me.spec_prec(),
        paren_free(spec_render(l)),
        paren_free(spec_render(r)),
    ensures
        paren_free(spec_render_binop(me, spec_render(l), spec_render(r), l.spec_op(), r.spec_op())),
{
    let wraps = BinOp::spec_needs_parenthesis(me, l.spec_op(), r.spec_op());
    assert(!wraps.0 && !wraps.1);
    lemma_paren_free_concat(spec_render(l), seq![' ']);
    lemma_paren_free_concat(spec_render(l) + seq![' '], me.spec_as_str());
    lemma_paren_free_concat(spec_render(l) + seq![' '] + me.spec_as_str(), seq![' ']);
    lemma_paren_free_concat(
        spec_render(l) + seq![' '] + me.spec_as_str() + seq![' '],
        spec_render(r),
    );
}

/// Non-associativity enforced in the rendering: a subtraction (or
/// division) always parenthesizes an equal-precedence right child, and
/// never parenthesizes an equal-precedence left child, since
/// `a - (b - c)` and `(a - b) - c` differ while left-leaning regrouping
/// is the parse's own shape.
pub proof fn lemma_non_assoc_grouping(a: Expr, b: Expr, c: Expr, me: BinOp)
    requires
        me == BinOp::Sub || me == BinOp::Div,
    ensures
        BinOp::spec_needs_parenthesis(me, a.spec_op(), me.spec_as_op()).1,
        !BinOp::spec_needs_parenthesis(me, me.spec_as_op(), c.spec_op()).0,
{
}

} // verus!
