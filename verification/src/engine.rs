//! The generic operator-precedence parsing engine.
//!
//! [`precedence_parse`] turns a token stream into a value of a
//! caller-chosen type by precedence climbing: an implementation of
//! [`OpTable`] supplies the operand builder and the prefix, postfix, and
//! infix operator tables (binding powers and combining functions), and
//! the engine consults them without knowing the grammar. Parenthesized
//! sub-expressions recurse at threshold zero. The engine enforces a
//! nesting-depth budget and rejects deeper input with a typed error, so
//! adversarially nested text cannot exhaust the call stack.
//!
//! [`sp_precedence_parse`] states the algorithm mathematically, over the
//! views of the values; the executable engine returns exactly its
//! outcome.

use vstd::prelude::*;
use crate::lex::{Token, TokenView, toks_view};

verus! {

/// The engine's nesting-depth budget.
pub const MAX_DEPTH: u32 = 512;

/// A failure of the engine itself, or of the caller's combinators.
#[derive(Debug, Clone, Copy, PartialEq, Eq)]
pub enum EngineError<E> {
    /// A token that fits no rule at its position, missing input,
    /// trailing input, or an unbalanced parenthesis.
    Syntax,
    /// The input nests more deeply than the engine's depth budget.
    TooDeep,
    /// A combining function of the operator table refused to build.
    Build(E),
}

/// The view of a built value or a build error.
pub open spec fn res_view<V: View, E: View>(r: Result<V, E>) -> Result<V::V, E::V> {
    match r {
        Ok(v) => Ok(v@),
        Err(e) => Err(e@),
    }
}

/// The view of an engine outcome.
pub open spec fn err_view<E: View>(e: EngineError<E>) -> EngineError<E::V> {
    match e {
        EngineError::Syntax => EngineError::Syntax,
        EngineError::TooDeep => EngineError::TooDeep,
        EngineError::Build(b) => EngineError::Build(b@),
    }
}

/// An operand parser and the prefix/postfix/infix operator dispatch
/// tables of one grammar, producing values of a caller-chosen type.
///
/// Each executable method is pinned to a specification twin over the
/// views of the values, so that the engine's outcome is a mathematical
/// function of the table and the tokens. A binding power is a `u32`;
/// higher powers bind tighter. Left-associativity of an infix operator
/// is encoded by a right power one above its left power.
pub trait OpTable {
    /// The value the grammar builds.
    type Value: View;

    /// The error a combining function may report.
    type BuildError: View;

    /// What a bare operand token builds, or `None` if the token is no
    /// operand.
    spec fn operand_spec(&self, t: TokenView) -> Option<
        Result<<Self::Value as View>::V, <Self::BuildError as View>::V>,
    >;

    /// The binding power of a prefix operator token.
    spec fn prefix_power_spec(&self, t: TokenView) -> Option<u32>;

    /// What a prefix operator builds from its operand.
    spec fn apply_prefix_spec(&self, t: TokenView, v: <Self::Value as View>::V) -> Result<
        <Self::Value as View>::V,
        <Self::BuildError as View>::V,
    >;

    /// The binding power of a postfix operator token.
    spec fn postfix_power_spec(&self, t: TokenView) -> Option<u32>;

    /// What a postfix operator builds from its operand.
    spec fn apply_postfix_spec(&self, t: TokenView, v: <Self::Value as View>::V) -> Result<
        <Self::Value as View>::V,
        <Self::BuildError as View>::V,
    >;

    /// The left and right binding powers of an infix operator token.
    spec fn infix_power_spec(&self, t: TokenView) -> Option<(u32, u32)>;

    /// What an infix operator builds from its operands.
    spec fn apply_infix_spec(
        &self,
        t: TokenView,
        l: <Self::Value as View>::V,
        r: <Self::Value as View>::V,
    ) -> Result<<Self::Value as View>::V, <Self::BuildError as View>::V>;

    /// What a parenthesized sub-expression becomes.
    spec fn wrap_paren_spec(&self, v: <Self::Value as View>::V) -> <Self::Value as View>::V;

    fn operand(&self, t: &Token) -> (r: Option<Result<Self::Value, Self::BuildError>>)
        ensures
            match r {
                Some(inner) => self.operand_spec(t@) == Some(res_view(inner)),
                None => self.operand_spec(t@) is None,
            },
    ;

    fn prefix_power(&self, t: &Token) -> (r: Option<u32>)
        ensures
            r == self.prefix_power_spec(t@),
    ;

    fn apply_prefix(&self, t: &Token, v: Self::Value) -> (r: Result<Self::Value, Self::BuildError>)
        ensures
            res_view(r) == self.apply_prefix_spec(t@, v@),
    ;

    fn postfix_power(&self, t: &Token) -> (r: Option<u32>)
        ensures
            r == self.postfix_power_spec(t@),
    ;

    fn apply_postfix(&self, t: &Token, v: Self::Value) -> (r: Result<Self::Value, Self::BuildError>)
        ensures
            res_view(r) == self.apply_postfix_spec(t@, v@),
    ;

    fn infix_power(&self, t: &Token) -> (r: Option<(u32, u32)>)
        ensures
            r == self.infix_power_spec(t@),
    ;

    fn apply_infix(&self, t: &Token, l: Self::Value, r: Self::Value) -> (res: Result<
        Self::Value,
        Self::BuildError,
    >)
        ensures
            res_view(res) == self.apply_infix_spec(t@, l@, r@),
    ;

    fn wrap_paren(&self, v: Self::Value) -> (r: Self::Value)
        ensures
            r@ == self.wrap_paren_spec(v@),
    ;
}

/// One precedence-climbing step: a prefix operator or a bare operand
/// (parentheses recurse at threshold zero), then the operator loop.
/// On success the position of the first unconsumed token is returned
/// beside the value.
pub open spec fn sp_parse<T: OpTable>(
    tbl: T,
    toks: Seq<TokenView>,
    pos: int,
    min_bp: u32,
    depth: nat,
) -> Result<(<T::Value as View>::V, int), EngineError<<T::BuildError as View>::V>>
    decreases toks.len() - pos, 2int,
{
    if depth == 0 {
        Err(EngineError::TooDeep)
    } else if pos < 0 || pos >= toks.len() {
        Err(EngineError::Syntax)
    } else {
        let t = toks[pos];
        match tbl.prefix_power_spec(t) {
            Some(p) => match sp_parse(tbl, toks, pos + 1, p, (depth - 1) as nat) {
                Ok(step) => match tbl.apply_prefix_spec(t, step.0) {
                    Ok(v2) => if pos < step.1 <= toks.len() {
                        sp_loop(tbl, toks, step.1, min_bp, v2, depth)
                    } else {
                        Err(EngineError::Syntax)
                    },
                    Err(b) => Err(EngineError::Build(b)),
                },
                Err(e) => Err(e),
            },
            None => if t is LParen {
                match sp_parse(tbl, toks, pos + 1, 0, (depth - 1) as nat) {
                    Ok(step) => if pos < step.1 < toks.len() && toks[step.1] is RParen {
                        sp_loop(tbl, toks, step.1 + 1, min_bp, tbl.wrap_paren_spec(step.0), depth)
                    } else {
                        Err(EngineError::Syntax)
                    },
                    Err(e) => Err(e),
                }
            } else {
                match tbl.operand_spec(t) {
                    None => Err(EngineError::Syntax),
                    Some(Err(b)) => Err(EngineError::Build(b)),
                    Some(Ok(v)) => sp_loop(tbl, toks, pos + 1, min_bp, v, depth),
                }
            },
        }
    }
}

/// The operator loop: apply postfix operators binding at least as
/// tightly as the threshold, else combine with such an infix operator
/// and a recursively parsed right-hand side, else stop.
pub open spec fn sp_loop<T: OpTable>(
    tbl: T,
    toks: Seq<TokenView>,
    pos: int,
    min_bp: u32,
    acc: <T::Value as View>::V,
    depth: nat,
) -> Result<(<T::Value as View>::V, int), EngineError<<T::BuildError as View>::V>>
    decreases toks.len() - pos, 1int,
{
    if pos < 0 {
        Err(EngineError::Syntax)
    } else if pos >= toks.len() {
        Ok((acc, pos))
    } else {
        let t = toks[pos];
        match tbl.postfix_power_spec(t) {
            Some(p) => if p >= min_bp {
                match tbl.apply_postfix_spec(t, acc) {
                    Ok(v) => sp_loop(tbl, toks, pos + 1, min_bp, v, depth),
                    Err(b) => Err(EngineError::Build(b)),
                }
            } else {
                sp_loop_infix(tbl, toks, pos, min_bp, acc, depth)
            },
            None => sp_loop_infix(tbl, toks, pos, min_bp, acc, depth),
        }
    }
}

/// The infix half of the operator loop.
pub open spec fn sp_loop_infix<T: OpTable>(
    tbl: T,
    toks: Seq<TokenView>,
    pos: int,
    min_bp: u32,
    acc: <T::Value as View>::V,
    depth: nat,
) -> Result<(<T::Value as View>::V, int), EngineError<<T::BuildError as View>::V>>
    decreases toks.len() - pos, 0int,
{
    if pos < 0 || pos >= toks.len() {
        Ok((acc, pos))
    } else {
        let t = toks[pos];
        match tbl.infix_power_spec(t) {
            Some(powers) => if powers.0 >= min_bp {
                if depth == 0 {
                    Err(EngineError::TooDeep)
                } else {
                    match sp_parse(tbl, toks, pos + 1, powers.1, (depth - 1) as nat) {
                        Ok(step) => match tbl.apply_infix_spec(t, acc, step.0) {
                            Ok(v) => if pos < step.1 <= toks.len() {
                                sp_loop(tbl, toks, step.1, min_bp, v, depth)
                            } else {
                                Err(EngineError::Syntax)
                            },
                            Err(b) => Err(EngineError::Build(b)),
                        },
                        Err(e) => Err(e),
                    }
                }
            } else {
                Ok((acc, pos))
            },
            None => Ok((acc, pos)),
        }
    }
}

/// The whole-input engine: one climb from the threshold, requiring every
/// token to be consumed.
pub open spec fn sp_precedence_parse<T: OpTable>(
    tbl: T,
    toks: Seq<TokenView>,
    min_power: u32,
) -> Result<<T::Value as View>::V, EngineError<<T::BuildError as View>::V>> {
    match sp_parse(tbl, toks, 0, min_power, MAX_DEPTH as nat) {
        Ok(step) => if step.1 == toks.len() {
            Ok(step.0)
        } else {
            Err(EngineError::Syntax)
        },
        Err(e) => Err(e),
    }
}

pub(crate) proof fn lemma_sp_loop_postfix_ok<T: OpTable>(
    tbl: T,
    toks: Seq<TokenView>,
    pos: int,
    min_bp: u32,
    acc: <T::Value as View>::V,
    depth: nat,
    p: u32,
    v: <T::Value as View>::V,
)
    requires
        0 <= pos < toks.len(),
        tbl.postfix_power_spec(toks[pos]) == Some(p),
        p >= min_bp,
        tbl.apply_postfix_spec(toks[pos], acc) == Ok::<
            <T::Value as View>::V,
            <T::BuildError as View>::V,
        >(v),
    ensures
        sp_loop(tbl, toks, pos, min_bp, acc, depth) == sp_loop(
            tbl,
            toks,
            pos + 1,
            min_bp,
            v,
            depth,
        ),
{
}

pub(crate) proof fn lemma_sp_loop_postfix_err<T: OpTable>(
    tbl: T,
    toks: Seq<TokenView>,
    pos: int,
    min_bp: u32,
    acc: <T::Value as View>::V,
    depth: nat,
    p: u32,
    b: <T::BuildError as View>::V,
)
    requires
        0 <= pos < toks.len(),
        tbl.postfix_power_spec(toks[pos]) == Some(p),
        p >= min_bp,
        tbl.apply_postfix_spec(toks[pos], acc) == Err::<
            <T::Value as View>::V,
            <T::BuildError as View>::V,
        >(b),
    ensures
        sp_loop(tbl, toks, pos, min_bp, acc, depth) == Err::<
            (<T::Value as View>::V, int),
            EngineError<<T::BuildError as View>::V>,
        >(EngineError::Build(b)),
{
}

pub(crate) proof fn lemma_sp_loop_no_postfix<T: OpTable>(
    tbl: T,
    toks: Seq<TokenView>,
    pos: int,
    min_bp: u32,
    acc: <T::Value as View>::V,
    depth: nat,
)
    requires
        0 <= pos < toks.len(),
        match tbl.postfix_power_spec(toks[pos]) {
            Some(p) => p < min_bp,
            None => true,
        },
    ensures
        sp_loop(tbl, toks, pos, min_bp, acc, depth) == sp_loop_infix(
            tbl,
            toks,
            pos,
            min_bp,
            acc,
            depth,
        ),
{
}

pub(crate) proof fn lemma_sp_loop_infix_stop<T: OpTable>(
    tbl: T,
    toks: Seq<TokenView>,
    pos: int,
    min_bp: u32,
    acc: <T::Value as View>::V,
    depth: nat,
)
    requires
        0 <= pos < toks.len(),
        match tbl.infix_power_spec(toks[pos]) {
            Some(powers) => powers.0 < min_bp,
            None => true,
        },
    ensures
        sp_loop_infix(tbl, toks, pos, min_bp, acc, depth) == Ok::<
            (<T::Value as View>::V, int),
            EngineError<<T::BuildError as View>::V>,
        >((acc, pos)),
{
}

pub(crate) proof fn lemma_sp_loop_infix_go<T: OpTable>(
    tbl: T,
    toks: Seq<TokenView>,
    pos: int,
    min_bp: u32,
    acc: <T::Value as View>::V,
    depth: nat,
    powers: (u32, u32),
)
    requires
        0 <= pos < toks.len(),
        tbl.infix_power_spec(toks[pos]) == Some(powers),
        powers.0 >= min_bp,
        depth >= 1,
    ensures
        sp_loop_infix(tbl, toks, pos, min_bp, acc, depth) == (match sp_parse(
            tbl,
            toks,
            pos + 1,
            powers.1,
            (depth - 1) as nat,
        ) {
            Ok(step) => match tbl.apply_infix_spec(toks[pos], acc, step.0) {
                Ok(v) => if pos < step.1 <= toks.len() {
                    sp_loop(tbl, toks, step.1, min_bp, v, depth)
                } else {
                    Err(EngineError::Syntax)
                },
                Err(b) => Err(EngineError::Build(b)),
            },
            Err(e) => Err(e),
        }),
{
}

pub(crate) proof fn lemma_sp_loop_end<T: OpTable>(
    tbl: T,
    toks: Seq<TokenView>,
    pos: int,
    min_bp: u32,
    acc: <T::Value as View>::V,
    depth: nat,
)
    requires
        pos >= toks.len(),
        pos >= 0,
    ensures
        sp_loop(tbl, toks, pos, min_bp, acc, depth) == Ok::<
            (<T::Value as View>::V, int),
            EngineError<<T::BuildError as View>::V>,
        >((acc, pos)),
{
}


pub(crate) proof fn lemma_sp_parse_too_deep<T: OpTable>(
    tbl: T,
    toks: Seq<TokenView>,
    pos: int,
    min_bp: u32,
    depth: nat,
)
    requires
        depth == 0,
    ensures
        sp_parse(tbl, toks, pos, min_bp, depth) == Err::<
            (<T::Value as View>::V, int),
            EngineError<<T::BuildError as View>::V>,
        >(EngineError::TooDeep),
{
}

pub(crate) proof fn lemma_sp_parse_no_token<T: OpTable>(
    tbl: T,
    toks: Seq<TokenView>,
    pos: int,
    min_bp: u32,
    depth: nat,
)
    requires
        depth >= 1,
        pos < 0 || pos >= toks.len(),
    ensures
        sp_parse(tbl, toks, pos, min_bp, depth) == Err::<
            (<T::Value as View>::V, int),
            EngineError<<T::BuildError as View>::V>,
        >(EngineError::Syntax),
{
}

pub(crate) proof fn lemma_sp_parse_operand<T: OpTable>(
    tbl: T,
    toks: Seq<TokenView>,
    pos: int,
    min_bp: u32,
    depth: nat,
)
    requires
        depth >= 1,
        0 <= pos < toks.len(),
        tbl.prefix_power_spec(toks[pos]) is None,
        !(toks[pos] is LParen),
    ensures
        sp_parse(tbl, toks, pos, min_bp, depth) == (match tbl.operand_spec(toks[pos]) {
            None => Err::<
                (<T::Value as View>::V, int),
                EngineError<<T::BuildError as View>::V>,
            >(EngineError::Syntax),
            Some(Err(b)) => Err(EngineError::Build(b)),
            Some(Ok(v)) => sp_loop(tbl, toks, pos + 1, min_bp, v, depth),
        }),
{
}

/// One precedence-climbing step over the token vector; see [`sp_parse`].
fn parse_at<T: OpTable>(tbl: &T, toks: &Vec<Token>, pos: usize, min_bp: u32, depth: u32) -> (r:
    Result<(T::Value, usize), EngineError<T::BuildError>>)
    requires
        pos <= toks@.len(),
    ensures
        ({
            let sp = sp_parse(*tbl, toks_view(toks@), pos as int, min_bp, depth as nat);
            match r {
                Ok(step) => sp == Ok::<
                    (<T::Value as View>::V, int),
                    EngineError<<T::BuildError as View>::V>,
                >((step.0@, step.1 as int)) && pos < step.1 <= toks@.len(),
                Err(e) => sp == Err::<
                    (<T::Value as View>::V, int),
                    EngineError<<T::BuildError as View>::V>,
                >(err_view(e)),
            }
        }),
    decreases toks@.len() - pos,
{
    let ghost tv = toks_view(toks@);
    if depth == 0 {
        return Err(EngineError::TooDeep);
    }
    if pos >= toks.len() {
        return Err(EngineError::Syntax);
    }
    let t = &toks[pos];
    proof {
        assert(tv[pos as int] == t@);
    }
    let mut acc: T::Value;
    let mut cur: usize;
    match tbl.prefix_power(t) {
        Some(p) => {
            match parse_at(tbl, toks, pos + 1, p, depth - 1) {
                Ok(step) => match tbl.apply_prefix(t, step.0) {
                    Ok(v2) => {
                        acc = v2;
                        cur = step.1;
                    },
                    Err(b) => {
                        return Err(EngineError::Build(b));
                    },
                },
                Err(e) => {
                    return Err(e);
                },
            }
        },
        None => {
            let is_paren = matches!(t, Token::LParen);
            if is_paren {
                match parse_at(tbl, toks, pos + 1, 0, depth - 1) {
                    Ok(step) => {
                        if step.1 < toks.len() && matches!(&toks[step.1], Token::RParen) {
                            proof {
                                assert(tv[step.1 as int] == toks@[step.1 as int]@);
                            }
                            acc = tbl.wrap_paren(step.0);
                            cur = step.1 + 1;
                        } else {
                            return Err(EngineError::Syntax);
                        }
                    },
                    Err(e) => {
                        return Err(e);
                    },
                }
            } else {
                match tbl.operand(t) {
                    None => {
                        return Err(EngineError::Syntax);
                    },
                    Some(Err(b)) => {
                        return Err(EngineError::Build(b));
                    },
                    Some(Ok(v)) => {
                        acc = v;
                        cur = pos + 1;
                    },
                }
            }
        },
    }
    // The operator loop of sp_loop, run iteratively.
    while cur < toks.len()
        invariant
            pos < cur <= toks@.len(),
            depth >= 1,
            tv == toks_view(toks@),
            sp_parse(*tbl, tv, pos as int, min_bp, depth as nat) == sp_loop(
                *tbl,
                tv,
                cur as int,
                min_bp,
                acc@,
                depth as nat,
            ),
        decreases toks@.len() - cur,
    {
        let ghost cur0 = cur as int;
        let ghost acc0 = acc@;
        let t2 = &toks[cur];
        proof {
            assert(tv[cur0] == t2@);
        }
        let post = tbl.postfix_power(t2);
        let mut did_postfix = false;
        if let Some(p) = post {
            if p >= min_bp {
                did_postfix = true;
                match tbl.apply_postfix(t2, acc) {
                    Ok(v) => {
                        proof {
                            lemma_sp_loop_postfix_ok(
                                *tbl,
                                tv,
                                cur0,
                                min_bp,
                                acc0,
                                depth as nat,
                                p,
                                v@,
                            );
                        }
                        acc = v;
                        cur = cur + 1;
                    },
                    Err(b) => {
                        proof {
                            lemma_sp_loop_postfix_err(
                                *tbl,
                                tv,
                                cur0,
                                min_bp,
                                acc0,
                                depth as nat,
                                p,
                                b@,
                            );
                        }
                        return Err(EngineError::Build(b));
                    },
                }
            }
        }
        if !did_postfix {
            proof {
                lemma_sp_loop_no_postfix(*tbl, tv, cur0, min_bp, acc0, depth as nat);
            }
            let inf = tbl.infix_power(t2);
            let mut rp: u32 = 0;
            let mut applies = false;
            if let Some(powers) = inf {
                if powers.0 >= min_bp {
                    applies = true;
                    rp = powers.1;
                }
            }
            if !applies {
                proof {
                    lemma_sp_loop_infix_stop(*tbl, tv, cur0, min_bp, acc0, depth as nat);
                }
                return Ok((acc, cur));
            }
            let ghost powers0 = (tbl.infix_power_spec(tv[cur0]))->Some_0;
            proof {
                lemma_sp_loop_infix_go(*tbl, tv, cur0, min_bp, acc0, depth as nat, powers0);
            }
            match parse_at(tbl, toks, cur + 1, rp, depth - 1) {
                Ok(step) => {
                    match tbl.apply_infix(t2, acc, step.0) {
                        Ok(v) => {
                            proof {
                                assert(sp_loop_infix(*tbl, tv, cur0, min_bp, acc0, depth as nat)
                                    == sp_loop(*tbl, tv, step.1 as int, min_bp, v@, depth as nat));
                            }
                            acc = v;
                            cur = step.1;
                        },
                        Err(b) => {
                            proof {
                                assert(sp_loop_infix(*tbl, tv, cur0, min_bp, acc0, depth as nat)
                                    == Err::<
                                    (<T::Value as View>::V, int),
                                    EngineError<<T::BuildError as View>::V>,
                                >(EngineError::Build(b@)));
                            }
                            return Err(EngineError::Build(b));
                        },
                    }
                },
                Err(e) => {
                    proof {
                        assert(sp_loop_infix(*tbl, tv, cur0, min_bp, acc0, depth as nat) == Err::<
                            (<T::Value as View>::V, int),
                            EngineError<<T::BuildError as View>::V>,
                        >(err_view(e)));
                    }
                    return Err(e);
                },
            }
        }
    }
    proof {
        lemma_sp_loop_end(*tbl, tv, cur as int, min_bp, acc@, depth as nat);
    }
    Ok((acc, cur))
}

/// Parses the whole token stream by precedence climbing, starting at
/// `min_power`, against the operand and operator tables of `tbl`. Every
/// token must be consumed. The result's view is exactly
/// [`sp_precedence_parse`] of the tokens.
pub fn precedence_parse<T: OpTable>(tbl: &T, toks: &Vec<Token>, min_power: u32) -> (r: Result<
    T::Value,
    EngineError<T::BuildError>,
>)
    ensures
        match r {
            Ok(v) => sp_precedence_parse(*tbl, toks_view(toks@), min_power) == Ok::<
                <T::Value as View>::V,
                EngineError<<T::BuildError as View>::V>,
            >(v@),
            Err(e) => sp_precedence_parse(*tbl, toks_view(toks@), min_power) == Err::<
                <T::Value as View>::V,
                EngineError<<T::BuildError as View>::V>,
            >(err_view(e)),
        },
{
    match parse_at(tbl, toks, 0, min_power, MAX_DEPTH) {
        Ok(step) => {
            if step.1 == toks.len() {
                Ok(step.0)
            } else {
                Err(EngineError::Syntax)
            }
        },
        Err(e) => Err(e),
    }
}

} // verus!
