//! The iterative twin of the precedence-climbing engine.
//!
//! [`shunting_yard_parse`] implements exactly the contract of
//! [`crate::engine::precedence_parse`], but with explicit operand and
//! operator stacks instead of native recursion: pending prefix operators,
//! open parentheses, and infix operators waiting for their right-hand
//! side live in a heap-allocated frame stack, so call-stack depth stays
//! constant whatever the input. Both entries return
//! [`sp_precedence_parse`] of the tokens, so their results and error
//! behavior agree on every input.

use vstd::prelude::*;
use crate::engine::{
    err_view, sp_loop, sp_parse, sp_precedence_parse, EngineError, OpTable, MAX_DEPTH,
};
use crate::lex::{Token, TokenView, toks_view};

verus! {

/// A pending operator of the yard: a prefix operator, an open
/// parenthesis, or an infix operator holding its finished left operand.
/// Each remembers the operator's token position and the binding-power
/// threshold to resume at.
enum SyFrame<V> {
    Prefix { at: usize, min_bp: u32 },
    Paren { at: usize, min_bp: u32 },
    Infix { at: usize, min_bp: u32, left: V },
}

/// The specification-level image of a frame.
enum SyFrameView<VV> {
    Prefix { at: int, min_bp: u32 },
    Paren { at: int, min_bp: u32 },
    Infix { at: int, min_bp: u32, left: VV },
}

spec fn frame_view<V: View>(f: SyFrame<V>) -> SyFrameView<V::V> {
    match f {
        SyFrame::Prefix { at, min_bp } => SyFrameView::Prefix { at: at as int, min_bp },
        SyFrame::Paren { at, min_bp } => SyFrameView::Paren { at: at as int, min_bp },
        SyFrame::Infix { at, min_bp, left } => SyFrameView::Infix {
            at: at as int,
            min_bp,
            left: left@,
        },
    }
}

spec fn frames_view<V: View>(fs: Seq<SyFrame<V>>) -> Seq<SyFrameView<V::V>> {
    fs.map_values(|f: SyFrame<V>| frame_view(f))
}

/// The operator token position a frame remembers.
spec fn frame_at<VV>(f: SyFrameView<VV>) -> int {
    match f {
        SyFrameView::Prefix { at, .. } => at,
        SyFrameView::Paren { at, .. } => at,
        SyFrameView::Infix { at, .. } => at,
    }
}

/// The depth budget of the climb running above `k` pending frames.
spec fn depth_of(k: int) -> nat {
    (MAX_DEPTH - k) as nat
}

/// What the rest of the parse returns once the innermost climb has
/// produced `step`: each pending frame consumes the value exactly as the
/// recursive engine would on return from its recursion, and continues
/// with the operator loop at the frame's threshold.
spec fn unwind<T: OpTable>(
    tbl: T,
    toks: Seq<TokenView>,
    frames: Seq<SyFrameView<<T::Value as View>::V>>,
    step: Result<(<T::Value as View>::V, int), EngineError<<T::BuildError as View>::V>>,
) -> Result<(<T::Value as View>::V, int), EngineError<<T::BuildError as View>::V>>
    decreases frames.len(),
{
    match step {
        Err(e) => Err(e),
        Ok(sv) => {
            if frames.len() == 0 {
                Ok(sv)
            } else {
                let rest = frames.drop_last();
                let d = depth_of(rest.len() as int);
                match frames.last() {
                    SyFrameView::Prefix { at, min_bp } => match tbl.apply_prefix_spec(
                        toks[at],
                        sv.0,
                    ) {
                        Ok(v2) => if at < sv.1 <= toks.len() {
                            unwind(tbl, toks, rest, sp_loop(tbl, toks, sv.1, min_bp, v2, d))
                        } else {
                            Err(EngineError::Syntax)
                        },
                        Err(b) => Err(EngineError::Build(b)),
                    },
                    SyFrameView::Paren { at, min_bp } => if at < sv.1 < toks.len() && toks[sv.1]
                        is RParen {
                        unwind(
                            tbl,
                            toks,
                            rest,
                            sp_loop(tbl, toks, sv.1 + 1, min_bp, tbl.wrap_paren_spec(sv.0), d),
                        )
                    } else {
                        Err(EngineError::Syntax)
                    },
                    SyFrameView::Infix { at, min_bp, left } => match tbl.apply_infix_spec(
                        toks[at],
                        left,
                        sv.0,
                    ) {
                        Ok(v2) => if at < sv.1 <= toks.len() {
                            unwind(tbl, toks, rest, sp_loop(tbl, toks, sv.1, min_bp, v2, d))
                        } else {
                            Err(EngineError::Syntax)
                        },
                        Err(b) => Err(EngineError::Build(b)),
                    },
                }
            }
        },
    }
}

/// An error propagates through every pending frame unchanged.
proof fn lemma_unwind_err<T: OpTable>(
    tbl: T,
    toks: Seq<TokenView>,
    frames: Seq<SyFrameView<<T::Value as View>::V>>,
    e: EngineError<<T::BuildError as View>::V>,
)
    ensures
        unwind(
            tbl,
            toks,
            frames,
            Err::<(<T::Value as View>::V, int), EngineError<<T::BuildError as View>::V>>(e),
        ) == Err::<(<T::Value as View>::V, int), EngineError<<T::BuildError as View>::V>>(e),
{
}

/// Entering a prefix operator pushes one frame: the whole parse is
/// unchanged when the climb at the operator's own power continues inside.
proof fn lemma_push_prefix<T: OpTable>(
    tbl: T,
    toks: Seq<TokenView>,
    frames: Seq<SyFrameView<<T::Value as View>::V>>,
    at: int,
    outer_bp: u32,
    p: u32,
)
    requires
        frames.len() < MAX_DEPTH,
        0 <= at < toks.len(),
        tbl.prefix_power_spec(toks[at]) == Some(p),
    ensures
        unwind(tbl, toks, frames, sp_parse(tbl, toks, at, outer_bp, depth_of(frames.len() as int)))
            == unwind(
            tbl,
            toks,
            frames.push(SyFrameView::Prefix { at, min_bp: outer_bp }),
            sp_parse(tbl, toks, at + 1, p, depth_of(frames.len() as int + 1)),
        ),
{
    let d = depth_of(frames.len() as int);
    let fr = frames.push(SyFrameView::Prefix { at, min_bp: outer_bp });
    assert(fr.drop_last() =~= frames);
    assert(d >= 1);
    assert((d - 1) as nat == depth_of(frames.len() as int + 1));
    let step = sp_parse(tbl, toks, at + 1, p, (d - 1) as nat);
    match step {
        Err(_) => {},
        Ok(sv) => {
            match tbl.apply_prefix_spec(toks[at], sv.0) {
                Ok(v2) => {},
                Err(_) => {},
            }
        },
    }
}

/// Entering a parenthesis pushes one frame.
proof fn lemma_push_paren<T: OpTable>(
    tbl: T,
    toks: Seq<TokenView>,
    frames: Seq<SyFrameView<<T::Value as View>::V>>,
    at: int,
    outer_bp: u32,
)
    requires
        frames.len() < MAX_DEPTH,
        0 <= at < toks.len(),
        tbl.prefix_power_spec(toks[at]) is None,
        toks[at] is LParen,
    ensures
        unwind(tbl, toks, frames, sp_parse(tbl, toks, at, outer_bp, depth_of(frames.len() as int)))
            == unwind(
            tbl,
            toks,
            frames.push(SyFrameView::Paren { at, min_bp: outer_bp }),
            sp_parse(tbl, toks, at + 1, 0u32, depth_of(frames.len() as int + 1)),
        ),
{
    let d = depth_of(frames.len() as int);
    let fr = frames.push(SyFrameView::Paren { at, min_bp: outer_bp });
    assert(fr.drop_last() =~= frames);
    assert(d >= 1);
    assert((d - 1) as nat == depth_of(frames.len() as int + 1));
    let step = sp_parse(tbl, toks, at + 1, 0u32, (d - 1) as nat);
    match step {
        Err(_) => {},
        Ok(sv) => {},
    }
}

/// Stopping the loop at an infix operator pushes one frame for the
/// right-hand side.
proof fn lemma_push_infix<T: OpTable>(
    tbl: T,
    toks: Seq<TokenView>,
    frames: Seq<SyFrameView<<T::Value as View>::V>>,
    at: int,
    outer_bp: u32,
    acc: <T::Value as View>::V,
    powers: (u32, u32),
)
    requires
        frames.len() < MAX_DEPTH,
        0 <= at < toks.len(),
        match tbl.postfix_power_spec(toks[at]) {
            Some(p) => p < outer_bp,
            None => true,
        },
        tbl.infix_power_spec(toks[at]) == Some(powers),
        powers.0 >= outer_bp,
    ensures
        unwind(
            tbl,
            toks,
            frames,
            sp_loop(tbl, toks, at, outer_bp, acc, depth_of(frames.len() as int)),
        ) == unwind(
            tbl,
            toks,
            frames.push(SyFrameView::Infix { at, min_bp: outer_bp, left: acc }),
            sp_parse(tbl, toks, at + 1, powers.1, depth_of(frames.len() as int + 1)),
        ),
{
    let d = depth_of(frames.len() as int);
    let fr = frames.push(SyFrameView::Infix { at, min_bp: outer_bp, left: acc });
    assert(fr.drop_last() =~= frames);
    assert(d >= 1);
    assert((d - 1) as nat == depth_of(frames.len() as int + 1));
    crate::engine::lemma_sp_loop_no_postfix(tbl, toks, at, outer_bp, acc, d);
    crate::engine::lemma_sp_loop_infix_go(tbl, toks, at, outer_bp, acc, d, powers);
    let step = sp_parse(tbl, toks, at + 1, powers.1, (d - 1) as nat);
    match step {
        Err(_) => {},
        Ok(sv) => {
            match tbl.apply_infix_spec(toks[at], acc, sv.0) {
                Ok(v2) => {},
                Err(_) => {},
            }
        },
    }
}

/// One frame consumes a finished value: the definitional unfolding of
/// [`unwind`] at a non-empty stack.
proof fn lemma_unwind_step<T: OpTable>(
    tbl: T,
    toks: Seq<TokenView>,
    frames: Seq<SyFrameView<<T::Value as View>::V>>,
    v: <T::Value as View>::V,
    pos: int,
)
    requires
        frames.len() > 0,
    ensures
        unwind(
            tbl,
            toks,
            frames,
            Ok::<(<T::Value as View>::V, int), EngineError<<T::BuildError as View>::V>>((v, pos)),
        ) == ({
            let rest = frames.drop_last();
            let d = depth_of(rest.len() as int);
            match frames.last() {
                SyFrameView::Prefix { at, min_bp } => match tbl.apply_prefix_spec(toks[at], v) {
                    Ok(v2) => if at < pos <= toks.len() {
                        unwind(tbl, toks, rest, sp_loop(tbl, toks, pos, min_bp, v2, d))
                    } else {
                        Err(EngineError::Syntax)
                    },
                    Err(b) => Err(EngineError::Build(b)),
                },
                SyFrameView::Paren { at, min_bp } => if at < pos < toks.len() && toks[pos]
                    is RParen {
                    unwind(
                        tbl,
                        toks,
                        rest,
                        sp_loop(tbl, toks, pos + 1, min_bp, tbl.wrap_paren_spec(v), d),
                    )
                } else {
                    Err(EngineError::Syntax)
                },
                SyFrameView::Infix { at, min_bp, left } => match tbl.apply_infix_spec(
                    toks[at],
                    left,
                    v,
                ) {
                    Ok(v2) => if at < pos <= toks.len() {
                        unwind(tbl, toks, rest, sp_loop(tbl, toks, pos, min_bp, v2, d))
                    } else {
                        Err(EngineError::Syntax)
                    },
                    Err(b) => Err(EngineError::Build(b)),
                },
            }
        }),
{
}

/// What one pop of the yard decided.
enum PopStep<V, E> {
    /// No frame was pending: the climb is finished with this value.
    Done(V),
    /// A frame consumed the value; resume the operator loop with this
    /// accumulator, threshold, and position.
    Resume(V, u32, usize),
    /// The pending frame rejected the value.
    Fail(E),
}

/// Hands a finished value to the innermost pending frame.
fn yard_pop<T: OpTable>(
    tbl: &T,
    toks: &Vec<Token>,
    frames: &mut Vec<SyFrame<T::Value>>,
    acc: T::Value,
    cur: usize,
) -> (r: PopStep<T::Value, EngineError<T::BuildError>>)
    requires
        cur <= toks@.len(),
        forall|i: int|
            0 <= i < old(frames)@.len() ==> frame_at(
                #[trigger] frames_view(old(frames)@)[i],
            ) < cur as int,
    ensures
        ({
            let before = frames_view(old(frames)@);
            let entry = Ok::<
                (<T::Value as View>::V, int),
                EngineError<<T::BuildError as View>::V>,
            >((acc@, cur as int));
            match r {
                PopStep::Done(v) => old(frames)@.len() == 0 && final(frames)@ == old(frames)@ && v
                    == acc,
                PopStep::Resume(v2, bp2, cur2) => {
                    &&& old(frames)@.len() > 0
                    &&& final(frames)@ == old(frames)@.drop_last()
                    &&& cur as int <= cur2 as int <= toks@.len()
                    &&& unwind(*tbl, toks_view(toks@), before, entry) == unwind(
                        *tbl,
                        toks_view(toks@),
                        frames_view(final(frames)@),
                        sp_loop(
                            *tbl,
                            toks_view(toks@),
                            cur2 as int,
                            bp2,
                            v2@,
                            depth_of(final(frames)@.len() as int),
                        ),
                    )
                },
                PopStep::Fail(e) => old(frames)@.len() > 0 && final(frames)@ == old(
                    frames,
                )@.drop_last() && unwind(*tbl, toks_view(toks@), before, entry) == Err::<
                    (<T::Value as View>::V, int),
                    EngineError<<T::BuildError as View>::V>,
                >(err_view(e)),
            }
        }),
{
    let ghost tv = toks_view(toks@);
    let ghost before = frames_view(old(frames)@);
    let popped = frames.pop();
    proof {
        if old(frames)@.len() > 0 {
            assert(frames_view(frames@) =~= before.drop_last());
            assert(frame_view(old(frames)@.last()) == before.last());
            lemma_unwind_step(*tbl, tv, before, acc@, cur as int);
        }
    }
    match popped {
        None => PopStep::Done(acc),
        Some(SyFrame::Prefix { at, min_bp }) => {
            let tf = &toks[at];
            proof {
                assert(tv[at as int] == tf@);
            }
            match tbl.apply_prefix(tf, acc) {
                Ok(v2) => PopStep::Resume(v2, min_bp, cur),
                Err(b) => PopStep::Fail(EngineError::Build(b)),
            }
        },
        Some(SyFrame::Paren { at, min_bp }) => {
            let mut closes = false;
            if cur < toks.len() {
                if matches!(&toks[cur], Token::RParen) {
                    closes = true;
                }
            }
            proof {
                if cur < toks@.len() {
                    assert(tv[cur as int] == toks@[cur as int]@);
                }
            }
            if closes {
                PopStep::Resume(tbl.wrap_paren(acc), min_bp, cur + 1)
            } else {
                PopStep::Fail(EngineError::Syntax)
            }
        },
        Some(SyFrame::Infix { at, min_bp, left }) => {
            let tf = &toks[at];
            proof {
                assert(tv[at as int] == tf@);
            }
            match tbl.apply_infix(tf, left, acc) {
                Ok(v2) => PopStep::Resume(v2, min_bp, cur),
                Err(b) => PopStep::Fail(EngineError::Build(b)),
            }
        },
    }
}

/// The yard's machine: one pass over the tokens, the climb's recursion
/// flattened into the frame stack. Returns what one whole-expression
/// climb from the threshold returns.
fn shunting_yard_climb<T: OpTable>(tbl: &T, toks: &Vec<Token>, min_power: u32) -> (r: Result<
    (T::Value, usize),
    EngineError<T::BuildError>,
>)
    ensures
        ({
            let sp = sp_parse(*tbl, toks_view(toks@), 0int, min_power, MAX_DEPTH as nat);
            match r {
                Ok(step) => sp == Ok::<
                    (<T::Value as View>::V, int),
                    EngineError<<T::BuildError as View>::V>,
                >((step.0@, step.1 as int)) && step.1 <= toks@.len(),
                Err(e) => sp == Err::<
                    (<T::Value as View>::V, int),
                    EngineError<<T::BuildError as View>::V>,
                >(err_view(e)),
            }
        }),
{
    let ghost tv = toks_view(toks@);
    let ghost goal = sp_parse(*tbl, tv, 0int, min_power, MAX_DEPTH as nat);
    let mut frames: Vec<SyFrame<T::Value>> = Vec::new();
    let mut cur: usize = 0;
    // `pending` holds the operator-loop accumulator between steps; `None`
    // means the machine is at operand position for threshold `bp`.
    let mut pending: Option<T::Value> = None;
    let mut bp: u32 = min_power;
    proof {
        assert(frames_view(frames@) =~= Seq::<SyFrameView<<T::Value as View>::V>>::empty());
    }
    loop
        invariant
            cur <= toks@.len(),
            tv == toks_view(toks@),
            goal == sp_parse(*tbl, tv, 0int, min_power, MAX_DEPTH as nat),
            frames@.len() <= MAX_DEPTH as int,
            forall|i: int|
                0 <= i < frames@.len() ==> frame_at(#[trigger] frames_view(frames@)[i]) < cur
                    as int,
            match pending {
                None => unwind(
                    *tbl,
                    tv,
                    frames_view(frames@),
                    sp_parse(*tbl, tv, cur as int, bp, depth_of(frames@.len() as int)),
                ) == goal,
                Some(acc) => frames@.len() < MAX_DEPTH as int && unwind(
                    *tbl,
                    tv,
                    frames_view(frames@),
                    sp_loop(*tbl, tv, cur as int, bp, acc@, depth_of(frames@.len() as int)),
                ) == goal,
            },
        decreases toks@.len() - cur, frames@.len() + 1,
    {
        let ghost frames0 = frames_view(frames@);
        let ghost cur0 = cur as int;
        let ghost d0 = depth_of(frames@.len() as int);
        let is_operand_position = matches!(&pending, None);
        if is_operand_position {
            // One sp_parse entry: prefix operator, parenthesis, or operand.
            if frames.len() >= MAX_DEPTH as usize {
                proof {
                    crate::engine::lemma_sp_parse_too_deep(*tbl, tv, cur0, bp, d0);
                    lemma_unwind_err(*tbl, tv, frames0, EngineError::TooDeep);
                }
                return Err(EngineError::TooDeep);
            }
            if cur >= toks.len() {
                proof {
                    crate::engine::lemma_sp_parse_no_token(*tbl, tv, cur0, bp, d0);
                    lemma_unwind_err(*tbl, tv, frames0, EngineError::Syntax);
                }
                return Err(EngineError::Syntax);
            }
            let t = &toks[cur];
            proof {
                assert(tv[cur0] == t@);
            }
            match tbl.prefix_power(t) {
                Some(p) => {
                    proof {
                        lemma_push_prefix(*tbl, tv, frames0, cur0, bp, p);
                    }
                    frames.push(SyFrame::Prefix { at: cur, min_bp: bp });
                    proof {
                        assert(frames_view(frames@) =~= frames0.push(
                            SyFrameView::Prefix { at: cur0, min_bp: bp },
                        ));
                    }
                    cur = cur + 1;
                    bp = p;
                },
                None => {
                    let is_paren = matches!(t, Token::LParen);
                    if is_paren {
                        proof {
                            lemma_push_paren(*tbl, tv, frames0, cur0, bp);
                        }
                        frames.push(SyFrame::Paren { at: cur, min_bp: bp });
                        proof {
                            assert(frames_view(frames@) =~= frames0.push(
                                SyFrameView::Paren { at: cur0, min_bp: bp },
                            ));
                        }
                        cur = cur + 1;
                        bp = 0;
                    } else {
                        proof {
                            crate::engine::lemma_sp_parse_operand(*tbl, tv, cur0, bp, d0);
                        }
                        match tbl.operand(t) {
                            None => {
                                proof {
                                    lemma_unwind_err(*tbl, tv, frames0, EngineError::Syntax);
                                }
                                return Err(EngineError::Syntax);
                            },
                            Some(Err(b)) => {
                                proof {
                                    lemma_unwind_err(*tbl, tv, frames0, EngineError::Build(b@));
                                }
                                return Err(EngineError::Build(b));
                            },
                            Some(Ok(v)) => {
                                pending = Some(v);
                                cur = cur + 1;
                            },
                        }
                    }
                },
            }
        } else {
            // One operator-loop step at threshold `bp`.
            let acc = match pending {
                Some(v) => v,
                None => {
                    proof {
                        assert(false);
                    }
                    return Err(EngineError::Syntax);
                },
            };
            let ghost acc0 = acc@;
            pending = None;
            if cur < toks.len() {
                let t2 = &toks[cur];
                proof {
                    assert(tv[cur0] == t2@);
                }
                let post = tbl.postfix_power(t2);
                let postfix_applies = match post {
                    Some(p) => p >= bp,
                    None => false,
                };
                if postfix_applies {
                    let p = match post {
                        Some(p) => p,
                        None => {
                            proof {
                                assert(false);
                            }
                            0
                        },
                    };
                    match tbl.apply_postfix(t2, acc) {
                        Ok(v) => {
                            proof {
                                crate::engine::lemma_sp_loop_postfix_ok(
                                    *tbl,
                                    tv,
                                    cur0,
                                    bp,
                                    acc0,
                                    d0,
                                    p,
                                    v@,
                                );
                            }
                            pending = Some(v);
                            cur = cur + 1;
                        },
                        Err(b) => {
                            proof {
                                crate::engine::lemma_sp_loop_postfix_err(
                                    *tbl,
                                    tv,
                                    cur0,
                                    bp,
                                    acc0,
                                    d0,
                                    p,
                                    b@,
                                );
                                lemma_unwind_err(*tbl, tv, frames0, EngineError::Build(b@));
                            }
                            return Err(EngineError::Build(b));
                        },
                    }
                } else {
                    let inf = tbl.infix_power(t2);
                    let mut rp: u32 = 0;
                    let mut applies = false;
                    if let Some(powers) = inf {
                        if powers.0 >= bp {
                            applies = true;
                            rp = powers.1;
                        }
                    }
                    if applies {
                        let ghost powers0 = (tbl.infix_power_spec(tv[cur0]))->Some_0;
                        proof {
                            lemma_push_infix(*tbl, tv, frames0, cur0, bp, acc0, powers0);
                        }
                        frames.push(SyFrame::Infix { at: cur, min_bp: bp, left: acc });
                        proof {
                            assert(frames_view(frames@) =~= frames0.push(
                                SyFrameView::Infix { at: cur0, min_bp: bp, left: acc0 },
                            ));
                        }
                        cur = cur + 1;
                        bp = rp;
                    } else {
                        // The operator loop stops here.
                        proof {
                            crate::engine::lemma_sp_loop_no_postfix(*tbl, tv, cur0, bp, acc0, d0);
                            crate::engine::lemma_sp_loop_infix_stop(*tbl, tv, cur0, bp, acc0, d0);
                        }
                        match yard_pop(tbl, toks, &mut frames, acc, cur) {
                            PopStep::Done(v) => {
                                return Ok((v, cur));
                            },
                            PopStep::Resume(v2, bp2, cur2) => {
                                proof {
                                    assert(frames_view(frames@) =~= frames0.drop_last());
                                }
                                pending = Some(v2);
                                bp = bp2;
                                cur = cur2;
                            },
                            PopStep::Fail(e) => {
                                return Err(e);
                            },
                        }
                    }
                }
            } else {
                // End of input: the loop stops; unwind one frame.
                proof {
                    crate::engine::lemma_sp_loop_end(*tbl, tv, cur0, bp, acc0, d0);
                }
                match yard_pop(tbl, toks, &mut frames, acc, cur) {
                    PopStep::Done(v) => {
                        return Ok((v, cur));
                    },
                    PopStep::Resume(v2, bp2, cur2) => {
                        proof {
                            assert(frames_view(frames@) =~= frames0.drop_last());
                        }
                        pending = Some(v2);
                        bp = bp2;
                        cur = cur2;
                    },
                    PopStep::Fail(e) => {
                        return Err(e);
                    },
                }
            }
        }
    }
}

/// Parses the whole token stream with explicit operand and operator
/// stacks: the drop-in iterative alternative to
/// [`crate::engine::precedence_parse`], returning exactly the same
/// outcome — [`sp_precedence_parse`] of the tokens — on every input.
pub fn shunting_yard_parse<T: OpTable>(tbl: &T, toks: &Vec<Token>, min_power: u32) -> (r: Result<
    T::Value,
    EngineError<T::BuildError>,
>)
    ensures
        match r {
            Ok(v) => sp_precedence_parse(*tbl, toks_view(toks@), min_power) == Ok::<
                <T::Value as View>::V,
                EngineError<<T::BuildError as View>::V>,
            >(v@),
            Err(e) => sp_precedence_parse(*tbl, toks_view(toks@), min_power) == Err::<
                <T::Value as View>::V,
                EngineError<<T::BuildError as View>::V>,
            >(err_view(e)),
        },
{
    match shunting_yard_climb(tbl, toks, min_power) {
        Ok(step) => {
            if step.1 == toks.len() {
                Ok(step.0)
            } else {
                Err(EngineError::Syntax)
            }
        },
        Err(e) => Err(e),
    }
}

} // verus!
