//! Evaluating an [`Expr`] to a signed 64-bit integer.
//!
//! Evaluation folds the tree bottom-up over an explicit work stack (so the
//! traversal depth is bounded by the stack, not by native recursion), with
//! checked arithmetic and explicit division-by-zero handling. Dice terms
//! draw from a caller-supplied [`RollSource`].

use vstd::prelude::*;
use crate::ast::Expr;
use crate::precedence::{BinOp, Op};

verus! {

/// A supplier of integer draws for dice rolls.
///
/// A deterministic source (such as [`MockCryptoRng`]) declares
/// `obeys_model` and pins every draw down to `model_next` and
/// `model_step`; a live random source promises only that each draw lies
/// in the requested range.
pub trait RollSource: Sized {
    /// Whether the source's draws are pinned by `model_next`/`model_step`.
    spec fn obeys_model(&self) -> bool;

    /// The next draw for the inclusive range `lo..=hi`, for a source that
    /// obeys its model.
    spec fn model_next(&self, lo: int, hi: int) -> int;

    /// The source's state after that draw.
    spec fn model_step(&self, lo: int, hi: int) -> Self;

    /// Draws one integer from the inclusive range `lo..=hi`.
    fn next_in_range(&mut self, lo: i64, hi: i64) -> (r: i64)
        requires
            lo <= hi,
        ensures
            lo <= r <= hi,
            old(self).obeys_model() ==> {
                &&& r as int == old(self).model_next(lo as int, hi as int)
                &&& *final(self) == old(self).model_step(lo as int, hi as int)
                &&& final(self).obeys_model()
            },
    ;
}

/// A deterministic roll source for tests: it cycles through a fixed list
/// of seed values, and maps each onto the requested range. With the
/// default seed of zeros it always rolls the lowest value of the range —
/// for a die, always a 1.
#[derive(Debug, Clone, PartialEq)]
pub struct MockCryptoRng {
    /// The seed values the source cycles through.
    pub data: Vec<u64>,
    /// The position of the next seed value to use.
    pub index: usize,
}

impl MockCryptoRng {
    /// Builds a source that cycles through `seed`.
    pub fn new(seed: &[u64]) -> (r: Self)
        requires
            seed@.len() > 0,
        ensures
            r.data@ == seed@,
            r.index == 0,
            r.obeys_model(),
    {
        Self { data: vstd::slice::slice_to_vec(seed), index: 0 }
    }
}

impl Default for MockCryptoRng {
    /// A source that always rolls the lowest value of the range: a '1' on
    /// any die.
    fn default() -> (r: Self)
        ensures
            r.data@ =~= seq![0u64, 0u64, 0u64, 0u64],
            r.index == 0,
            r.obeys_model(),
    {
        Self { data: vec![0, 0, 0, 0], index: 0 }
    }
}

impl RollSource for MockCryptoRng {
    open spec fn obeys_model(&self) -> bool {
        self.data@.len() > 0 && self.index < self.data@.len()
    }

    open spec fn model_next(&self, lo: int, hi: int) -> int {
        if self.obeys_model() && lo <= hi {
            lo + (self.data@[self.index as int] as int) % (hi - lo + 1)
        } else {
            lo
        }
    }

    open spec fn model_step(&self, lo: int, hi: int) -> Self {
        if self.data@.len() > 0 {
            MockCryptoRng { data: self.data, index: ((self.index + 1) % (self.data@.len() as int)) as usize }
        } else {
            *self
        }
    }

    fn next_in_range(&mut self, lo: i64, hi: i64) -> (r: i64)
    {
        if self.data.len() == 0 {
            return lo;
        }
        if self.index >= self.data.len() {
            self.index = 0;
        }
        let d: u64 = self.data[self.index];
        self.index = (self.index + 1) % self.data.len();
        let span: i128 = (hi as i128) - (lo as i128) + 1;
        let rem: i128 = (d as i128) % span;
        let r: i64 = ((lo as i128) + rem) as i64;
        r
    }
}

/// A live random source backed by the process's thread-local generator.
/// Nothing beyond the range of each draw is promised of it.
pub struct ThreadRandom {
    rng: rand::rngs::ThreadRng,
}

#[verifier::external_type_specification]
#[verifier::external_body]
pub struct ExThreadRng(rand::rngs::ThreadRng);

impl ThreadRandom {
    /// Relies on `rand::rng`: obtains a handle to the thread-local
    /// generator.
    #[verifier::external_body]
    pub(crate) fn new() -> (r: ThreadRandom) {
        ThreadRandom { rng: rand::rng() }
    }

    /// Relies on `rand::Rng::random_range` over `lo..=hi`: it returns a
    /// value of that inclusive range, and panics only when the range is
    /// empty, which the requires rules out.
    #[verifier::external_body]
    fn draw(&mut self, lo: i64, hi: i64) -> (r: i64)
        requires
            lo <= hi,
        ensures
            lo <= r <= hi,
    {
        rand::Rng::random_range(&mut self.rng, lo..=hi)
    }
}

impl Default for ThreadRandom {
    fn default() -> (r: Self)
        ensures
            !r.obeys_model(),
    {
        ThreadRandom::new()
    }
}

impl RollSource for ThreadRandom {
    open spec fn obeys_model(&self) -> bool {
        false
    }

    open spec fn model_next(&self, lo: int, hi: int) -> int {
        lo
    }

    open spec fn model_step(&self, lo: int, hi: int) -> Self {
        *self
    }

    fn next_in_range(&mut self, lo: i64, hi: i64) -> (r: i64) {
        self.draw(lo, hi)
    }
}

/// A typed arithmetic failure from evaluation.
#[derive(Debug, Clone, Copy, PartialEq, Eq)]
pub enum ArithmeticError {
    /// Division by zero; carries the value that was to be divided.
    DivideByZero(i64),
    /// A checked operation left the 64-bit range; carries the operand
    /// values and the operation.
    Overflow { lhs: Option<i64>, op: Op, rhs: Option<i64> },
}

/// Represents what we attempted to divide by zero.
#[derive(Debug, Clone, Copy, PartialEq, Eq)]
pub struct DivideByZeroError(pub i64);

impl DivideByZeroError {
    /// Wraps the numerator whose division failed.
    pub fn new(numerator: i64) -> (r: Self)
        ensures
            r == DivideByZeroError(numerator),
    {
        Self(numerator)
    }
}

/// The sum of `c` draws from `1..=s`, threading the source's model state;
/// zero draws for a non-positive count.
pub open spec fn spec_roll<R: RollSource>(c: int, s: int, src: R) -> (int, R)
    decreases c,
{
    if c <= 0 {
        (0, src)
    } else {
        let d = src.model_next(1, s);
        let rest = spec_roll(c - 1, s, src.model_step(1, s));
        (d + rest.0, rest.1)
    }
}

/// Negation of an evaluated value, with the one non-representable case
/// (negating the most negative 64-bit integer) reported as an overflow.
pub open spec fn spec_neg(v: i64) -> Result<i64, ArithmeticError> {
    if v == i64::MIN {
        Err(ArithmeticError::Overflow { lhs: None, op: Op::Not, rhs: Some(v) })
    } else {
        Ok((-v) as i64)
    }
}

/// One checked binary arithmetic step on evaluated operands: checked
/// addition, subtraction and multiplication report overflow; division
/// reports a zero divisor, reports the one non-representable quotient as
/// an overflow, and otherwise truncates toward zero.
pub open spec fn spec_arith(op: BinOp, l: i64, r: i64) -> Result<i64, ArithmeticError> {
    match op {
        BinOp::Add => match l.checked_add(r) {
            Some(v) => Ok(v),
            None => Err(ArithmeticError::Overflow { lhs: Some(l), op: Op::Add, rhs: Some(r) }),
        },
        BinOp::Sub => match l.checked_sub(r) {
            Some(v) => Ok(v),
            None => Err(ArithmeticError::Overflow { lhs: Some(l), op: Op::Sub, rhs: Some(r) }),
        },
        BinOp::Mul => match l.checked_mul(r) {
            Some(v) => Ok(v),
            None => Err(ArithmeticError::Overflow { lhs: Some(l), op: Op::Mul, rhs: Some(r) }),
        },
        BinOp::Div => if r == 0 {
            Err(ArithmeticError::DivideByZero(l))
        } else {
            match l.checked_div(r) {
                Some(v) => Ok(v),
                None => Err(ArithmeticError::Overflow { lhs: Some(l), op: Op::Div, rhs: Some(r) }),
            }
        },
    }
}

/// The meaning of evaluation: a bottom-up, left-to-right fold of the tree
/// that threads the roll source's model state through the dice draws and
/// stops at the first arithmetic failure. The pair holds the outcome and
/// the source's state when evaluation stopped.
pub open spec fn spec_try_eval<R: RollSource>(e: Expr, src: R) -> (Result<i64, ArithmeticError>, R)
    decreases e.size(), 0int,
{
    match e {
        Expr::Int(x) => (Ok(x as i64), src),
        Expr::Dice(c, s) => {
            let rolled = spec_roll(c as int, s as int, src);
            (Ok(rolled.0 as i64), rolled.1)
        },
        Expr::Not(x) => {
            let rx = spec_try_eval(*x, src);
            match rx.0 {
                Ok(v) => (spec_neg(v), rx.1),
                Err(er) => (Err(er), rx.1),
            }
        },
        Expr::Label(x, _) => spec_try_eval(*x, src),
        Expr::Add(l, r) => spec_try_eval_bin(BinOp::Add, *l, *r, src),
        Expr::Sub(l, r) => spec_try_eval_bin(BinOp::Sub, *l, *r, src),
        Expr::Mul(l, r) => spec_try_eval_bin(BinOp::Mul, *l, *r, src),
        Expr::Div(l, r) => spec_try_eval_bin(BinOp::Div, *l, *r, src),
    }
}

/// One binary node of [`spec_try_eval`]: left child first, then the right
/// child, then the checked operation; the first failure wins.
pub open spec fn spec_try_eval_bin<R: RollSource>(op: BinOp, l: Expr, r: Expr, src: R) -> (Result<i64, ArithmeticError>, R)
    decreases l.size() + r.size(), 1int,
{
    let rl = spec_try_eval(l, src);
    match rl.0 {
        Err(er) => (Err(er), rl.1),
        Ok(vl) => {
            let rr = spec_try_eval(r, rl.1);
            match rr.0 {
                Err(er) => (Err(er), rr.1),
                Ok(vr) => (spec_arith(op, vl, vr), rr.1),
            }
        },
    }
}

/// A pending step of the iterative fold: expand a subtree, or apply an
/// operator to values already computed.
enum WorkItem<'a> {
    Expand(&'a Expr),
    Neg,
    Bin(BinOp),
}

/// The specification-level image of a [`WorkItem`], owning its subtree.
enum Work {
    Expand(Expr),
    Neg,
    Bin(BinOp),
}

spec fn view_item<'a>(it: WorkItem<'a>) -> Work {
    match it {
        WorkItem::Expand(e) => Work::Expand(*e),
        WorkItem::Neg => Work::Neg,
        WorkItem::Bin(op) => Work::Bin(op),
    }
}

spec fn view_work<'a>(w: Seq<WorkItem<'a>>) -> Seq<Work> {
    w.map_values(|it: WorkItem<'a>| view_item(it))
}

spec fn item_measure(it: Work) -> nat {
    match it {
        Work::Expand(e) => 2 * e.size(),
        Work::Neg => 1,
        Work::Bin(_) => 1,
    }
}

spec fn work_measure(w: Seq<Work>) -> nat
    decreases w.len(),
{
    if w.len() == 0 {
        0
    } else {
        work_measure(w.drop_last()) + item_measure(w.last())
    }
}

proof fn lemma_work_measure_push(w: Seq<Work>, it: Work)
    ensures
        work_measure(w.push(it)) == work_measure(w) + item_measure(it),
{
    assert(w.push(it).drop_last() =~= w);
    assert(w.push(it).last() == it);
}

/// How many already-computed values an item consumes when processed.
spec fn consumes(it: Work) -> int {
    match it {
        Work::Expand(_) => 0,
        Work::Neg => 1,
        Work::Bin(_) => 2,
    }
}

/// The stack discipline of the fold: processing the work items from the
/// top down, each finds the values it consumes, and exactly one value is
/// left at the end.
spec fn stack_ok(w: Seq<Work>, avail: int) -> bool
    decreases w.len(),
{
    if w.len() == 0 {
        avail == 1
    } else {
        avail >= consumes(w.last()) && stack_ok(w.drop_last(), avail - consumes(w.last()) + 1)
    }
}

/// Every subtree still to be expanded can be rolled.
spec fn work_rollable(w: Seq<Work>) -> bool {
    forall|i: int| 0 <= i < w.len() ==> (#[trigger] w[i] matches Work::Expand(e) ==> e.rollable())
}

/// No subtree still to be expanded holds a dice term.
spec fn work_dice_free(w: Seq<Work>) -> bool {
    forall|i: int| 0 <= i < w.len() ==> (#[trigger] w[i] matches Work::Expand(e) ==> e.dice_free())
}

proof fn lemma_work_dice_free_drop(w: Seq<Work>)
    requires
        w.len() > 0,
        work_dice_free(w),
    ensures
        work_dice_free(w.drop_last()),
{
    assert forall|i: int| 0 <= i < w.drop_last().len() implies
        (#[trigger] w.drop_last()[i] matches Work::Expand(e) ==> e.dice_free()) by {
        assert(w.drop_last()[i] == w[i]);
    }
}

proof fn lemma_work_dice_free_push(w: Seq<Work>, it: Work)
    requires
        work_dice_free(w),
        it matches Work::Expand(e) ==> e.dice_free(),
    ensures
        work_dice_free(w.push(it)),
{
    assert forall|i: int| 0 <= i < w.push(it).len() implies
        (#[trigger] w.push(it)[i] matches Work::Expand(e) ==> e.dice_free()) by {
        if i < w.len() {
            assert(w.push(it)[i] == w[i]);
        } else {
            assert(w.push(it)[i] == it);
        }
    }
}

/// What remains of the fold: process the work stack from the top against
/// the value stack, as the executable loop does.
spec fn eval_work<R: RollSource>(w: Seq<Work>, vals: Seq<i64>, src: R) -> (Result<i64, ArithmeticError>, R)
    decreases work_measure(w),
    via eval_work_decreases::<R>
{
    if w.len() == 0 {
        (if vals.len() == 1 { Ok(vals.last()) } else { Err(ArithmeticError::DivideByZero(0)) }, src)
    } else {
        let rest = w.drop_last();
        match w.last() {
            Work::Expand(e) => match e {
                Expr::Int(x) => eval_work(rest, vals.push(x as i64), src),
                Expr::Dice(c, s) => {
                    let rolled = spec_roll(c as int, s as int, src);
                    eval_work(rest, vals.push(rolled.0 as i64), rolled.1)
                },
                Expr::Not(x) => eval_work(rest.push(Work::Neg).push(Work::Expand(*x)), vals, src),
                Expr::Label(x, _) => eval_work(rest.push(Work::Expand(*x)), vals, src),
                Expr::Add(l, r) => eval_work(
                    rest.push(Work::Bin(BinOp::Add)).push(Work::Expand(*r)).push(Work::Expand(*l)),
                    vals,
                    src,
                ),
                Expr::Sub(l, r) => eval_work(
                    rest.push(Work::Bin(BinOp::Sub)).push(Work::Expand(*r)).push(Work::Expand(*l)),
                    vals,
                    src,
                ),
                Expr::Mul(l, r) => eval_work(
                    rest.push(Work::Bin(BinOp::Mul)).push(Work::Expand(*r)).push(Work::Expand(*l)),
                    vals,
                    src,
                ),
                Expr::Div(l, r) => eval_work(
                    rest.push(Work::Bin(BinOp::Div)).push(Work::Expand(*r)).push(Work::Expand(*l)),
                    vals,
                    src,
                ),
            },
            Work::Neg => if vals.len() >= 1 {
                match spec_neg(vals.last()) {
                    Ok(v) => eval_work(rest, vals.drop_last().push(v), src),
                    Err(er) => (Err(er), src),
                }
            } else {
                (Err(ArithmeticError::DivideByZero(0)), src)
            },
            Work::Bin(op) => if vals.len() >= 2 {
                match spec_arith(op, vals.drop_last().last(), vals.last()) {
                    Ok(v) => eval_work(rest, vals.drop_last().drop_last().push(v), src),
                    Err(er) => (Err(er), src),
                }
            } else {
                (Err(ArithmeticError::DivideByZero(0)), src)
            },
        }
    }
}

#[via_fn]
proof fn eval_work_decreases<R: RollSource>(w: Seq<Work>, vals: Seq<i64>, src: R) {
    if w.len() > 0 {
        let rest = w.drop_last();
        assert(work_measure(w) == work_measure(rest) + item_measure(w.last()));
        match w.last() {
            Work::Expand(e) => match e {
                Expr::Int(_) => {},
                Expr::Dice(_, _) => {},
                Expr::Not(x) => {
                    lemma_work_measure_push(rest, Work::Neg);
                    lemma_work_measure_push(rest.push(Work::Neg), Work::Expand(*x));
                },
                Expr::Label(x, _) => {
                    lemma_work_measure_push(rest, Work::Expand(*x));
                },
                Expr::Add(l, r) => {
                    lemma_work_measure_push(rest, Work::Bin(BinOp::Add));
                    lemma_work_measure_push(rest.push(Work::Bin(BinOp::Add)), Work::Expand(*r));
                    lemma_work_measure_push(rest.push(Work::Bin(BinOp::Add)).push(Work::Expand(*r)), Work::Expand(*l));
                },
                Expr::Sub(l, r) => {
                    lemma_work_measure_push(rest, Work::Bin(BinOp::Sub));
                    lemma_work_measure_push(rest.push(Work::Bin(BinOp::Sub)), Work::Expand(*r));
                    lemma_work_measure_push(rest.push(Work::Bin(BinOp::Sub)).push(Work::Expand(*r)), Work::Expand(*l));
                },
                Expr::Mul(l, r) => {
                    lemma_work_measure_push(rest, Work::Bin(BinOp::Mul));
                    lemma_work_measure_push(rest.push(Work::Bin(BinOp::Mul)), Work::Expand(*r));
                    lemma_work_measure_push(rest.push(Work::Bin(BinOp::Mul)).push(Work::Expand(*r)), Work::Expand(*l));
                },
                Expr::Div(l, r) => {
                    lemma_work_measure_push(rest, Work::Bin(BinOp::Div));
                    lemma_work_measure_push(rest.push(Work::Bin(BinOp::Div)), Work::Expand(*r));
                    lemma_work_measure_push(rest.push(Work::Bin(BinOp::Div)).push(Work::Expand(*r)), Work::Expand(*l));
                },
            },
            Work::Neg => {},
            Work::Bin(_) => {},
        }
    }
}

/// The fold preserved by one expansion: pushing a subtree on the work
/// stack and finishing equals evaluating the subtree first and continuing
/// with its value on the value stack — the heart of the equivalence
/// between the iterative fold and [`spec_try_eval`].
proof fn lemma_eval_work_expand<R: RollSource>(e: Expr, w: Seq<Work>, vals: Seq<i64>, src: R)
    ensures
        ({
            let step = spec_try_eval(e, src);
            eval_work(w.push(Work::Expand(e)), vals, src) == match step.0 {
                Ok(v) => eval_work(w, vals.push(v), step.1),
                Err(er) => (Err::<i64, ArithmeticError>(er), step.1),
            }
        }),
    decreases e.size(), 0int,
{
    assert(w.push(Work::Expand(e)).drop_last() =~= w);
    match e {
        Expr::Int(_) => {},
        Expr::Dice(_, _) => {},
        Expr::Not(x) => {
            let w1 = w.push(Work::Neg);
            lemma_eval_work_expand(*x, w1, vals, src);
            let rx = spec_try_eval(*x, src);
            assert(w.push(Work::Expand(e)).last() == Work::Expand(e));
            assert(eval_work(w.push(Work::Expand(e)), vals, src)
                == eval_work(w.push(Work::Neg).push(Work::Expand(*x)), vals, src));
            match rx.0 {
                Ok(vx) => {
                    assert(w1.push(Work::Expand(*x)).drop_last() =~= w1);
                    assert(w1.drop_last() =~= w);
                    assert(vals.push(vx).len() >= 1);
                    assert(vals.push(vx).last() == vx);
                    assert(vals.push(vx).drop_last() =~= vals);
                },
                Err(_) => {},
            }
        },
        Expr::Label(x, _) => {
            lemma_eval_work_expand(*x, w, vals, src);
        },
        Expr::Add(l, r) => {
            lemma_eval_work_expand_bin(BinOp::Add, *l, *r, w, vals, src);
        },
        Expr::Sub(l, r) => {
            lemma_eval_work_expand_bin(BinOp::Sub, *l, *r, w, vals, src);
        },
        Expr::Mul(l, r) => {
            lemma_eval_work_expand_bin(BinOp::Mul, *l, *r, w, vals, src);
        },
        Expr::Div(l, r) => {
            lemma_eval_work_expand_bin(BinOp::Div, *l, *r, w, vals, src);
        },
    }
}

/// The binary case of [`lemma_eval_work_expand`].
proof fn lemma_eval_work_expand_bin<R: RollSource>(op: BinOp, l: Expr, r: Expr, w: Seq<Work>, vals: Seq<i64>, src: R)
    ensures
        ({
            let step = spec_try_eval_bin(op, l, r, src);
            eval_work(
                w.push(Work::Bin(op)).push(Work::Expand(r)).push(Work::Expand(l)),
                vals,
                src,
            ) == match step.0 {
                Ok(v) => eval_work(w, vals.push(v), step.1),
                Err(er) => (Err::<i64, ArithmeticError>(er), step.1),
            }
        }),
    decreases l.size() + r.size(), 1int,
{
    let wb = w.push(Work::Bin(op));
    let wr = wb.push(Work::Expand(r));
    lemma_eval_work_expand(l, wr, vals, src);
    let rl = spec_try_eval(l, src);
    match rl.0 {
        Err(_) => {},
        Ok(vl) => {
            lemma_eval_work_expand(r, wb, vals.push(vl), rl.1);
            let rr = spec_try_eval(r, rl.1);
            match rr.0 {
                Err(_) => {},
                Ok(vr) => {
                    let vals2 = vals.push(vl).push(vr);
                    assert(wb.push(Work::Expand(r)).drop_last() =~= wb);
                    assert(wb.drop_last() =~= w);
                    assert(wb.last() == Work::Bin(op));
                    assert(vals2.len() >= 2);
                    assert(vals2.last() == vr);
                    assert(vals2.drop_last() =~= vals.push(vl));
                    assert(vals2.drop_last().last() == vl);
                    assert(vals2.drop_last().drop_last() =~= vals);
                },
            }
        },
    }
}

proof fn lemma_stack_ok_push_expand(rest: Seq<Work>, x: Expr, avail: int)
    requires
        avail >= 0,
        stack_ok(rest, avail + 1),
    ensures
        stack_ok(rest.push(Work::Expand(x)), avail),
{
    assert(rest.push(Work::Expand(x)).drop_last() =~= rest);
    assert(rest.push(Work::Expand(x)).last() == Work::Expand(x));
}

proof fn lemma_stack_ok_push_neg_expand(rest: Seq<Work>, x: Expr, avail: int)
    requires
        avail >= 0,
        stack_ok(rest, avail + 1),
    ensures
        stack_ok(rest.push(Work::Neg).push(Work::Expand(x)), avail),
{
    let w1 = rest.push(Work::Neg);
    assert(w1.drop_last() =~= rest);
    assert(w1.last() == Work::Neg);
    assert(stack_ok(w1, avail + 1));
    lemma_stack_ok_push_expand(w1, x, avail);
}

proof fn lemma_stack_ok_push_bin(rest: Seq<Work>, op: BinOp, l: Expr, r: Expr, avail: int)
    requires
        avail >= 0,
        stack_ok(rest, avail + 1),
    ensures
        stack_ok(rest.push(Work::Bin(op)).push(Work::Expand(r)).push(Work::Expand(l)), avail),
{
    let w1 = rest.push(Work::Bin(op));
    assert(w1.drop_last() =~= rest);
    assert(w1.last() == Work::Bin(op));
    assert(stack_ok(w1, avail + 2));
    lemma_stack_ok_push_expand(w1, r, avail + 1);
    assert(w1.push(Work::Expand(r)).drop_last() =~= w1);
    lemma_stack_ok_push_expand(w1.push(Work::Expand(r)), l, avail);
}

proof fn lemma_work_rollable_drop(w: Seq<Work>)
    requires
        w.len() > 0,
        work_rollable(w),
    ensures
        work_rollable(w.drop_last()),
{
    assert forall|i: int| 0 <= i < w.drop_last().len() implies
        (#[trigger] w.drop_last()[i] matches Work::Expand(e) ==> e.rollable()) by {
        assert(w.drop_last()[i] == w[i]);
    }
}

proof fn lemma_work_rollable_push(w: Seq<Work>, it: Work)
    requires
        work_rollable(w),
        it matches Work::Expand(e) ==> e.rollable(),
    ensures
        work_rollable(w.push(it)),
{
    assert forall|i: int| 0 <= i < w.push(it).len() implies
        (#[trigger] w.push(it)[i] matches Work::Expand(e) ==> e.rollable()) by {
        if i < w.len() {
            assert(w.push(it)[i] == w[i]);
        } else {
            assert(w.push(it)[i] == it);
        }
    }
}

/// Evaluates `e` against `src` by an explicit work stack: the traversal
/// is iterative, so its depth is bounded by the heap-allocated stacks and
/// not by native call depth.
fn eval_via_stack<R: RollSource>(e: &Expr, src: &mut R) -> (res: Result<i64, ArithmeticError>)
    requires
        e.rollable(),
    ensures
        old(src).obeys_model() ==> {
            &&& res == spec_try_eval(*e, *old(src)).0
            &&& *final(src) == spec_try_eval(*e, *old(src)).1
        },
        e.dice_free() ==> {
            &&& res == spec_try_eval(*e, *old(src)).0
            &&& *final(src) == *old(src)
        },
{
    let ghost goal = spec_try_eval(*e, *old(src));
    let mut work: Vec<WorkItem> = Vec::new();
    let mut vals: Vec<i64> = Vec::new();
    work.push(WorkItem::Expand(e));
    proof {
        lemma_eval_work_expand(*e, Seq::<Work>::empty(), Seq::<i64>::empty(), *old(src));
        assert(view_work(work@) =~= Seq::<Work>::empty().push(Work::Expand(*e)));
        assert(view_work(work@).drop_last() =~= Seq::<Work>::empty());
        assert(view_work(work@).last() == Work::Expand(*e));
        assert(stack_ok(Seq::<Work>::empty(), 1int));
        assert(stack_ok(view_work(work@), 0int));
        assert(work_rollable(view_work(work@)));
        if e.dice_free() {
            assert(work_dice_free(view_work(work@)));
        }
        match goal.0 {
            Ok(v) => {
                assert(eval_work(Seq::<Work>::empty(), Seq::<i64>::empty().push(v), goal.1)
                    == (Ok::<i64, ArithmeticError>(v), goal.1));
            },
            Err(_) => {},
        }
    }
    while work.len() > 0
        invariant
            goal == spec_try_eval(*e, *old(src)),
            stack_ok(view_work(work@), vals@.len() as int),
            work_rollable(view_work(work@)),
            old(src).obeys_model() ==> {
                &&& src.obeys_model()
                &&& eval_work(view_work(work@), vals@, *src) == goal
            },
            e.dice_free() ==> {
                &&& work_dice_free(view_work(work@))
                &&& *src == *old(src)
                &&& eval_work(view_work(work@), vals@, *old(src)) == goal
            },
        decreases work_measure(view_work(work@)),
    {
        let ghost w0 = view_work(work@);
        let ghost vals0 = vals@;
        let ghost src0 = *src;
        let item = work.pop().unwrap();
        proof {
            assert(view_work(work@) =~= w0.drop_last());
            assert(view_item(item) == w0.last());
        }
        let ghost rest = w0.drop_last();
        proof {
            lemma_work_rollable_drop(w0);
            if e.dice_free() {
                lemma_work_dice_free_drop(w0);
            }
        }
        match item {
            WorkItem::Expand(cur) => {
                proof {
                    assert(w0[w0.len() - 1] matches Work::Expand(x) && x == *cur);
                    assert(cur.rollable());
                }
                match cur {
                    Expr::Int(x) => {
                        vals.push(*x as i64);
                        proof {
                            assert(view_work(work@) =~= rest);
                            assert(stack_ok(rest, vals0.len() as int + 1));
                        }
                    },
                    Expr::Dice(c, s) => {
                        proof {
                            if e.dice_free() {
                                assert(w0[w0.len() - 1] matches Work::Expand(x) && x == *cur);
                                assert(false);
                            }
                        }
                        let r = roll_from(src, *c, *s);
                        vals.push(r);
                        proof {
                            assert(view_work(work@) =~= rest);
                            assert(stack_ok(rest, vals0.len() as int + 1));
                            if old(src).obeys_model() {
                                let rolled = spec_roll(*c as int, *s as int, src0);
                                assert(r as int == rolled.0 && *src == rolled.1);
                                assert(r == rolled.0 as i64);
                            }
                        }
                    },
                    Expr::Not(x) => {
                        work.push(WorkItem::Neg);
                        work.push(WorkItem::Expand(&**x));
                        proof {
                            assert(view_work(work@) =~= rest.push(Work::Neg).push(Work::Expand(**x)));
                            lemma_work_measure_push(rest, Work::Neg);
                            lemma_work_measure_push(rest.push(Work::Neg), Work::Expand(**x));
                            lemma_stack_ok_push_neg_expand(rest, **x, vals0.len() as int);
                            lemma_work_rollable_push(rest, Work::Neg);
                            lemma_work_rollable_push(rest.push(Work::Neg), Work::Expand(**x));
                            if e.dice_free() {
                                lemma_work_dice_free_push(rest, Work::Neg);
                                lemma_work_dice_free_push(rest.push(Work::Neg), Work::Expand(**x));
                            }
                        }
                    },
                    Expr::Label(x, _) => {
                        work.push(WorkItem::Expand(&**x));
                        proof {
                            assert(view_work(work@) =~= rest.push(Work::Expand(**x)));
                            lemma_work_measure_push(rest, Work::Expand(**x));
                            lemma_stack_ok_push_expand(rest, **x, vals0.len() as int);
                            lemma_work_rollable_push(rest, Work::Expand(**x));
                            if e.dice_free() {
                                lemma_work_dice_free_push(rest, Work::Expand(**x));
                            }
                        }
                    },
                    Expr::Add(l, r) => {
                        work.push(WorkItem::Bin(BinOp::Add));
                        work.push(WorkItem::Expand(&**r));
                        work.push(WorkItem::Expand(&**l));
                        proof {
                            lemma_push_bin_facts(rest, BinOp::Add, **l, **r);
                            assert(view_work(work@) =~= rest.push(Work::Bin(BinOp::Add)).push(Work::Expand(**r)).push(Work::Expand(**l)));
                            lemma_stack_ok_push_bin(rest, BinOp::Add, **l, **r, vals0.len() as int);
                            lemma_work_rollable_push(rest, Work::Bin(BinOp::Add));
                            lemma_work_rollable_push(rest.push(Work::Bin(BinOp::Add)), Work::Expand(**r));
                            lemma_work_rollable_push(rest.push(Work::Bin(BinOp::Add)).push(Work::Expand(**r)), Work::Expand(**l));
                            if e.dice_free() {
                                lemma_work_dice_free_push(rest, Work::Bin(BinOp::Add));
                                lemma_work_dice_free_push(rest.push(Work::Bin(BinOp::Add)), Work::Expand(**r));
                                lemma_work_dice_free_push(rest.push(Work::Bin(BinOp::Add)).push(Work::Expand(**r)), Work::Expand(**l));
                            }
                        }
                    },
                    Expr::Sub(l, r) => {
                        work.push(WorkItem::Bin(BinOp::Sub));
                        work.push(WorkItem::Expand(&**r));
                        work.push(WorkItem::Expand(&**l));
                        proof {
                            lemma_push_bin_facts(rest, BinOp::Sub, **l, **r);
                            assert(view_work(work@) =~= rest.push(Work::Bin(BinOp::Sub)).push(Work::Expand(**r)).push(Work::Expand(**l)));
                            lemma_stack_ok_push_bin(rest, BinOp::Sub, **l, **r, vals0.len() as int);
                            lemma_work_rollable_push(rest, Work::Bin(BinOp::Sub));
                            lemma_work_rollable_push(rest.push(Work::Bin(BinOp::Sub)), Work::Expand(**r));
                            lemma_work_rollable_push(rest.push(Work::Bin(BinOp::Sub)).push(Work::Expand(**r)), Work::Expand(**l));
                            if e.dice_free() {
                                lemma_work_dice_free_push(rest, Work::Bin(BinOp::Sub));
                                lemma_work_dice_free_push(rest.push(Work::Bin(BinOp::Sub)), Work::Expand(**r));
                                lemma_work_dice_free_push(rest.push(Work::Bin(BinOp::Sub)).push(Work::Expand(**r)), Work::Expand(**l));
                            }
                        }
                    },
                    Expr::Mul(l, r) => {
                        work.push(WorkItem::Bin(BinOp::Mul));
                        work.push(WorkItem::Expand(&**r));
                        work.push(WorkItem::Expand(&**l));
                        proof {
                            lemma_push_bin_facts(rest, BinOp::Mul, **l, **r);
                            assert(view_work(work@) =~= rest.push(Work::Bin(BinOp::Mul)).push(Work::Expand(**r)).push(Work::Expand(**l)));
                            lemma_stack_ok_push_bin(rest, BinOp::Mul, **l, **r, vals0.len() as int);
                            lemma_work_rollable_push(rest, Work::Bin(BinOp::Mul));
                            lemma_work_rollable_push(rest.push(Work::Bin(BinOp::Mul)), Work::Expand(**r));
                            lemma_work_rollable_push(rest.push(Work::Bin(BinOp::Mul)).push(Work::Expand(**r)), Work::Expand(**l));
                            if e.dice_free() {
                                lemma_work_dice_free_push(rest, Work::Bin(BinOp::Mul));
                                lemma_work_dice_free_push(rest.push(Work::Bin(BinOp::Mul)), Work::Expand(**r));
                                lemma_work_dice_free_push(rest.push(Work::Bin(BinOp::Mul)).push(Work::Expand(**r)), Work::Expand(**l));
                            }
                        }
                    },
                    Expr::Div(l, r) => {
                        work.push(WorkItem::Bin(BinOp::Div));
                        work.push(WorkItem::Expand(&**r));
                        work.push(WorkItem::Expand(&**l));
                        proof {
                            lemma_push_bin_facts(rest, BinOp::Div, **l, **r);
                            assert(view_work(work@) =~= rest.push(Work::Bin(BinOp::Div)).push(Work::Expand(**r)).push(Work::Expand(**l)));
                            lemma_stack_ok_push_bin(rest, BinOp::Div, **l, **r, vals0.len() as int);
                            lemma_work_rollable_push(rest, Work::Bin(BinOp::Div));
                            lemma_work_rollable_push(rest.push(Work::Bin(BinOp::Div)), Work::Expand(**r));
                            lemma_work_rollable_push(rest.push(Work::Bin(BinOp::Div)).push(Work::Expand(**r)), Work::Expand(**l));
                            if e.dice_free() {
                                lemma_work_dice_free_push(rest, Work::Bin(BinOp::Div));
                                lemma_work_dice_free_push(rest.push(Work::Bin(BinOp::Div)), Work::Expand(**r));
                                lemma_work_dice_free_push(rest.push(Work::Bin(BinOp::Div)).push(Work::Expand(**r)), Work::Expand(**l));
                            }
                        }
                    },
                }
            },
            WorkItem::Neg => {
                let v = vals.pop().unwrap();
                proof {
                    assert(vals@ =~= vals0.drop_last());
                    assert(v == vals0.last());
                }
                if v == i64::MIN {
                    proof {
                        assert(w0.last() == Work::Neg);
                        assert(vals0.len() >= 1);
                        if old(src).obeys_model() {
                            assert(eval_work(w0, vals0, src0) == (spec_neg(v), src0));
                        }
                    }
                    return Err(ArithmeticError::Overflow { lhs: None, op: Op::Not, rhs: Some(v) });
                }
                vals.push(-v);
                proof {
                    assert(view_work(work@) =~= rest);
                    assert(vals@ =~= vals0.drop_last().push((-v) as i64));
                    assert(stack_ok(rest, vals0.len() as int));
                }
            },
            WorkItem::Bin(op) => {
                let rv = vals.pop().unwrap();
                let lv = vals.pop().unwrap();
                proof {
                    assert(rv == vals0.last());
                    assert(lv == vals0.drop_last().last());
                    assert(vals@ =~= vals0.drop_last().drop_last());
                }
                let step: Result<i64, ArithmeticError> = match op {
                    BinOp::Add => match lv.checked_add(rv) {
                        Some(v) => Ok(v),
                        None => Err(ArithmeticError::Overflow { lhs: Some(lv), op: Op::Add, rhs: Some(rv) }),
                    },
                    BinOp::Sub => match lv.checked_sub(rv) {
                        Some(v) => Ok(v),
                        None => Err(ArithmeticError::Overflow { lhs: Some(lv), op: Op::Sub, rhs: Some(rv) }),
                    },
                    BinOp::Mul => match lv.checked_mul(rv) {
                        Some(v) => Ok(v),
                        None => Err(ArithmeticError::Overflow { lhs: Some(lv), op: Op::Mul, rhs: Some(rv) }),
                    },
                    BinOp::Div => if rv == 0 {
                        Err(ArithmeticError::DivideByZero(lv))
                    } else {
                        match lv.checked_div(rv) {
                            Some(v) => Ok(v),
                            None => Err(ArithmeticError::Overflow { lhs: Some(lv), op: Op::Div, rhs: Some(rv) }),
                        }
                    },
                };
                proof {
                    assert(step == spec_arith(op, lv, rv));
                }
                match step {
                    Ok(v) => {
                        vals.push(v);
                        proof {
                            assert(view_work(work@) =~= rest);
                            assert(stack_ok(rest, vals0.len() - 1));
                        }
                    },
                    Err(er) => {
                        proof {
                            assert(w0.last() == Work::Bin(op));
                            assert(vals0.len() >= 2);
                            if old(src).obeys_model() {
                                assert(eval_work(w0, vals0, src0) == (Err::<i64, ArithmeticError>(er), src0));
                            }
                        }
                        return Err(er);
                    },
                }
            },
        }
    }
    proof {
        assert(view_work(work@).len() == 0);
        assert(vals@.len() == 1);
    }
    let v = vals.pop().unwrap();
    Ok(v)
}

/// Measure bookkeeping for expanding one binary node.
proof fn lemma_push_bin_facts(rest: Seq<Work>, op: BinOp, l: Expr, r: Expr)
    ensures
        work_measure(rest.push(Work::Bin(op)).push(Work::Expand(r)).push(Work::Expand(l)))
            == work_measure(rest) + 1 + 2 * r.size() + 2 * l.size(),
{
    lemma_work_measure_push(rest, Work::Bin(op));
    lemma_work_measure_push(rest.push(Work::Bin(op)), Work::Expand(r));
    lemma_work_measure_push(rest.push(Work::Bin(op)).push(Work::Expand(r)), Work::Expand(l));
}

/// A container for a random source, which handles all requests for dice
/// rolls and expression evaluation.
#[derive(Debug)]
pub struct DiceRoller<R: RollSource = ThreadRandom> {
    rng: R,
}

impl<R: RollSource> DiceRoller<R> {
    /// The source held by the roller.
    pub closed spec fn source(self) -> R {
        self.rng
    }

    /// Wraps a roll source.
    pub fn new(rng: R) -> (r: Self)
        ensures
            r.source() == rng,
    {
        Self { rng }
    }

    /// Rolls an `s`-sided die `c` times and sums the rolls. A
    /// non-positive count draws nothing and sums to zero; the sides must
    /// be positive whenever a die is actually rolled.
    pub fn roll(&mut self, c: i32, s: i32) -> (r: i64)
        requires
            c > 0 ==> s >= 1,
        ensures
            c <= 0 ==> r == 0 && *final(self) == *old(self),
            c > 0 ==> c as int <= r as int <= (c as int) * (s as int),
            old(self).source().obeys_model() ==> {
                &&& r as int == spec_roll(c as int, s as int, old(self).source()).0
                &&& final(self).source() == spec_roll(c as int, s as int, old(self).source()).1
                &&& final(self).source().obeys_model()
            },
    {
        roll_from(&mut self.rng, c, s)
    }

    /// The non-panicking evaluation path: folds the expression bottom-up
    /// with checked arithmetic and explicit division-by-zero handling,
    /// drawing dice from the held source. For a source that obeys its
    /// model, the outcome and the source's final state are exactly those
    /// of [`spec_try_eval`].
    pub fn try_eval(&mut self, e: &Expr) -> (res: Result<i64, ArithmeticError>)
        requires
            e.rollable(),
        ensures
            old(self).source().obeys_model() ==> {
                &&& res == spec_try_eval(*e, old(self).source()).0
                &&& final(self).source() == spec_try_eval(*e, old(self).source()).1
            },
            e.dice_free() ==> {
                &&& res == spec_try_eval(*e, old(self).source()).0
                &&& final(self).source() == old(self).source()
            },
    {
        eval_via_stack(e, &mut self.rng)
    }

    /// The simplified evaluation path: it returns the plain value and is
    /// only callable where evaluation is known to succeed — inputs on
    /// which [`Self::try_eval`] would report an error are excluded by the
    /// requires.
    pub fn eval(&mut self, e: &Expr) -> (r: i64)
        requires
            e.rollable(),
            old(self).source().obeys_model(),
            spec_try_eval(*e, old(self).source()).0 is Ok,
        ensures
            r == spec_try_eval(*e, old(self).source()).0->Ok_0,
            final(self).source() == spec_try_eval(*e, old(self).source()).1,
    {
        match self.try_eval(e) {
            Ok(v) => v,
            Err(_) => {
                proof {
                    assert(false);
                }
                0
            },
        }
    }
}

impl Default for DiceRoller<ThreadRandom> {
    /// A roller over the thread-local random generator.
    fn default() -> (r: Self)
        ensures
            !r.source().obeys_model(),
    {
        DiceRoller { rng: ThreadRandom::new() }
    }
}

/// Rolls an `s`-sided die `c` times against `src`, summing the draws.
pub(crate) fn roll_from<R: RollSource>(src: &mut R, c: i32, s: i32) -> (r: i64)
    requires
        c > 0 ==> s >= 1,
    ensures
        c <= 0 ==> r == 0 && *final(src) == *old(src),
        c > 0 ==> c as int <= r as int <= (c as int) * (s as int),
        old(src).obeys_model() ==> {
            &&& r as int == spec_roll(c as int, s as int, *old(src)).0
            &&& *final(src) == spec_roll(c as int, s as int, *old(src)).1
            &&& final(src).obeys_model()
        },
{
    if c <= 0 {
        return 0;
    }
    let mut acc: i64 = 0;
    let mut i: i32 = 0;
    while i < c
        invariant
            0 <= i <= c,
            s >= 1,
            i as int <= acc as int <= (i as int) * (s as int),
            old(src).obeys_model() ==> {
                &&& src.obeys_model()
                &&& spec_roll(c as int, s as int, *old(src)).0 == acc + spec_roll((c - i) as int, s as int, *src).0
                &&& spec_roll(c as int, s as int, *old(src)).1 == spec_roll((c - i) as int, s as int, *src).1
            },
        decreases c - i,
    {
        proof {
            let ii = i as int;
            let ss = s as int;
            let cc = c as int;
            assert(ii * ss + ss == (ii + 1) * ss) by (nonlinear_arith);
            assert((ii + 1) * ss <= cc * ss) by (nonlinear_arith)
                requires
                    ii + 1 <= cc,
                    ss >= 1,
            ;
            assert(cc * ss < 0x4000_0000_0000_0000int) by (nonlinear_arith)
                requires
                    0 < cc < 0x8000_0000,
                    0 < ss < 0x8000_0000,
            ;
        }
        let d = src.next_in_range(1, s as i64);
        acc = acc + d;
        i = i + 1;
    }
    acc
}


/// Division by a literal zero fails with `DivideByZero` carrying exactly
/// the value the dividend evaluated to, for every dividend whose own
/// evaluation succeeds; a failing dividend's error is passed through.
pub proof fn lemma_divide_by_zero<R: RollSource>(x: Expr, src: R)
    ensures
        ({
            let e = Expr::Div(Box::new(x), Box::new(Expr::Int(0)));
            let rx = spec_try_eval(x, src);
            match rx.0 {
                Ok(v) => spec_try_eval(e, src).0 == Err::<i64, ArithmeticError>(
                    ArithmeticError::DivideByZero(v),
                ),
                Err(er) => spec_try_eval(e, src).0 == Err::<i64, ArithmeticError>(er),
            }
        }),
{
    let e = Expr::Div(Box::new(x), Box::new(Expr::Int(0)));
    let rx = spec_try_eval(x, src);
    assert(spec_try_eval(e, src) == spec_try_eval_bin(BinOp::Div, x, Expr::Int(0), src));
    match rx.0 {
        Ok(v) => {
            assert(spec_try_eval(Expr::Int(0), rx.1) == (
                Ok::<i64, ArithmeticError>(0i64),
                rx.1,
            ));
            assert(spec_arith(BinOp::Div, v, 0i64) == Err::<i64, ArithmeticError>(
                ArithmeticError::DivideByZero(v),
            ));
        },
        Err(_) => {},
    }
}

/// Overflow exactness of addition: once both operands evaluate, the sum
/// node fails with `Overflow` exactly when checked 64-bit addition of the
/// two values would overflow, and returns their sum otherwise.
pub proof fn lemma_add_overflow_exact<R: RollSource>(a: Expr, b: Expr, src: R)
    ensures
        ({
            let e = Expr::Add(Box::new(a), Box::new(b));
            let ra = spec_try_eval(a, src);
            match ra.0 {
                Err(er) => spec_try_eval(e, src).0 == Err::<i64, ArithmeticError>(er),
                Ok(va) => {
                    let rb = spec_try_eval(b, ra.1);
                    match rb.0 {
                        Err(er) => spec_try_eval(e, src).0 == Err::<i64, ArithmeticError>(er),
                        Ok(vb) => if va + vb > i64::MAX || va + vb < i64::MIN {
                            spec_try_eval(e, src).0 == Err::<i64, ArithmeticError>(
                                ArithmeticError::Overflow {
                                    lhs: Some(va),
                                    op: Op::Add,
                                    rhs: Some(vb),
                                },
                            )
                        } else {
                            spec_try_eval(e, src).0 == Ok::<i64, ArithmeticError>(
                                (va + vb) as i64,
                            )
                        },
                    }
                },
            }
        }),
{
    let e = Expr::Add(Box::new(a), Box::new(b));
    assert(spec_try_eval(e, src) == spec_try_eval_bin(BinOp::Add, a, b, src));
}

/// Determinism: evaluation is a mathematical function of the tree and
/// the source's state, so two evaluations of the same tree from sources
/// in the same state — sources that will yield the same sequence of
/// draws — produce identical outcomes. Together with the exactness
/// clause of [`DiceRoller::try_eval`] for model-obeying sources, two such
/// runs of the executable evaluator return the same value.
pub proof fn lemma_eval_deterministic<R: RollSource>(e: Expr, src1: R, src2: R)
    requires
        src1 == src2,
    ensures
        spec_try_eval(e, src1) == spec_try_eval(e, src2),
{
}

} // verus!

