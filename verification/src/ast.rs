//! The [`Expr`] and [`ExprFrame`] types for working with a parsed dice roll.
//!
//! [`Expr`] is the recursive, owned expression tree. [`ExprFrame`] is the
//! same shape with every recursive child position replaced by a generic
//! placeholder, exposing one unrolled layer of the tree so that traversals
//! can be driven by an explicit work stack instead of native recursion.

use vstd::prelude::*;
use crate::precedence::Op;

verus! {

/// The main expression type: a recursive, boxed enum over all possible
/// expressions of the grammar. Each node exclusively owns its children.
#[derive(Debug, PartialEq)]
pub enum Expr {
    /// A signed integer constant.
    Int(i32),
    /// `Dice(count, sides)`: roll a `sides`-sided die `count` times and sum.
    Dice(i32, i32),
    /// Arithmetic negation.
    Not(Box<Expr>),
    /// A textual annotation with no effect on the value.
    Label(Box<Expr>, String),
    Add(Box<Expr>, Box<Expr>),
    Sub(Box<Expr>, Box<Expr>),
    Mul(Box<Expr>, Box<Expr>),
    Div(Box<Expr>, Box<Expr>),
}

/// A single level of the [`Expr`] tree, with children replaced by `A`.
#[derive(Debug, Clone, PartialEq)]
pub enum ExprFrame<A> {
    Int(i32),
    Dice(i32, i32),
    Not(A),
    Label(A, String),
    Add(A, A),
    Sub(A, A),
    Mul(A, A),
    Div(A, A),
}

impl Expr {
    /// The height of the tree: 1 for a leaf, 1 more than the tallest child
    /// otherwise.
    pub open spec fn height(self) -> nat
        decreases self,
    {
        match self {
            Expr::Int(_) => 1,
            Expr::Dice(_, _) => 1,
            Expr::Not(x) => 1 + x.height(),
            Expr::Label(x, _) => 1 + x.height(),
            Expr::Add(l, r) => 1 + if l.height() >= r.height() { l.height() } else { r.height() },
            Expr::Sub(l, r) => 1 + if l.height() >= r.height() { l.height() } else { r.height() },
            Expr::Mul(l, r) => 1 + if l.height() >= r.height() { l.height() } else { r.height() },
            Expr::Div(l, r) => 1 + if l.height() >= r.height() { l.height() } else { r.height() },
        }
    }

    /// The number of nodes in the tree.
    pub open spec fn size(self) -> nat
        decreases self,
    {
        match self {
            Expr::Int(_) => 1,
            Expr::Dice(_, _) => 1,
            Expr::Not(x) => 1 + x.size(),
            Expr::Label(x, _) => 1 + x.size(),
            Expr::Add(l, r) => 1 + l.size() + r.size(),
            Expr::Sub(l, r) => 1 + l.size() + r.size(),
            Expr::Mul(l, r) => 1 + l.size() + r.size(),
            Expr::Div(l, r) => 1 + l.size() + r.size(),
        }
    }

    /// Every dice term that rolls at least one die has at least one side,
    /// so that evaluation can draw from the range `1..=sides`.
    pub open spec fn rollable(self) -> bool
        decreases self,
    {
        match self {
            Expr::Int(_) => true,
            Expr::Dice(c, s) => c > 0 ==> s >= 1,
            Expr::Not(x) => x.rollable(),
            Expr::Label(x, _) => x.rollable(),
            Expr::Add(l, r) => l.rollable() && r.rollable(),
            Expr::Sub(l, r) => l.rollable() && r.rollable(),
            Expr::Mul(l, r) => l.rollable() && r.rollable(),
            Expr::Div(l, r) => l.rollable() && r.rollable(),
        }
    }

    /// Whether the tree holds no dice term at all: such a tree evaluates
    /// without consulting the random source.
    pub open spec fn dice_free(self) -> bool
        decreases self,
    {
        match self {
            Expr::Int(_) => true,
            Expr::Dice(_, _) => false,
            Expr::Not(x) => x.dice_free(),
            Expr::Label(x, _) => x.dice_free(),
            Expr::Add(l, r) => l.dice_free() && r.dice_free(),
            Expr::Sub(l, r) => l.dice_free() && r.dice_free(),
            Expr::Mul(l, r) => l.dice_free() && r.dice_free(),
            Expr::Div(l, r) => l.dice_free() && r.dice_free(),
        }
    }

    /// The invariant of trees built by parsing: dice counts and sides are
    /// positive, and a `Label` node's child is never itself a `Label`.
    pub open spec fn wf(self) -> bool
        decreases self,
    {
        match self {
            Expr::Int(_) => true,
            Expr::Dice(c, s) => c > 0 && s > 0,
            Expr::Not(x) => x.wf(),
            Expr::Label(x, _) => x.wf() && !((*x) is Label),
            Expr::Add(l, r) => l.wf() && r.wf(),
            Expr::Sub(l, r) => l.wf() && r.wf(),
            Expr::Mul(l, r) => l.wf() && r.wf(),
            Expr::Div(l, r) => l.wf() && r.wf(),
        }
    }

    /// Whether there is no binary operation from the root down to the leaf
    /// along the unary spine; such a subtree is rendered without
    /// parentheses under a unary operator.
    pub open spec fn spec_is_unit(self) -> bool
        decreases self,
    {
        match self {
            Expr::Int(_) => true,
            Expr::Dice(_, _) => true,
            Expr::Not(x) => x.spec_is_unit(),
            Expr::Label(x, _) => x.spec_is_unit(),
            Expr::Add(_, _) => false,
            Expr::Sub(_, _) => false,
            Expr::Mul(_, _) => false,
            Expr::Div(_, _) => false,
        }
    }

    /// Returns `true` if there are no binary operations from `self` until
    /// the leaf. Walks the unary spine iteratively, so the traversal uses
    /// no native recursion.
    pub fn is_unit(&self) -> (r: bool)
        ensures
            r == self.spec_is_unit(),
    {
        let mut cur: &Expr = self;
        loop
            invariant
                cur.spec_is_unit() == self.spec_is_unit(),
            decreases cur.height(),
        {
            match cur {
                Expr::Int(_) | Expr::Dice(_, _) => {
                    return true;
                },
                Expr::Not(x) => {
                    cur = x;
                },
                Expr::Label(x, _) => {
                    cur = x;
                },
                _ => {
                    return false;
                },
            }
        }
    }

    /// Creates an [`Expr::Int`] from `x`.
    pub fn literal(x: i32) -> (r: Self)
        ensures
            r == Expr::Int(x),
    {
        Expr::Int(x)
    }

    /// Creates an [`Expr::Dice`] from `count` and `sides`.
    pub fn dice(count: i32, sides: i32) -> (r: Self)
        ensures
            r == Expr::Dice(count, sides),
    {
        Expr::Dice(count, sides)
    }

    /// Creates an [`Expr::Not`] with a [`Box`].
    pub fn not(rhs: Self) -> (r: Self)
        ensures
            r == Expr::Not(Box::new(rhs)),
    {
        Expr::Not(Box::new(rhs))
    }

    /// Creates an [`Expr::Add`] with boxed children.
    pub fn add(lhs: Self, rhs: Self) -> (r: Self)
        ensures
            r == Expr::Add(Box::new(lhs), Box::new(rhs)),
    {
        Expr::Add(Box::new(lhs), Box::new(rhs))
    }

    /// Creates an [`Expr::Sub`] with boxed children.
    pub fn sub(lhs: Self, rhs: Self) -> (r: Self)
        ensures
            r == Expr::Sub(Box::new(lhs), Box::new(rhs)),
    {
        Expr::Sub(Box::new(lhs), Box::new(rhs))
    }

    /// Creates an [`Expr::Mul`] with boxed children.
    pub fn mul(lhs: Self, rhs: Self) -> (r: Self)
        ensures
            r == Expr::Mul(Box::new(lhs), Box::new(rhs)),
    {
        Expr::Mul(Box::new(lhs), Box::new(rhs))
    }

    /// Creates an [`Expr::Div`] with boxed children.
    pub fn div(lhs: Self, rhs: Self) -> (r: Self)
        ensures
            r == Expr::Div(Box::new(lhs), Box::new(rhs)),
    {
        Expr::Div(Box::new(lhs), Box::new(rhs))
    }

    /// Creates an [`Expr::Label`] with a [`Box`].
    pub fn label(lhs: Self, msg: String) -> (r: Self)
        ensures
            r == Expr::Label(Box::new(lhs), msg),
    {
        Expr::Label(Box::new(lhs), msg)
    }

    /// The operation at the root of the tree.
    pub open spec fn spec_op(self) -> Op {
        match self {
            Expr::Int(_) | Expr::Dice(_, _) => Op::Empty,
            Expr::Not(_) => Op::Not,
            Expr::Label(_, _) => Op::Label,
            Expr::Add(_, _) => Op::Add,
            Expr::Sub(_, _) => Op::Sub,
            Expr::Mul(_, _) => Op::Mul,
            Expr::Div(_, _) => Op::Div,
        }
    }
}

/// The specification-level image of an [`Expr`], with label text as a
/// character sequence.
pub enum ExprView {
    Int(i32),
    Dice(i32, i32),
    Not(Box<ExprView>),
    Label(Box<ExprView>, Seq<char>),
    Add(Box<ExprView>, Box<ExprView>),
    Sub(Box<ExprView>, Box<ExprView>),
    Mul(Box<ExprView>, Box<ExprView>),
    Div(Box<ExprView>, Box<ExprView>),
}

/// The view of a tree: the same shape, with label text as a character
/// sequence.
pub open spec fn expr_view(e: Expr) -> ExprView
    decreases e,
{
    match e {
        Expr::Int(x) => ExprView::Int(x),
        Expr::Dice(c, s) => ExprView::Dice(c, s),
        Expr::Not(x) => ExprView::Not(Box::new(expr_view(*x))),
        Expr::Label(x, m) => ExprView::Label(Box::new(expr_view(*x)), m@),
        Expr::Add(l, r) => ExprView::Add(Box::new(expr_view(*l)), Box::new(expr_view(*r))),
        Expr::Sub(l, r) => ExprView::Sub(Box::new(expr_view(*l)), Box::new(expr_view(*r))),
        Expr::Mul(l, r) => ExprView::Mul(Box::new(expr_view(*l)), Box::new(expr_view(*r))),
        Expr::Div(l, r) => ExprView::Div(Box::new(expr_view(*l)), Box::new(expr_view(*r))),
    }
}

impl View for Expr {
    type V = ExprView;

    open spec fn view(&self) -> ExprView {
        expr_view(*self)
    }
}

impl ExprView {
    /// The invariant of parsed trees, stated on the view: dice counts and
    /// sides are positive, and a `Label` node's child is never itself a
    /// `Label`.
    pub open spec fn wf(self) -> bool
        decreases self,
    {
        match self {
            ExprView::Int(_) => true,
            ExprView::Dice(c, s) => c > 0 && s > 0,
            ExprView::Not(x) => x.wf(),
            ExprView::Label(x, _) => x.wf() && !((*x) is Label),
            ExprView::Add(l, r) => l.wf() && r.wf(),
            ExprView::Sub(l, r) => l.wf() && r.wf(),
            ExprView::Mul(l, r) => l.wf() && r.wf(),
            ExprView::Div(l, r) => l.wf() && r.wf(),
        }
    }
}

/// A tree is well formed exactly when its view is.
pub proof fn lemma_wf_view(e: Expr)
    ensures
        e.wf() == e@.wf(),
    decreases e,
{
    match e {
        Expr::Int(_) => {},
        Expr::Dice(_, _) => {},
        Expr::Not(x) => {
            lemma_wf_view(*x);
        },
        Expr::Label(x, _) => {
            lemma_wf_view(*x);
        },
        Expr::Add(l, r) => {
            lemma_wf_view(*l);
            lemma_wf_view(*r);
        },
        Expr::Sub(l, r) => {
            lemma_wf_view(*l);
            lemma_wf_view(*r);
        },
        Expr::Mul(l, r) => {
            lemma_wf_view(*l);
            lemma_wf_view(*r);
        },
        Expr::Div(l, r) => {
            lemma_wf_view(*l);
            lemma_wf_view(*r);
        },
    }
}

/// Well-formed trees can be rolled: every dice term's range is sound.
pub proof fn lemma_wf_rollable(e: Expr)
    requires
        e.wf(),
    ensures
        e.rollable(),
    decreases e,
{
    match e {
        Expr::Int(_) => {},
        Expr::Dice(_, _) => {},
        Expr::Not(x) => {
            lemma_wf_rollable(*x);
        },
        Expr::Label(x, _) => {
            lemma_wf_rollable(*x);
        },
        Expr::Add(l, r) => {
            lemma_wf_rollable(*l);
            lemma_wf_rollable(*r);
        },
        Expr::Sub(l, r) => {
            lemma_wf_rollable(*l);
            lemma_wf_rollable(*r);
        },
        Expr::Mul(l, r) => {
            lemma_wf_rollable(*l);
            lemma_wf_rollable(*r);
        },
        Expr::Div(l, r) => {
            lemma_wf_rollable(*l);
            lemma_wf_rollable(*r);
        },
    }
}

/// One unrolled layer of a tree: the same node with its children exposed
/// as subtrees.
pub open spec fn spec_frame(e: Expr) -> ExprFrame<Expr> {
    match e {
        Expr::Int(x) => ExprFrame::Int(x),
        Expr::Dice(c, s) => ExprFrame::Dice(c, s),
        Expr::Not(x) => ExprFrame::Not(*x),
        Expr::Label(x, m) => ExprFrame::Label(*x, m),
        Expr::Add(l, r) => ExprFrame::Add(*l, *r),
        Expr::Sub(l, r) => ExprFrame::Sub(*l, *r),
        Expr::Mul(l, r) => ExprFrame::Mul(*l, *r),
        Expr::Div(l, r) => ExprFrame::Div(*l, *r),
    }
}

/// The tree a single layer rolls up into.
pub open spec fn spec_from_frame(f: ExprFrame<Expr>) -> Expr {
    match f {
        ExprFrame::Int(x) => Expr::Int(x),
        ExprFrame::Dice(c, s) => Expr::Dice(c, s),
        ExprFrame::Not(x) => Expr::Not(Box::new(x)),
        ExprFrame::Label(x, m) => Expr::Label(Box::new(x), m),
        ExprFrame::Add(l, r) => Expr::Add(Box::new(l), Box::new(r)),
        ExprFrame::Sub(l, r) => Expr::Sub(Box::new(l), Box::new(r)),
        ExprFrame::Mul(l, r) => Expr::Mul(Box::new(l), Box::new(r)),
        ExprFrame::Div(l, r) => Expr::Div(Box::new(l), Box::new(r)),
    }
}

/// A total, structure-preserving mapping exists in both directions:
/// rolling an unrolled layer back up restores the tree.
pub proof fn lemma_frame_roundtrip(e: Expr)
    ensures
        spec_from_frame(spec_frame(e)) == e,
{
}

/// The layer with borrowed children read as the layer with the subtrees
/// themselves.
pub open spec fn deref_frame(f: ExprFrame<&Expr>) -> ExprFrame<Expr> {
    match f {
        ExprFrame::Int(x) => ExprFrame::Int(x),
        ExprFrame::Dice(c, s) => ExprFrame::Dice(c, s),
        ExprFrame::Not(x) => ExprFrame::Not(*x),
        ExprFrame::Label(x, m) => ExprFrame::Label(*x, m),
        ExprFrame::Add(l, r) => ExprFrame::Add(*l, *r),
        ExprFrame::Sub(l, r) => ExprFrame::Sub(*l, *r),
        ExprFrame::Mul(l, r) => ExprFrame::Mul(*l, *r),
        ExprFrame::Div(l, r) => ExprFrame::Div(*l, *r),
    }
}

impl Expr {
    /// Exposes one unrolled layer of the tree, children as references:
    /// the one-layer unroll for generic traversal.
    pub fn into_frame(&self) -> (f: ExprFrame<&Expr>)
        ensures
            deref_frame(f) == spec_frame(*self),
    {
        match self {
            Expr::Int(x) => ExprFrame::Int(*x),
            Expr::Dice(c, s) => ExprFrame::Dice(*c, *s),
            Expr::Not(x) => ExprFrame::Not(&**x),
            Expr::Label(x, m) => ExprFrame::Label(&**x, m.clone()),
            Expr::Add(l, r) => ExprFrame::Add(&**l, &**r),
            Expr::Sub(l, r) => ExprFrame::Sub(&**l, &**r),
            Expr::Mul(l, r) => ExprFrame::Mul(&**l, &**r),
            Expr::Div(l, r) => ExprFrame::Div(&**l, &**r),
        }
    }

    /// Rolls one layer up into a tree: the one-layer roll-up.
    pub fn from_frame(f: ExprFrame<Expr>) -> (e: Expr)
        ensures
            e == spec_from_frame(f),
    {
        match f {
            ExprFrame::Int(x) => Expr::Int(x),
            ExprFrame::Dice(c, s) => Expr::Dice(c, s),
            ExprFrame::Not(x) => Expr::Not(Box::new(x)),
            ExprFrame::Label(x, m) => Expr::Label(Box::new(x), m),
            ExprFrame::Add(l, r) => Expr::Add(Box::new(l), Box::new(r)),
            ExprFrame::Sub(l, r) => Expr::Sub(Box::new(l), Box::new(r)),
            ExprFrame::Mul(l, r) => Expr::Mul(Box::new(l), Box::new(r)),
            ExprFrame::Div(l, r) => Expr::Div(Box::new(l), Box::new(r)),
        }
    }
}

impl<A> ExprFrame<A> {
    /// Applies `f` to each child slot of the layer, leaving the node and
    /// its payload as they are.
    pub fn map<B, F: Fn(A) -> B>(self, f: F) -> (r: ExprFrame<B>)
        requires
            forall|a: A| #[trigger] f.requires((a,)),
        ensures
            match self {
                ExprFrame::Int(x) => r == ExprFrame::<B>::Int(x),
                ExprFrame::Dice(c, s) => r == ExprFrame::<B>::Dice(c, s),
                ExprFrame::Not(a) => r matches ExprFrame::Not(b) && f.ensures((a,), b),
                ExprFrame::Label(a, m) => r matches ExprFrame::Label(b, m2) && f.ensures((a,), b)
                    && m2 == m,
                ExprFrame::Add(a1, a2) => r matches ExprFrame::Add(b1, b2) && f.ensures((a1,), b1)
                    && f.ensures((a2,), b2),
                ExprFrame::Sub(a1, a2) => r matches ExprFrame::Sub(b1, b2) && f.ensures((a1,), b1)
                    && f.ensures((a2,), b2),
                ExprFrame::Mul(a1, a2) => r matches ExprFrame::Mul(b1, b2) && f.ensures((a1,), b1)
                    && f.ensures((a2,), b2),
                ExprFrame::Div(a1, a2) => r matches ExprFrame::Div(b1, b2) && f.ensures((a1,), b1)
                    && f.ensures((a2,), b2),
            },
    {
        match self {
            ExprFrame::Int(x) => ExprFrame::Int(x),
            ExprFrame::Dice(c, s) => ExprFrame::Dice(c, s),
            ExprFrame::Not(a) => ExprFrame::Not(f(a)),
            ExprFrame::Label(a, m) => ExprFrame::Label(f(a), m),
            ExprFrame::Add(a1, a2) => ExprFrame::Add(f(a1), f(a2)),
            ExprFrame::Sub(a1, a2) => ExprFrame::Sub(f(a1), f(a2)),
            ExprFrame::Mul(a1, a2) => ExprFrame::Mul(f(a1), f(a2)),
            ExprFrame::Div(a1, a2) => ExprFrame::Div(f(a1), f(a2)),
        }
    }
}

impl Clone for Expr {
    /// A clone is spec-equal to the tree it copies.
    fn clone(&self) -> (r: Self)
        ensures
            r == *self,
        decreases *self,
    {
        match self {
            Expr::Int(x) => Expr::Int(*x),
            Expr::Dice(c, s) => Expr::Dice(*c, *s),
            Expr::Not(x) => Expr::Not(Box::new((**x).clone())),
            Expr::Label(x, m) => Expr::Label(Box::new((**x).clone()), m.clone()),
            Expr::Add(l, r) => Expr::Add(Box::new((**l).clone()), Box::new((**r).clone())),
            Expr::Sub(l, r) => Expr::Sub(Box::new((**l).clone()), Box::new((**r).clone())),
            Expr::Mul(l, r) => Expr::Mul(Box::new((**l).clone()), Box::new((**r).clone())),
            Expr::Div(l, r) => Expr::Div(Box::new((**l).clone()), Box::new((**r).clone())),
        }
    }
}

impl Op {
    /// Turns an [`Expr`] into the [`Op`] at its root.
    pub fn from_expr(expr: &Expr) -> (r: Self)
        ensures
            r == expr.spec_op(),
    {
        match expr {
            Expr::Int(_) | Expr::Dice(_, _) => Op::Empty,
            Expr::Not(_) => Op::Not,
            Expr::Label(_, _) => Op::Label,
            Expr::Add(_, _) => Op::Add,
            Expr::Sub(_, _) => Op::Sub,
            Expr::Mul(_, _) => Op::Mul,
            Expr::Div(_, _) => Op::Div,
        }
    }
}

} // verus!
