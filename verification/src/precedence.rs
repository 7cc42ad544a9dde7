//! Comparing the precedence of operations, and deciding where a rendered
//! expression needs parentheses.
//!
//! The central function is [`BinOp::needs_parenthesis`]: given a binary
//! operator and the operators at the roots of its two children, it says
//! which children must be wrapped in parentheses so that re-parsing the
//! rendered text rebuilds a tree with the same value.

use vstd::prelude::*;

verus! {

/// The operations of the grammar, including the no-op class of leaves.
#[derive(Debug, Clone, Copy, PartialEq, Eq, Structural)]
pub enum Op {
    /// A leaf (an integer or a dice roll): no operator at the root.
    Empty,
    /// Prefix negation.
    Not,
    /// Postfix label annotation.
    Label,
    Add,
    Sub,
    Mul,
    Div,
}

/// Only the binary operations of the grammar.
#[derive(Debug, Clone, Copy, PartialEq, Eq, Structural)]
pub enum BinOp {
    Add,
    Sub,
    Mul,
    Div,
}

impl Op {
    /// The precedence class of an operation.
    ///
    /// Lower numbers bind tighter: leaves are 0, the unary operators come
    /// next, and the binary operators are loosest, with `Add`/`Sub` looser
    /// than `Mul`/`Div`.
    pub open spec fn spec_prec(self) -> i32 {
        match self {
            Op::Empty => 0,
            Op::Label => 10,
            Op::Not => 20,
            Op::Add => 40,
            Op::Sub => 40,
            Op::Mul => 30,
            Op::Div => 30,
        }
    }

    /// Returns the precedence class of this operation.
    pub fn prec(&self) -> (r: i32)
        ensures
            r == self.spec_prec(),
    {
        match self {
            Op::Empty => 0,
            Op::Label => 10,
            Op::Not => 20,
            Op::Add => 40,
            Op::Sub => 40,
            Op::Mul => 30,
            Op::Div => 30,
        }
    }

    /// The written name of the operation: the operator's spelling, or a
    /// word for the classes with no symbol of their own.
    pub open spec fn spec_as_str(self) -> Seq<char> {
        match self {
            Op::Empty => "noop"@,
            Op::Not => "negate"@,
            Op::Label => "[label]"@,
            Op::Add => "+"@,
            Op::Sub => "-"@,
            Op::Mul => "*"@,
            Op::Div => "/"@,
        }
    }

    /// Returns the written name of the operation.
    pub fn as_str(&self) -> (r: &'static str)
        ensures
            r@ == self.spec_as_str(),
    {
        match self {
            Op::Empty => "noop",
            Op::Not => "negate",
            Op::Label => "[label]",
            Op::Add => "+",
            Op::Sub => "-",
            Op::Mul => "*",
            Op::Div => "/",
        }
    }

    /// The binary operation this operation stands for, if any.
    pub open spec fn spec_as_binop(self) -> Option<BinOp> {
        match self {
            Op::Empty | Op::Not | Op::Label => None,
            Op::Add => Some(BinOp::Add),
            Op::Sub => Some(BinOp::Sub),
            Op::Mul => Some(BinOp::Mul),
            Op::Div => Some(BinOp::Div),
        }
    }

    /// Turns an [`Op`] into a [`BinOp`], or `None` if it is not a binary operation.
    pub fn as_binop(&self) -> (r: Option<BinOp>)
        ensures
            r == self.spec_as_binop(),
    {
        match self {
            Op::Empty | Op::Not | Op::Label => None,
            Op::Add => Some(BinOp::Add),
            Op::Sub => Some(BinOp::Sub),
            Op::Mul => Some(BinOp::Mul),
            Op::Div => Some(BinOp::Div),
        }
    }
}

impl BinOp {
    /// The source-text spelling of the operator.
    pub open spec fn spec_as_str(self) -> Seq<char> {
        match self {
            BinOp::Add => seq!['+'],
            BinOp::Sub => seq!['-'],
            BinOp::Mul => seq!['*'],
            BinOp::Div => seq!['/'],
        }
    }

    /// Returns the string representation of the operator.
    pub fn as_str(&self) -> (r: &'static str)
        ensures
            r@ == self.spec_as_str(),
    {
        match self {
            BinOp::Add => {
                proof { reveal_strlit("+"); }
                "+"
            },
            BinOp::Sub => {
                proof { reveal_strlit("-"); }
                "-"
            },
            BinOp::Mul => {
                proof { reveal_strlit("*"); }
                "*"
            },
            BinOp::Div => {
                proof { reveal_strlit("/"); }
                "/"
            },
        }
    }

    /// The [`Op`] this binary operation stands for.
    pub open spec fn spec_as_op(self) -> Op {
        match self {
            BinOp::Add => Op::Add,
            BinOp::Sub => Op::Sub,
            BinOp::Mul => Op::Mul,
            BinOp::Div => Op::Div,
        }
    }

    /// Turns a [`BinOp`] into an [`Op`].
    pub fn as_op(&self) -> (r: Op)
        ensures
            r == self.spec_as_op(),
    {
        match self {
            BinOp::Add => Op::Add,
            BinOp::Sub => Op::Sub,
            BinOp::Mul => Op::Mul,
            BinOp::Div => Op::Div,
        }
    }

    /// See [`Op::spec_prec`].
    pub open spec fn spec_prec(self) -> i32 {
        self.spec_as_op().spec_prec()
    }

    /// Returns the precedence class of the operator.
    pub fn prec(&self) -> (r: i32)
        ensures
            r == self.spec_prec(),
    {
        self.as_op().prec()
    }

    /// Whether the left and right children of `me` need parentheses.
    ///
    /// A child needs parentheses exactly when its precedence class is
    /// looser than the parent's; on the right-hand side of the
    /// non-associative operators (`Sub`, `Div`) an equally loose child
    /// needs them too, since `a - (b - c)` differs from `(a - b) - c`.
    pub open spec fn spec_needs_parenthesis(me: BinOp, lop: Op, rop: Op) -> (bool, bool) {
        let l = lop.spec_prec();
        let r = rop.spec_prec() + (match me {
            BinOp::Sub | BinOp::Div => 1int,
            BinOp::Add | BinOp::Mul => 0int,
        });
        (me.spec_prec() < l, me.spec_prec() < r)
    }

    /// Determines, for a parent `me`, left child root `lop`, and right child
    /// root `rop`, whether each child needs parentheses when rendered.
    pub fn needs_parenthesis(me: BinOp, lop: Op, rop: Op) -> (r: (bool, bool))
        ensures
            r == Self::spec_needs_parenthesis(me, lop, rop),
    {
        let lp = lop.prec();
        let rp = rop.prec() + (match me {
            BinOp::Sub | BinOp::Div => 1,
            BinOp::Add | BinOp::Mul => 0,
        });
        let mp = me.prec();

        (mp < lp, mp < rp)
    }
}

} // verus!
