//! A dice descriptor in a narrower integer domain, and a roller over it.
//!
//! [`Dice`] holds a count and sides that are known positive and fit in
//! 16 bits; [`Dice::try_from_expr`] converts the wider [`Expr::Dice`]
//! shape into it, reporting exactly why a conversion is impossible.

use vstd::prelude::*;
use crate::ast::Expr;
use crate::eval::{spec_roll, RollSource};

verus! {

/// A validated dice term: both fields positive and 16-bit.
#[derive(Debug, Clone, Copy, PartialEq, Eq)]
pub struct Dice {
    count: u16,
    sides: u16,
}

impl Dice {
    /// The number of dice rolled.
    pub closed spec fn spec_count(self) -> u16 {
        self.count
    }

    /// The number of sides of each die.
    pub closed spec fn spec_sides(self) -> u16 {
        self.sides
    }

    /// Builds a descriptor from positive count and sides.
    pub fn new(count: u16, sides: u16) -> (r: Self)
        requires
            count > 0,
            sides > 0,
        ensures
            r.spec_count() == count,
            r.spec_sides() == sides,
    {
        Dice { count, sides }
    }

    /// Converts an [`Expr::Dice`] node into a descriptor: any other
    /// shape is `Invalid`, a value outside the 16-bit range is
    /// `Overflow`, and a zero count or sides is `Zero`.
    pub fn try_from_expr(value: &Expr) -> (r: Result<Dice, ParseDiceError>)
        ensures
            match *value {
                Expr::Dice(c, s) => {
                    if !(0 <= c <= u16::MAX) || !(0 <= s <= u16::MAX) {
                        r matches Err(er) && er.spec_kind() == DiceErrorKind::Overflow
                    } else if c == 0 || s == 0 {
                        r matches Err(er) && er.spec_kind() == DiceErrorKind::Zero
                    } else {
                        r matches Ok(d) && d.spec_count() == c && d.spec_sides() == s
                    }
                },
                _ => r matches Err(er) && er.spec_kind() == DiceErrorKind::Invalid,
            },
    {
        match value {
            Expr::Dice(c, s) => {
                if *c < 0 || *c > 65535 || *s < 0 || *s > 65535 {
                    Err(ParseDiceError { kind: DiceErrorKind::Overflow })
                } else if *c == 0 || *s == 0 {
                    Err(ParseDiceError { kind: DiceErrorKind::Zero })
                } else {
                    Ok(Dice { count: *c as u16, sides: *s as u16 })
                }
            },
            _ => Err(ParseDiceError { kind: DiceErrorKind::Invalid }),
        }
    }
}

/// Why an expression could not become a [`Dice`] descriptor.
#[derive(Debug, Clone, Copy, PartialEq, Eq)]
pub struct ParseDiceError {
    kind: DiceErrorKind,
}

/// The shape of a [`ParseDiceError`].
#[derive(Debug, Clone, Copy, PartialEq, Eq, Structural)]
#[non_exhaustive]
pub enum DiceErrorKind {
    /// The expression is not a dice term.
    Invalid,
    /// A value does not fit the 16-bit target width.
    Overflow,
    /// The count or the sides is zero.
    Zero,
}

impl ParseDiceError {
    /// The kind of failure.
    pub closed spec fn spec_kind(self) -> DiceErrorKind {
        self.kind
    }

    /// Returns the kind of failure.
    pub fn kind(&self) -> (r: &DiceErrorKind)
        ensures
            *r == self.spec_kind(),
    {
        &self.kind
    }
}

/// A roller over validated dice descriptors.
pub struct Roller<R: RollSource> {
    rng: R,
}

impl<R: RollSource> Roller<R> {
    /// The source held by the roller.
    pub closed spec fn source(self) -> R {
        self.rng
    }

    /// Wraps a roll source.
    pub fn new(rng: R) -> (r: Self)
        ensures
            r.source() == rng,
    {
        Roller { rng }
    }

    /// Rolls the descriptor's dice and sums the rolls.
    pub fn roll_dice(&mut self, die: Dice) -> (r: i64)
        requires
            die.spec_count() > 0,
            die.spec_sides() > 0,
        ensures
            die.spec_count() as int <= r as int <= (die.spec_count() as int) * (
            die.spec_sides() as int),
            old(self).source().obeys_model() ==> {
                &&& r as int == spec_roll(
                    die.spec_count() as int,
                    die.spec_sides() as int,
                    old(self).source(),
                ).0
                &&& final(self).source() == spec_roll(
                    die.spec_count() as int,
                    die.spec_sides() as int,
                    old(self).source(),
                ).1
            },
    {
        crate::eval::roll_from(&mut self.rng, die.count as i32, die.sides as i32)
    }
}

} // verus!
