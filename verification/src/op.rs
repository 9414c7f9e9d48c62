//! The binary operators and their precedence tiers.

use vstd::prelude::*;

verus! {

/// Any operation that can be performed on two numbers.
#[derive(Debug, Clone, Copy, PartialEq, Eq)]
pub enum Op {
    Add,
    Sub,
    Mul,
    Div,
    Mod,
    Pow,
}

/// The number of precedence tiers. Tier 0 binds tightest.
pub const TIERS: u8 = 3;

impl Op {
    /// The precedence tier of the operator: 0 for `Pow`, 1 for `Mod`, `Div` and `Mul`,
    /// 2 for `Sub` and `Add`.
    pub open spec fn spec_tier(self) -> nat {
        match self {
            Op::Pow => 0,
            Op::Mod | Op::Div | Op::Mul => 1,
            Op::Sub | Op::Add => 2,
        }
    }

    /// The character that stands for the operator in text.
    pub open spec fn spec_symbol(self) -> char {
        match self {
            Op::Add => '+',
            Op::Sub => '-',
            Op::Mul => '*',
            Op::Div => '/',
            Op::Mod => '%',
            Op::Pow => '^',
        }
    }

    /// The operator that a character stands for, if any.
    pub open spec fn spec_from_symbol(c: char) -> Option<Op> {
        if c == '+' {
            Some(Op::Add)
        } else if c == '-' {
            Some(Op::Sub)
        } else if c == '*' {
            Some(Op::Mul)
        } else if c == '/' {
            Some(Op::Div)
        } else if c == '%' {
            Some(Op::Mod)
        } else if c == '^' {
            Some(Op::Pow)
        } else {
            None
        }
    }

    pub fn tier(self) -> (t: u8)
        ensures
            t == self.spec_tier(),
            t < TIERS,
    {
        match self {
            Op::Pow => 0,
            Op::Mod | Op::Div | Op::Mul => 1,
            Op::Sub | Op::Add => 2,
        }
    }

    #[verifier::when_used_as_spec(spec_symbol)]
    pub fn symbol(self) -> (c: char)
        ensures
            c == self.spec_symbol(),
    {
        match self {
            Op::Add => '+',
            Op::Sub => '-',
            Op::Mul => '*',
            Op::Div => '/',
            Op::Mod => '%',
            Op::Pow => '^',
        }
    }

    /// The text of the operator: its symbol alone.
    pub fn text(self) -> (s: String)
        ensures
            s@ == seq![self.spec_symbol()],
    {
        let mut s = String::new();
        s.push(self.symbol());
        s
    }

    #[verifier::when_used_as_spec(spec_from_symbol)]
    pub fn from_symbol(c: char) -> (r: Option<Op>)
        ensures
            r == Op::spec_from_symbol(c),
    {
        if c == '+' {
            Some(Op::Add)
        } else if c == '-' {
            Some(Op::Sub)
        } else if c == '*' {
            Some(Op::Mul)
        } else if c == '/' {
            Some(Op::Div)
        } else if c == '%' {
            Some(Op::Mod)
        } else if c == '^' {
            Some(Op::Pow)
        } else {
            None
        }
    }
}

} // verus!
