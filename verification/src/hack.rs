//! The instruction vocabulary of the Hack architecture: the three fields of a
//! compute instruction and their fixed mnemonic sets.

use vstd::prelude::*;

use crate::bytes::{AMP, BANG, DIG_0, DIG_1, LET_A, LET_D, LET_E, LET_G, LET_J, LET_L, LET_M, LET_N, LET_P, LET_Q, LET_T, MINUS, PIPE, PLUS};

verus! {

/// The `dest` field of a compute instruction: which registers receive the
/// computed value.
#[derive(Clone, Copy, Debug, PartialEq, Eq, Structural)]
pub enum Dest {
    Null,
    M,
    D,
    DM,
    A,
    AM,
    AD,
    ADM,
}

/// The `jump` field of a compute instruction: on which comparison outcome the
/// program jumps.
#[derive(Clone, Copy, Debug, PartialEq, Eq, Structural)]
pub enum Jump {
    Null,
    JGT,
    JEQ,
    JGE,
    JLT,
    JNE,
    JLE,
    JMP,
}

/// The `comp` field of a compute instruction: one of the 28 fixed ALU
/// operations.
#[derive(Clone, Copy, Debug, PartialEq, Eq, Structural)]
pub enum Comp {
    Zero,
    One,
    MinusOne,
    D,
    A,
    NotD,
    NotA,
    MinusD,
    MinusA,
    Dplus1,
    Aplus1,
    Dminus1,
    Aminus1,
    DplusA,
    DminusA,
    AminusD,
    DandA,
    DorA,
    M,
    NotM,
    Mplus1,
    Mminus1,
    DplusM,
    DminusM,
    MinusM,
    MminusD,
    DandM,
    DorM,
}

/// A classified compute instruction.
#[allow(non_camel_case_types)]
#[derive(Clone, Copy, Debug, PartialEq, Eq, Structural)]
pub struct C_Command {
    pub dest: Dest,
    pub comp: Comp,
    pub jump: Jump,
}

impl C_Command {
    pub fn new(dest: Dest, comp: Comp, jump: Jump) -> (r: Self)
        ensures
            r == (C_Command { dest, comp, jump }),
    {
        Self { dest, comp, jump }
    }
}

/// The `dest` mnemonic written as `s`, if any; the empty text means that the
/// field was omitted.
pub open spec fn dest_of(s: Seq<u8>) -> Option<Dest> {
    if s.len() == 0 {
        Some(Dest::Null)
    } else if s =~= seq![LET_M] {
        Some(Dest::M)
    } else if s =~= seq![LET_D] {
        Some(Dest::D)
    } else if s =~= seq![LET_D, LET_M] {
        Some(Dest::DM)
    } else if s =~= seq![LET_A] {
        Some(Dest::A)
    } else if s =~= seq![LET_A, LET_M] {
        Some(Dest::AM)
    } else if s =~= seq![LET_A, LET_D] {
        Some(Dest::AD)
    } else if s =~= seq![LET_A, LET_D, LET_M] {
        Some(Dest::ADM)
    } else {
        None
    }
}

/// The `jump` mnemonic written as `s`, if any; the empty text means that the
/// field was omitted.
pub open spec fn jump_of(s: Seq<u8>) -> Option<Jump> {
    if s.len() == 0 {
        Some(Jump::Null)
    } else if s =~= seq![LET_J, LET_G, LET_T] {
        Some(Jump::JGT)
    } else if s =~= seq![LET_J, LET_E, LET_Q] {
        Some(Jump::JEQ)
    } else if s =~= seq![LET_J, LET_G, LET_E] {
        Some(Jump::JGE)
    } else if s =~= seq![LET_J, LET_L, LET_T] {
        Some(Jump::JLT)
    } else if s =~= seq![LET_J, LET_N, LET_E] {
        Some(Jump::JNE)
    } else if s =~= seq![LET_J, LET_L, LET_E] {
        Some(Jump::JLE)
    } else if s =~= seq![LET_J, LET_M, LET_P] {
        Some(Jump::JMP)
    } else {
        None
    }
}

/// The `comp` mnemonic written as `s`, if any.
pub open spec fn comp_of(s: Seq<u8>) -> Option<Comp> {
    if s =~= seq![DIG_0] {
        Some(Comp::Zero)
    } else if s =~= seq![DIG_1] {
        Some(Comp::One)
    } else if s =~= seq![MINUS, DIG_1] {
        Some(Comp::MinusOne)
    } else if s =~= seq![LET_D] {
        Some(Comp::D)
    } else if s =~= seq![LET_A] {
        Some(Comp::A)
    } else if s =~= seq![BANG, LET_D] {
        Some(Comp::NotD)
    } else if s =~= seq![BANG, LET_A] {
        Some(Comp::NotA)
    } else if s =~= seq![MINUS, LET_D] {
        Some(Comp::MinusD)
    } else if s =~= seq![MINUS, LET_A] {
        Some(Comp::MinusA)
    } else if s =~= seq![LET_D, PLUS, DIG_1] {
        Some(Comp::Dplus1)
    } else if s =~= seq![LET_A, PLUS, DIG_1] {
        Some(Comp::Aplus1)
    } else if s =~= seq![LET_D, MINUS, DIG_1] {
        Some(Comp::Dminus1)
    } else if s =~= seq![LET_A, MINUS, DIG_1] {
        Some(Comp::Aminus1)
    } else if s =~= seq![LET_D, PLUS, LET_A] {
        Some(Comp::DplusA)
    } else if s =~= seq![LET_D, MINUS, LET_A] {
        Some(Comp::DminusA)
    } else if s =~= seq![LET_A, MINUS, LET_D] {
        Some(Comp::AminusD)
    } else if s =~= seq![LET_D, AMP, LET_A] {
        Some(Comp::DandA)
    } else if s =~= seq![LET_D, PIPE, LET_A] {
        Some(Comp::DorA)
    } else if s =~= seq![LET_M] {
        Some(Comp::M)
    } else if s =~= seq![BANG, LET_M] {
        Some(Comp::NotM)
    } else if s =~= seq![LET_M, PLUS, DIG_1] {
        Some(Comp::Mplus1)
    } else if s =~= seq![LET_M, MINUS, DIG_1] {
        Some(Comp::Mminus1)
    } else if s =~= seq![LET_D, PLUS, LET_M] {
        Some(Comp::DplusM)
    } else if s =~= seq![LET_D, MINUS, LET_M] {
        Some(Comp::DminusM)
    } else if s =~= seq![MINUS, LET_M] {
        Some(Comp::MinusM)
    } else if s =~= seq![LET_M, MINUS, LET_D] {
        Some(Comp::MminusD)
    } else if s =~= seq![LET_D, AMP, LET_M] {
        Some(Comp::DandM)
    } else if s =~= seq![LET_D, PIPE, LET_M] {
        Some(Comp::DorM)
    } else {
        None
    }
}

impl Dest {
    /// Classify a `dest` token.
    pub fn from_bytes(s: &[u8]) -> (r: Option<Dest>)
        ensures
            r == dest_of(s@),
    {
        let n: usize = s.len();
        if n == 0 {
            Some(Dest::Null)
        } else if n == 1 {
            let a: u8 = s[0];
            if a == LET_M {
                Some(Dest::M)
            } else if a == LET_D {
                Some(Dest::D)
            } else if a == LET_A {
                Some(Dest::A)
            } else {
                None
            }
        } else if n == 2 {
            let a: u8 = s[0];
            let b: u8 = s[1];
            if a == LET_D && b == LET_M {
                Some(Dest::DM)
            } else if a == LET_A && b == LET_M {
                Some(Dest::AM)
            } else if a == LET_A && b == LET_D {
                Some(Dest::AD)
            } else {
                None
            }
        } else if n == 3 {
            let a: u8 = s[0];
            let b: u8 = s[1];
            let c: u8 = s[2];
            if a == LET_A && b == LET_D && c == LET_M {
                Some(Dest::ADM)
            } else {
                None
            }
        } else {
            None
        }
    }
}

impl Jump {
    /// Classify a `jump` token.
    pub fn from_bytes(s: &[u8]) -> (r: Option<Jump>)
        ensures
            r == jump_of(s@),
    {
        let n: usize = s.len();
        if n == 0 {
            Some(Jump::Null)
        } else if n == 3 {
            let a: u8 = s[0];
            let b: u8 = s[1];
            let c: u8 = s[2];
            if a == LET_J && b == LET_G && c == LET_T {
                Some(Jump::JGT)
            } else if a == LET_J && b == LET_E && c == LET_Q {
                Some(Jump::JEQ)
            } else if a == LET_J && b == LET_G && c == LET_E {
                Some(Jump::JGE)
            } else if a == LET_J && b == LET_L && c == LET_T {
                Some(Jump::JLT)
            } else if a == LET_J && b == LET_N && c == LET_E {
                Some(Jump::JNE)
            } else if a == LET_J && b == LET_L && c == LET_E {
                Some(Jump::JLE)
            } else if a == LET_J && b == LET_M && c == LET_P {
                Some(Jump::JMP)
            } else {
                None
            }
        } else {
            None
        }
    }
}

impl Comp {
    /// Classify a `comp` token.
    pub fn from_bytes(s: &[u8]) -> (r: Option<Comp>)
        ensures
            r == comp_of(s@),
    {
        let n: usize = s.len();
        if n == 1 {
            let a: u8 = s[0];
            if a == DIG_0 {
                Some(Comp::Zero)
            } else if a == DIG_1 {
                Some(Comp::One)
            } else if a == LET_D {
                Some(Comp::D)
            } else if a == LET_A {
                Some(Comp::A)
            } else if a == LET_M {
                Some(Comp::M)
            } else {
                None
            }
        } else if n == 2 {
            let a: u8 = s[0];
            let b: u8 = s[1];
            if a == MINUS && b == DIG_1 {
                Some(Comp::MinusOne)
            } else if a == BANG && b == LET_D {
                Some(Comp::NotD)
            } else if a == BANG && b == LET_A {
                Some(Comp::NotA)
            } else if a == MINUS && b == LET_D {
                Some(Comp::MinusD)
            } else if a == MINUS && b == LET_A {
                Some(Comp::MinusA)
            } else if a == BANG && b == LET_M {
                Some(Comp::NotM)
            } else if a == MINUS && b == LET_M {
                Some(Comp::MinusM)
            } else {
                None
            }
        } else if n == 3 {
            let a: u8 = s[0];
            let b: u8 = s[1];
            let c: u8 = s[2];
            if a == LET_D && b == PLUS && c == DIG_1 {
                Some(Comp::Dplus1)
            } else if a == LET_A && b == PLUS && c == DIG_1 {
                Some(Comp::Aplus1)
            } else if a == LET_D && b == MINUS && c == DIG_1 {
                Some(Comp::Dminus1)
            } else if a == LET_A && b == MINUS && c == DIG_1 {
                Some(Comp::Aminus1)
            } else if a == LET_D && b == PLUS && c == LET_A {
                Some(Comp::DplusA)
            } else if a == LET_D && b == MINUS && c == LET_A {
                Some(Comp::DminusA)
            } else if a == LET_A && b == MINUS && c == LET_D {
                Some(Comp::AminusD)
            } else if a == LET_D && b == AMP && c == LET_A {
                Some(Comp::DandA)
            } else if a == LET_D && b == PIPE && c == LET_A {
                Some(Comp::DorA)
            } else if a == LET_M && b == PLUS && c == DIG_1 {
                Some(Comp::Mplus1)
            } else if a == LET_M && b == MINUS && c == DIG_1 {
                Some(Comp::Mminus1)
            } else if a == LET_D && b == PLUS && c == LET_M {
                Some(Comp::DplusM)
            } else if a == LET_D && b == MINUS && c == LET_M {
                Some(Comp::DminusM)
            } else if a == LET_M && b == MINUS && c == LET_D {
                Some(Comp::MminusD)
            } else if a == LET_D && b == AMP && c == LET_M {
                Some(Comp::DandM)
            } else if a == LET_D && b == PIPE && c == LET_M {
                Some(Comp::DorM)
            } else {
                None
            }
        } else {
            None
        }
    }
}

} // verus!
