//! Rendering classified instructions as 16-character binary words.
//!
//! Every word is built from fixed field values: `111` + comp(7) + dest(3) +
//! jump(3) for a compute instruction, `0` + value(15) for an address
//! instruction. The textual form is produced by `bits_of`, which renders the
//! low `width` bits of a value most significant first.

use vstd::prelude::*;

use crate::bytes::{DIG_0, DIG_1};
use crate::hack::{C_Command, Comp, Dest, Jump};

verus! {

/// The low `width` bits of `v` as `0`/`1` characters, most significant first.
pub open spec fn bits_of(v: u16, width: nat) -> Seq<u8>
    decreases width,
{
    if width == 0 {
        Seq::empty()
    } else {
        bits_of(v / 2, (width - 1) as nat) + seq![if v % 2 == 1 {
            DIG_1
        } else {
            DIG_0
        }]
    }
}

/// A rendered field has its stated width and holds only `0`/`1` characters.
pub proof fn lemma_bits_of_shape(v: u16, width: nat)
    ensures
        bits_of(v, width).len() == width,
        forall|i: int|
            0 <= i < width ==> (#[trigger] bits_of(v, width)[i] == DIG_0 || bits_of(v, width)[i]
                == DIG_1),
    decreases width,
{
    if width > 0 {
        lemma_bits_of_shape(v / 2, (width - 1) as nat);
    }
}

/// The 7-bit ALU code of a `comp` mnemonic (the `a` bit followed by the six
/// control bits).
pub open spec fn comp_val(c: Comp) -> u16 {
    match c {
        Comp::Zero => 0b0101010,
        Comp::One => 0b0111111,
        Comp::MinusOne => 0b0111010,
        Comp::D => 0b0001100,
        Comp::A => 0b0110000,
        Comp::NotD => 0b0001101,
        Comp::NotA => 0b0110001,
        Comp::MinusD => 0b0001111,
        Comp::MinusA => 0b0110011,
        Comp::Dplus1 => 0b0011111,
        Comp::Aplus1 => 0b0110111,
        Comp::Dminus1 => 0b0001110,
        Comp::Aminus1 => 0b0110010,
        Comp::DplusA => 0b0000010,
        Comp::DminusA => 0b0010011,
        Comp::AminusD => 0b0000111,
        Comp::DandA => 0b0000000,
        Comp::DorA => 0b0010101,
        Comp::M => 0b1110000,
        Comp::NotM => 0b1110001,
        Comp::Mplus1 => 0b1110111,
        Comp::Mminus1 => 0b1110010,
        Comp::DplusM => 0b1000010,
        Comp::DminusM => 0b1010011,
        Comp::MinusM => 0b1110011,
        Comp::MminusD => 0b1000111,
        Comp::DandM => 0b1000000,
        Comp::DorM => 0b1010101,
    }
}

/// The 3-bit code of a `dest` mnemonic.
pub open spec fn dest_val(d: Dest) -> u16 {
    match d {
        Dest::Null => 0b000,
        Dest::M => 0b001,
        Dest::D => 0b010,
        Dest::DM => 0b011,
        Dest::A => 0b100,
        Dest::AM => 0b101,
        Dest::AD => 0b110,
        Dest::ADM => 0b111,
    }
}

/// The 3-bit code of a `jump` mnemonic.
pub open spec fn jump_val(j: Jump) -> u16 {
    match j {
        Jump::Null => 0b000,
        Jump::JGT => 0b001,
        Jump::JEQ => 0b010,
        Jump::JGE => 0b011,
        Jump::JLT => 0b100,
        Jump::JNE => 0b101,
        Jump::JLE => 0b110,
        Jump::JMP => 0b111,
    }
}

/// The rendered `comp` field.
pub open spec fn comp_bits(c: Comp) -> Seq<u8> {
    bits_of(comp_val(c), 7)
}

/// The rendered `dest` field.
pub open spec fn dest_bits(d: Dest) -> Seq<u8> {
    bits_of(dest_val(d), 3)
}

/// The rendered `jump` field.
pub open spec fn jump_bits(j: Jump) -> Seq<u8> {
    bits_of(jump_val(j), 3)
}

/// The full 16-character word of a compute instruction.
pub open spec fn c_command_bits(c: C_Command) -> Seq<u8> {
    seq![DIG_1, DIG_1, DIG_1] + comp_bits(c.comp) + dest_bits(c.dest) + jump_bits(c.jump)
}

/// The full 16-character word of an address instruction with resolved value
/// `v`; for `v <= 32767` the leading opcode character is `0`.
pub open spec fn a_command_bits(v: u16) -> Seq<u8> {
    bits_of(v, 16)
}

/// Render the low `width` bits of `v`, most significant first.
pub fn render_bits(v: u16, width: u16) -> (r: Vec<u8>)
    ensures
        r@ == bits_of(v, width as nat),
    decreases width,
{
    if width == 0 {
        let r: Vec<u8> = Vec::new();
        proof {
            assert(r@ =~= bits_of(v, 0));
        }
        r
    } else {
        let mut r: Vec<u8> = render_bits(v / 2, width - 1);
        r.push(if v % 2 == 1 {
            DIG_1
        } else {
            DIG_0
        });
        r
    }
}

/// The fixed 7-bit pattern of a `comp` mnemonic, as text.
pub fn translate_comp(comp: Comp) -> (r: Vec<u8>)
    ensures
        r@ == comp_bits(comp),
{
    let v: u16 = match comp {
        Comp::Zero => 0b0101010,
        Comp::One => 0b0111111,
        Comp::MinusOne => 0b0111010,
        Comp::D => 0b0001100,
        Comp::A => 0b0110000,
        Comp::NotD => 0b0001101,
        Comp::NotA => 0b0110001,
        Comp::MinusD => 0b0001111,
        Comp::MinusA => 0b0110011,
        Comp::Dplus1 => 0b0011111,
        Comp::Aplus1 => 0b0110111,
        Comp::Dminus1 => 0b0001110,
        Comp::Aminus1 => 0b0110010,
        Comp::DplusA => 0b0000010,
        Comp::DminusA => 0b0010011,
        Comp::AminusD => 0b0000111,
        Comp::DandA => 0b0000000,
        Comp::DorA => 0b0010101,
        Comp::M => 0b1110000,
        Comp::NotM => 0b1110001,
        Comp::Mplus1 => 0b1110111,
        Comp::Mminus1 => 0b1110010,
        Comp::DplusM => 0b1000010,
        Comp::DminusM => 0b1010011,
        Comp::MinusM => 0b1110011,
        Comp::MminusD => 0b1000111,
        Comp::DandM => 0b1000000,
        Comp::DorM => 0b1010101,
    };
    render_bits(v, 7)
}

/// The fixed 3-bit pattern of a `dest` mnemonic, as text.
pub fn translate_dest(dest: Dest) -> (r: Vec<u8>)
    ensures
        r@ == dest_bits(dest),
{
    let v: u16 = match dest {
        Dest::Null => 0b000,
        Dest::M => 0b001,
        Dest::D => 0b010,
        Dest::DM => 0b011,
        Dest::A => 0b100,
        Dest::AM => 0b101,
        Dest::AD => 0b110,
        Dest::ADM => 0b111,
    };
    render_bits(v, 3)
}

/// The fixed 3-bit pattern of a `jump` mnemonic, as text.
pub fn translate_jump(jump: Jump) -> (r: Vec<u8>)
    ensures
        r@ == jump_bits(jump),
{
    let v: u16 = match jump {
        Jump::Null => 0b000,
        Jump::JGT => 0b001,
        Jump::JEQ => 0b010,
        Jump::JGE => 0b011,
        Jump::JLT => 0b100,
        Jump::JNE => 0b101,
        Jump::JLE => 0b110,
        Jump::JMP => 0b111,
    };
    render_bits(v, 3)
}

/// The 16-character word of a classified compute instruction:
/// `111` + comp + dest + jump.
pub fn translate_c_command(c: C_Command) -> (r: Vec<u8>)
    ensures
        r@ == c_command_bits(c),
{
    let mut out: Vec<u8> = Vec::new();
    out.push(DIG_1);
    out.push(DIG_1);
    out.push(DIG_1);
    let mut comp: Vec<u8> = translate_comp(c.comp);
    let mut dest: Vec<u8> = translate_dest(c.dest);
    let mut jump: Vec<u8> = translate_jump(c.jump);
    out.append(&mut comp);
    out.append(&mut dest);
    out.append(&mut jump);
    proof {
        assert(out@ =~= c_command_bits(c));
    }
    out
}

/// The 16-character word of an address instruction whose resolved value is
/// `v`.
pub fn translate_a_value(v: u16) -> (r: Vec<u8>)
    requires
        v <= 32767,
    ensures
        r@ == a_command_bits(v),
{
    render_bits(v, 16)
}

/// A compute word has length 16 and holds only `0`/`1` characters.
pub proof fn lemma_c_command_bits_shape(c: C_Command)
    ensures
        c_command_bits(c).len() == 16,
        forall|i: int|
            0 <= i < 16 ==> (#[trigger] c_command_bits(c)[i] == DIG_0 || c_command_bits(c)[i]
                == DIG_1),
{
    lemma_bits_of_shape(comp_val(c.comp), 7);
    lemma_bits_of_shape(dest_val(c.dest), 3);
    lemma_bits_of_shape(jump_val(c.jump), 3);
}

/// An address word has length 16 and holds only `0`/`1` characters.
pub proof fn lemma_a_command_bits_shape(v: u16)
    ensures
        a_command_bits(v).len() == 16,
        forall|i: int|
            0 <= i < 16 ==> (#[trigger] a_command_bits(v)[i] == DIG_0 || a_command_bits(v)[i]
                == DIG_1),
{
    lemma_bits_of_shape(v, 16);
}

} // verus!
