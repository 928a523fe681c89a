//! The per-line work of the three passes.
//!
//! The label pass binds each well-formed label declaration to the current
//! instruction index and counts every other line as one instruction slot.
//! The variable pass allocates the next free data-memory address to each
//! undefined symbolic operand of an address instruction. The translation
//! pass renders every non-label line as one 16-character word.

use vstd::prelude::*;

use crate::bytes::{is_number, is_symbol_name, number_value, AT, LPAREN};
use crate::encode::{a_command_bits, c_command_bits, translate_a_value, translate_c_command};
use crate::parse::{
    addr_operand, check_number, check_symbol_name, is_addr_start, is_label_decl, is_label_start,
    label_name, parse_c, parse_c_command, parse_label, parse_number,
};
use crate::table::{tbl_contains, tbl_define, tbl_lookup, SymbolTable, TableModel};

verus! {

/// Why a line was rejected: it matches no instruction form (or a token of a
/// compute instruction matches no mnemonic), its symbol stayed undefined
/// through both passes, or its address does not fit the 15-bit range.
#[derive(Clone, Copy, Debug, PartialEq, Eq, Structural)]
pub enum ErrorKind {
    Classification,
    Resolution,
    Range,
}

/// The label pass on one cleaned line: table and instruction counter after
/// the line, or the rejection.
pub open spec fn fp_line(l: Seq<u8>, n: int, t: TableModel) -> Result<(TableModel, int), ErrorKind> {
    if is_label_start(l) {
        if is_label_decl(l) {
            Ok((tbl_define(t, label_name(l), n), n))
        } else {
            Err(ErrorKind::Classification)
        }
    } else {
        Ok((t, n + 1))
    }
}

/// The variable pass on one cleaned line: table and allocation watermark
/// after the line, or the rejection.
pub open spec fn sp_line(l: Seq<u8>, m: int, t: TableModel) -> Result<(TableModel, int), ErrorKind> {
    if is_addr_start(l) {
        let op = addr_operand(l);
        if is_number(op) {
            Ok((t, m))
        } else if is_symbol_name(op) {
            if tbl_contains(t, op) {
                Ok((t, m))
            } else {
                Ok((t.push((op, m + 1)), m + 1))
            }
        } else {
            Err(ErrorKind::Classification)
        }
    } else {
        Ok((t, m))
    }
}

/// The translation of one cleaned non-label line against a resolved table:
/// the 16-character word, or the rejection.
pub open spec fn enc_line(l: Seq<u8>, t: TableModel) -> Result<Seq<u8>, ErrorKind> {
    if is_addr_start(l) {
        let op = addr_operand(l);
        if is_number(op) {
            if number_value(op) <= 32767 {
                Ok(a_command_bits(number_value(op) as u16))
            } else {
                Err(ErrorKind::Range)
            }
        } else {
            match tbl_lookup(t, op) {
                Some(a) => if 0 <= a <= 32767 {
                    Ok(a_command_bits(a as u16))
                } else {
                    Err(ErrorKind::Range)
                },
                None => Err(ErrorKind::Resolution),
            }
        }
    } else {
        match parse_c(l) {
            Some(c) => Ok(c_command_bits(c)),
            None => Err(ErrorKind::Classification),
        }
    }
}

/// One step of the label pass: bind a label declaration to the current
/// instruction index (the first declaration wins), or count an instruction.
pub fn first_pass(input: &[u8], line_num: &mut usize, table: &mut SymbolTable) -> (r: Result<
    (),
    ErrorKind,
>)
    requires
        old(table).wf(),
        *old(line_num) < usize::MAX,
    ensures
        final(table).wf(),
        match r {
            Ok(_) => fp_line(input@, *old(line_num) as int, old(table)@) == Ok::<_, ErrorKind>(
                (final(table)@, *final(line_num) as int),
            ),
            Err(k) => {
                &&& fp_line(input@, *old(line_num) as int, old(table)@) == Err::<
                    (TableModel, int),
                    _,
                >(k)
                &&& final(table)@ == old(table)@
                &&& *final(line_num) == *old(line_num)
            },
        },
        *final(line_num) <= *old(line_num) + 1,
{
    if input.len() > 0 && input[0] == LPAREN {
        match parse_label(input) {
            Some(name) => {
                table.define_if_absent(name.as_slice(), *line_num);
                Ok(())
            },
            None => Err(ErrorKind::Classification),
        }
    } else {
        *line_num = *line_num + 1;
        Ok(())
    }
}

/// One step of the variable pass: allocate the next data-memory address to a
/// still-undefined symbolic operand of an address instruction.
pub fn second_pass(input: &[u8], mem_num: &mut usize, table: &mut SymbolTable) -> (r: Result<
    (),
    ErrorKind,
>)
    requires
        old(table).wf(),
        *old(mem_num) < usize::MAX,
    ensures
        final(table).wf(),
        match r {
            Ok(_) => sp_line(input@, *old(mem_num) as int, old(table)@) == Ok::<_, ErrorKind>(
                (final(table)@, *final(mem_num) as int),
            ),
            Err(k) => {
                &&& sp_line(input@, *old(mem_num) as int, old(table)@) == Err::<
                    (TableModel, int),
                    _,
                >(k)
                &&& final(table)@ == old(table)@
                &&& *final(mem_num) == *old(mem_num)
            },
        },
        *final(mem_num) <= *old(mem_num) + 1,
{
    if input.len() > 0 && input[0] == AT {
        let op: &[u8] = vstd::slice::slice_subrange(input, 1, input.len());
        proof {
            assert(op@ =~= addr_operand(input@));
        }
        if check_number(op) {
            Ok(())
        } else if check_symbol_name(op) {
            match table.lookup(op) {
                Some(_) => {
                    proof {
                        crate::table::lemma_tbl_lookup_contains(table@, op@);
                    }
                    Ok(())
                },
                None => {
                    proof {
                        crate::table::lemma_tbl_lookup_contains(table@, op@);
                    }
                    *mem_num = *mem_num + 1;
                    table.define_if_absent(op, *mem_num);
                    Ok(())
                },
            }
        } else {
            Err(ErrorKind::Classification)
        }
    } else {
        Ok(())
    }
}

/// Translate the operand of an address instruction: a literal stands for
/// itself, a symbol for its address in the table; either must fit 15 bits.
pub fn translate_a_command(input: &[u8], table: &SymbolTable) -> (r: Result<Vec<u8>, ErrorKind>)
    requires
        is_addr_start(input@),
    ensures
        match r {
            Ok(word) => enc_line(input@, table@) == Ok::<_, ErrorKind>(word@),
            Err(k) => enc_line(input@, table@) == Err::<Seq<u8>, _>(k),
        },
{
    let op: &[u8] = vstd::slice::slice_subrange(input, 1, input.len());
    proof {
        assert(op@ =~= addr_operand(input@));
    }
    if check_number(op) {
        match parse_number(op) {
            Some(v) => Ok(translate_a_value(v)),
            None => Err(ErrorKind::Range),
        }
    } else {
        match table.lookup(op) {
            Some(a) => {
                if a <= 32767 {
                    Ok(translate_a_value(a as u16))
                } else {
                    Err(ErrorKind::Range)
                }
            },
            None => Err(ErrorKind::Resolution),
        }
    }
}

/// Translate one cleaned non-label line into its 16-character word.
pub fn translate_line(input: &[u8], table: &SymbolTable) -> (r: Result<Vec<u8>, ErrorKind>)
    ensures
        match r {
            Ok(word) => enc_line(input@, table@) == Ok::<_, ErrorKind>(word@),
            Err(k) => enc_line(input@, table@) == Err::<Seq<u8>, _>(k),
        },
{
    if input.len() > 0 && input[0] == AT {
        translate_a_command(input, table)
    } else {
        match parse_c_command(input) {
            Some(c) => Ok(translate_c_command(c)),
            None => Err(ErrorKind::Classification),
        }
    }
}

} // verus!
