//! Classifying cleaned source lines: label declarations `(NAME)`, address
//! instructions `@value`, and compute instructions `dest=comp;jump`.

use vstd::prelude::*;

use crate::bytes::{
    digit_byte, idx_of, is_digit, is_number, is_symbol_byte, is_symbol_name, number_value, symbol_byte, AT,
    EQUALS, LPAREN, RPAREN, SEMI, SLASH,
};
use crate::hack::{comp_of, dest_of, jump_of, C_Command, Comp, Dest, Jump};

verus! {

/// A full-line comment: the trimmed line starts with `//`.
pub open spec fn is_comment(l: Seq<u8>) -> bool {
    l.len() >= 2 && l[0] == SLASH && l[1] == SLASH
}

/// A trimmed line that survives cleaning: non-empty and not a comment.
pub open spec fn keep_line(l: Seq<u8>) -> bool {
    l.len() > 0 && !is_comment(l)
}

/// The line opens a label declaration.
pub open spec fn is_label_start(l: Seq<u8>) -> bool {
    l.len() > 0 && l[0] == LPAREN
}

/// The text enclosed by the parentheses of a label declaration.
pub open spec fn label_name(l: Seq<u8>) -> Seq<u8> {
    l.subrange(1, l.len() - 1)
}

/// A well-formed label declaration: `(` + symbol name + `)`, nothing else.
pub open spec fn is_label_decl(l: Seq<u8>) -> bool {
    &&& l.len() >= 3
    &&& l[0] == LPAREN
    &&& l[l.len() - 1] == RPAREN
    &&& is_symbol_name(label_name(l))
}

/// The line opens an address instruction.
pub open spec fn is_addr_start(l: Seq<u8>) -> bool {
    l.len() > 0 && l[0] == AT
}

/// The operand of an address instruction: everything after `@`.
pub open spec fn addr_operand(l: Seq<u8>) -> Seq<u8> {
    l.drop_first()
}

/// The three raw tokens of a compute instruction: what stands before the
/// first `=` (empty if there is none), what stands between `=` and the first
/// `;`, and what stands after the `;` (empty if there is none).
pub open spec fn c_fields(l: Seq<u8>) -> (Seq<u8>, Seq<u8>, Seq<u8>) {
    let e = idx_of(l, EQUALS);
    let dstr = if e >= 0 {
        l.take(e)
    } else {
        Seq::<u8>::empty()
    };
    let rest = if e >= 0 {
        l.skip(e + 1)
    } else {
        l
    };
    let k = idx_of(rest, SEMI);
    let cstr = if k >= 0 {
        rest.take(k)
    } else {
        rest
    };
    let jstr = if k >= 0 {
        rest.skip(k + 1)
    } else {
        Seq::<u8>::empty()
    };
    (dstr, cstr, jstr)
}

/// The classified compute instruction written as `l`, if every token names a
/// mnemonic of its field.
pub open spec fn parse_c(l: Seq<u8>) -> Option<C_Command> {
    let (dstr, cstr, jstr) = c_fields(l);
    match (dest_of(dstr), comp_of(cstr), jump_of(jstr)) {
        (Some(dest), Some(comp), Some(jump)) => Some(C_Command { dest, comp, jump }),
        _ => None,
    }
}

/// Whether `s` is a syntactically valid symbol name.
pub fn check_symbol_name(s: &[u8]) -> (r: bool)
    ensures
        r == is_symbol_name(s@),
{
    let n: usize = s.len();
    if n == 0 {
        return false;
    }
    if digit_byte(s[0]) {
        return false;
    }
    let mut i: usize = 0;
    while i < n
        invariant
            0 <= i <= n,
            n == s@.len(),
            forall|k: int| 0 <= k < i ==> is_symbol_byte(#[trigger] s@[k]),
        decreases n - i,
    {
        if !symbol_byte(s[i]) {
            return false;
        }
        i = i + 1;
    }
    true
}

/// Whether `s` is a syntactically valid decimal literal.
pub fn check_number(s: &[u8]) -> (r: bool)
    ensures
        r == is_number(s@),
{
    let n: usize = s.len();
    if n == 0 {
        return false;
    }
    let mut i: usize = 0;
    while i < n
        invariant
            0 <= i <= n,
            n == s@.len(),
            forall|k: int| 0 <= k < i ==> is_digit(#[trigger] s@[k]),
        decreases n - i,
    {
        if !digit_byte(s[i]) {
            return false;
        }
        i = i + 1;
    }
    true
}

/// The label name of a well-formed label declaration, or nothing if the line
/// is malformed.
pub fn parse_label(line: &[u8]) -> (r: Option<Vec<u8>>)
    ensures
        match r {
            Some(name) => is_label_decl(line@) && name@ == label_name(line@),
            None => !is_label_decl(line@),
        },
{
    let n: usize = line.len();
    if n < 3 {
        return None;
    }
    if line[0] != LPAREN || line[n - 1] != RPAREN {
        return None;
    }
    let inner: &[u8] = vstd::slice::slice_subrange(line, 1, n - 1);
    if check_symbol_name(inner) {
        proof {
            assert(inner@ =~= label_name(line@));
        }
        Some(vstd::slice::slice_to_vec(inner))
    } else {
        proof {
            assert(inner@ =~= label_name(line@));
        }
        None
    }
}

/// Digits only ever extend the value: the value of a prefix never exceeds the
/// value of the whole literal.
proof fn lemma_number_value_mono(s: Seq<u8>, i: int)
    requires
        0 <= i <= s.len(),
        forall|k: int| 0 <= k < s.len() ==> is_digit(#[trigger] s[k]),
    ensures
        number_value(s.take(i)) <= number_value(s),
    decreases s.len() - i,
{
    if i < s.len() {
        lemma_number_value_mono(s, i + 1);
        assert(s.take(i + 1).drop_last() =~= s.take(i));
        assert(s.take(i + 1).last() == s[i]);
        assert(number_value(s.take(i + 1)) == number_value(s.take(i)) * 10 + (s[i] - 48));
    } else {
        assert(s.take(i) =~= s);
    }
}

/// The value of a decimal literal, if the text is one and the value fits the
/// 15-bit address range.
pub fn parse_number(s: &[u8]) -> (r: Option<u16>)
    ensures
        match r {
            Some(v) => is_number(s@) && number_value(s@) == v && v <= 32767,
            None => !is_number(s@) || number_value(s@) > 32767,
        },
{
    let n: usize = s.len();
    if n == 0 {
        return None;
    }
    let mut acc: u32 = 0;
    let mut i: usize = 0;
    while i < n
        invariant
            0 <= i <= n,
            n == s@.len(),
            forall|k: int| 0 <= k < i ==> is_digit(#[trigger] s@[k]),
            acc == number_value(s@.take(i as int)),
            acc <= 32767,
        decreases n - i,
    {
        if !digit_byte(s[i]) {
            return None;
        }
        let d: u32 = (s[i] - 48) as u32;
        proof {
            assert(s@.take(i as int + 1).drop_last() =~= s@.take(i as int));
            assert(s@.take(i as int + 1).last() == s@[i as int]);
        }
        acc = acc * 10 + d;
        i = i + 1;
        if acc > 32767 {
            proof {
                if is_number(s@) {
                    lemma_number_value_mono(s@, i as int);
                }
            }
            return None;
        }
    }
    proof {
        assert(s@.take(n as int) =~= s@);
    }
    Some(acc as u16)
}

/// Classify a compute instruction, or nothing if some token matches no
/// mnemonic of its field.
pub fn parse_c_command(line: &[u8]) -> (r: Option<C_Command>)
    ensures
        r == parse_c(line@),
{
    let n: usize = line.len();
    let (dstr, rest): (&[u8], &[u8]) = match crate::bytes::find_byte(line, EQUALS) {
        Some(e) => (
            vstd::slice::slice_subrange(line, 0, e),
            vstd::slice::slice_subrange(line, e + 1, n),
        ),
        None => (vstd::slice::slice_subrange(line, 0, 0), line),
    };
    let m: usize = rest.len();
    let (cstr, jstr): (&[u8], &[u8]) = match crate::bytes::find_byte(rest, SEMI) {
        Some(k) => (
            vstd::slice::slice_subrange(rest, 0, k),
            vstd::slice::slice_subrange(rest, k + 1, m),
        ),
        None => (rest, vstd::slice::slice_subrange(rest, 0, 0)),
    };
    proof {
        let (ds, cs, js) = c_fields(line@);
        assert(dstr@ =~= ds);
        assert(cstr@ =~= cs);
        assert(jstr@ =~= js);
    }
    let dest: Option<Dest> = Dest::from_bytes(dstr);
    let comp: Option<Comp> = Comp::from_bytes(cstr);
    let jump: Option<Jump> = Jump::from_bytes(jstr);
    match (dest, comp, jump) {
        (Some(dest), Some(comp), Some(jump)) => Some(C_Command::new(dest, comp, jump)),
        _ => None,
    }
}

} // verus!
