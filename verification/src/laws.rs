//! The global guarantees of the assembler, proved once and for all over the
//! pass specifications: predefined bindings are immutable, variables are
//! allocated consecutively from 16 in order of first appearance, a label is
//! bound to the index of the instruction it precedes (the first declaration
//! wins), an undefined symbol never causes a resolution error, and every
//! output word is sixteen `0`/`1` characters.

use vstd::prelude::*;

use crate::bytes::{split_lines, DIG_0, DIG_1};
use crate::driver::{clean_items, enc_items, fp_items, sp_items, spec_assemble, ErrorModel};
use crate::encode::{lemma_a_command_bits_shape, lemma_c_command_bits_shape};
use crate::parse::{addr_operand, is_addr_start, is_label_decl, is_label_start, label_name};
use crate::passes::{enc_line, fp_line, sp_line, ErrorKind};
use crate::table::{
    lemma_tbl_contains_push, lemma_tbl_define_wf, lemma_tbl_lookup_at, lemma_tbl_lookup_contains,
    lemma_tbl_lookup_push, predefined_table, tbl_contains, tbl_define, tbl_lookup, tbl_wf,
    TableModel,
};

verus! {

/// The label pass never unbinds or rebinds a name that is already bound.
pub proof fn lemma_fp_preserves_binding(
    items: Seq<(Seq<u8>, int)>,
    t: TableModel,
    n: int,
    name: Seq<u8>,
)
    requires
        tbl_lookup(t, name) is Some,
    ensures
        match fp_items(items, t, n) {
            Ok(t1) => tbl_lookup(t1, name) == tbl_lookup(t, name),
            Err(_) => true,
        },
    decreases items.len(),
{
    if items.len() > 0 {
        let l = items[0].0;
        if is_label_start(l) && is_label_decl(l) {
            let t2 = tbl_define(t, label_name(l), n);
            if !tbl_contains(t, label_name(l)) {
                lemma_tbl_lookup_push(t, (label_name(l), n), name);
            }
            lemma_fp_preserves_binding(items.drop_first(), t2, n, name);
        } else if !is_label_start(l) {
            lemma_fp_preserves_binding(items.drop_first(), t, n + 1, name);
        }
    }
}

/// The variable pass never unbinds or rebinds a name that is already bound.
pub proof fn lemma_sp_preserves_binding(
    items: Seq<(Seq<u8>, int)>,
    t: TableModel,
    m: int,
    name: Seq<u8>,
)
    requires
        tbl_lookup(t, name) is Some,
    ensures
        match sp_items(items, t, m) {
            Ok(t1) => tbl_lookup(t1, name) == tbl_lookup(t, name),
            Err(_) => true,
        },
    decreases items.len(),
{
    if items.len() > 0 {
        match sp_line(items[0].0, m, t) {
            Ok((t2, m2)) => {
                if t2 != t {
                    let op = addr_operand(items[0].0);
                    lemma_tbl_lookup_push(t, (op, m + 1), name);
                }
                lemma_sp_preserves_binding(items.drop_first(), t2, m2, name);
            },
            Err(_) => {},
        }
    }
}

/// The label pass keeps the table free of duplicate names.
pub proof fn lemma_fp_wf(items: Seq<(Seq<u8>, int)>, t: TableModel, n: int)
    requires
        tbl_wf(t),
    ensures
        match fp_items(items, t, n) {
            Ok(t1) => tbl_wf(t1),
            Err(_) => true,
        },
    decreases items.len(),
{
    if items.len() > 0 {
        let l = items[0].0;
        if is_label_start(l) && is_label_decl(l) {
            lemma_tbl_define_wf(t, label_name(l), n);
            lemma_fp_wf(items.drop_first(), tbl_define(t, label_name(l), n), n);
        } else if !is_label_start(l) {
            lemma_fp_wf(items.drop_first(), t, n + 1);
        }
    }
}

/// The variable pass only appends: what it leaves behind is the old table
/// followed by the fresh variables in order of first appearance, the first at
/// address `m + 1`, each next one higher, with no name bound twice; and in
/// the final table each fresh variable resolves to its allocated address.
pub proof fn lemma_sp_allocates_in_order(items: Seq<(Seq<u8>, int)>, t: TableModel, m: int)
    requires
        tbl_wf(t),
    ensures
        match sp_items(items, t, m) {
            Ok(t2) => {
                &&& t2.len() >= t.len()
                &&& t2.take(t.len() as int) == t
                &&& forall|k: int|
                    t.len() <= k < t2.len() ==> (#[trigger] t2[k]).1 == m + 1 + (k - t.len())
                &&& tbl_wf(t2)
                &&& forall|k: int|
                    t.len() <= k < t2.len() ==> tbl_lookup(t2, (#[trigger] t2[k]).0) == Some(
                        t2[k].1,
                    )
            },
            Err(_) => true,
        },
    decreases items.len(),
{
    if items.len() == 0 {
        assert(t.take(t.len() as int) =~~= t);
        if sp_items(items, t, m) is Ok {
            let t2 = sp_items(items, t, m)->Ok_0;
            assert forall|k: int|
                t.len() <= k < t2.len() implies tbl_lookup(t2, (#[trigger] t2[k]).0) == Some(
                t2[k].1,
            ) by {
                lemma_tbl_lookup_at(t2, k);
            }
        }
    } else {
        let l = items[0].0;
        match sp_line(l, m, t) {
            Ok((tn, mn)) => {
                if is_addr_start(l) && !crate::bytes::is_number(addr_operand(l))
                    && crate::bytes::is_symbol_name(addr_operand(l)) && !tbl_contains(
                    t,
                    addr_operand(l),
                ) {
                    let op = addr_operand(l);
                    assert(tn == t.push((op, m + 1)) && mn == m + 1);
                    assert(tbl_define(t, op, m + 1) == tn);
                    lemma_tbl_define_wf(t, op, m + 1);
                    lemma_sp_allocates_in_order(items.drop_first(), tn, m + 1);
                    match sp_items(items.drop_first(), tn, m + 1) {
                        Ok(t2) => {
                            assert(t2.take(tn.len() as int) == tn);
                            assert forall|k: int| 0 <= k < t.len() implies t2[k] == t[k] by {
                                assert(t2.take(tn.len() as int)[k] == t2[k]);
                                assert(tn[k] == t[k]);
                            }
                            assert(t2.take(t.len() as int) =~~= t);
                            assert forall|k: int|
                                t.len() <= k < t2.len() implies (#[trigger] t2[k]).1 == m + 1 + (k
                                - t.len()) by {
                                if k < tn.len() {
                                    assert(t2.take(tn.len() as int)[k] == t2[k]);
                                    assert(t2[k] == tn[k]);
                                    assert(tn[k as int] == (op, m + 1));
                                }
                            }
                            assert forall|k: int|
                                t.len() <= k < t2.len() implies tbl_lookup(
                                t2,
                                (#[trigger] t2[k]).0,
                            ) == Some(t2[k].1) by {
                                lemma_tbl_lookup_at(t2, k);
                            }
                        },
                        Err(_) => {},
                    }
                } else {
                    assert(tn == t && mn == m);
                    lemma_sp_allocates_in_order(items.drop_first(), t, m);
                }
            },
            Err(_) => {},
        }
    }
}

/// Distinct undefined symbols used as address-instruction operands are
/// allocated the data-memory addresses 16, 17, 18, ... in order of first
/// appearance: the N-th fresh symbol (counting from 1) resolves to
/// `16 + N - 1`.
pub proof fn lemma_variables_from_sixteen(src: Seq<u8>)
    ensures
        ({
            let items = clean_items(split_lines(src), 1);
            match fp_items(items, predefined_table(), 0) {
                Ok(t1) => match sp_items(items, t1, 15) {
                    Ok(t2) => {
                        &&& t1.len() <= t2.len()
                        &&& t2.take(t1.len() as int) == t1
                        &&& forall|k: int|
                            t1.len() <= k < t2.len() ==> (#[trigger] t2[k]).1 == 16 + (k
                                - t1.len())
                        &&& forall|k: int|
                            t1.len() <= k < t2.len() ==> tbl_lookup(t2, (#[trigger] t2[k]).0)
                                == Some(16 + (k - t1.len()))
                    },
                    Err(_) => true,
                },
                Err(_) => true,
            }
        }),
{
    let items = clean_items(split_lines(src), 1);
    crate::table::lemma_predefined_wf();
    lemma_fp_wf(items, predefined_table(), 0);
    match fp_items(items, predefined_table(), 0) {
        Ok(t1) => {
            lemma_sp_allocates_in_order(items, t1, 15);
        },
        Err(_) => {},
    }
}

/// How many instruction slots a stretch of cleaned lines occupies: every
/// line but a label declaration counts as one.
pub open spec fn instr_count(items: Seq<(Seq<u8>, int)>) -> int
    decreases items.len(),
{
    if items.len() == 0 {
        0
    } else {
        (if is_label_start(items[0].0) {
            0int
        } else {
            1int
        }) + instr_count(items.drop_first())
    }
}

/// A label declaration is bound to the number of instructions standing
/// strictly before it, counted from `n`: label lines occupy no slot, every
/// other line one. The declaration at `j` must be the first of its name, and
/// the name must not be bound before the pass; later declarations of the
/// same name change nothing, so the first declaration wins.
pub proof fn lemma_label_binds_instruction_index(
    items: Seq<(Seq<u8>, int)>,
    t: TableModel,
    n: int,
    j: int,
)
    requires
        fp_items(items, t, n) is Ok,
        0 <= j < items.len(),
        is_label_decl(items[j].0),
        !tbl_contains(t, label_name(items[j].0)),
        forall|i: int|
            0 <= i < j ==> !(is_label_decl((#[trigger] items[i]).0) && label_name(items[i].0)
                == label_name(items[j].0)),
    ensures
        tbl_lookup(fp_items(items, t, n)->Ok_0, label_name(items[j].0)) == Some(
            n + instr_count(items.take(j)),
        ),
    decreases j,
{
    let name = label_name(items[j].0);
    let l0 = items[0].0;
    let rest = items.drop_first();
    if j == 0 {
        let t2 = tbl_define(t, name, n);
        lemma_tbl_lookup_contains(t, name);
        lemma_tbl_lookup_push(t, (name, n), name);
        assert(tbl_lookup(t2, name) == Some(n));
        lemma_fp_preserves_binding(rest, t2, n, name);
        assert(items.take(0) =~~= Seq::<(Seq<u8>, int)>::empty());
    } else {
        assert(rest[j - 1] == items[j]);
        assert forall|i: int|
            0 <= i < j - 1 implies !(is_label_decl((#[trigger] rest[i]).0) && label_name(
            rest[i].0,
        ) == label_name(rest[j - 1].0)) by {
            assert(rest[i] == items[i + 1]);
        }
        assert(items.take(j)[0] == items[0]);
        assert(items.take(j).drop_first() =~~= rest.take(j - 1));
        if is_label_start(l0) {
            assert(is_label_decl(l0));
            let t2 = tbl_define(t, label_name(l0), n);
            assert(label_name(l0) != name);
            if !tbl_contains(t, label_name(l0)) {
                lemma_tbl_contains_push(t, (label_name(l0), n), name);
            }
            assert(!tbl_contains(t2, name));
            lemma_label_binds_instruction_index(rest, t2, n, j - 1);
            assert(instr_count(items.take(j)) == instr_count(rest.take(j - 1)));
        } else {
            lemma_label_binds_instruction_index(rest, t, n + 1, j - 1);
            assert(instr_count(items.take(j)) == 1 + instr_count(rest.take(j - 1)));
        }
    }
}

/// A label declared twice keeps the address bound at its first declaration:
/// the later declaration at `j2` has no effect on the binding.
pub proof fn lemma_duplicate_label_keeps_first(
    items: Seq<(Seq<u8>, int)>,
    t: TableModel,
    n: int,
    j: int,
    j2: int,
)
    requires
        fp_items(items, t, n) is Ok,
        0 <= j < j2 < items.len(),
        is_label_decl(items[j].0),
        is_label_decl(items[j2].0),
        label_name(items[j2].0) == label_name(items[j].0),
        !tbl_contains(t, label_name(items[j].0)),
        forall|i: int|
            0 <= i < j ==> !(is_label_decl((#[trigger] items[i]).0) && label_name(items[i].0)
                == label_name(items[j].0)),
    ensures
        tbl_lookup(fp_items(items, t, n)->Ok_0, label_name(items[j2].0)) == Some(
            n + instr_count(items.take(j)),
        ),
{
    lemma_label_binds_instruction_index(items, t, n, j);
}

/// Every predefined symbol keeps its fixed address through both passes,
/// whatever the program says: `lookup` after the passes returns what the
/// predefined table gave it.
pub proof fn lemma_predefined_fixed(src: Seq<u8>, name: Seq<u8>)
    requires
        tbl_lookup(predefined_table(), name) is Some,
    ensures
        ({
            let items = clean_items(split_lines(src), 1);
            match fp_items(items, predefined_table(), 0) {
                Ok(t1) => match sp_items(items, t1, 15) {
                    Ok(t2) => tbl_lookup(t2, name) == tbl_lookup(predefined_table(), name),
                    Err(_) => true,
                },
                Err(_) => true,
            }
        }),
{
    let items = clean_items(split_lines(src), 1);
    lemma_fp_preserves_binding(items, predefined_table(), 0, name);
    if fp_items(items, predefined_table(), 0) is Ok {
        let t1 = fp_items(items, predefined_table(), 0)->Ok_0;
        lemma_sp_preserves_binding(items, t1, 15, name);
    }
}

/// A well-shaped output word: exactly sixteen characters, each `0` or `1`.
pub open spec fn is_bit_word(w: Seq<u8>) -> bool {
    &&& w.len() == 16
    &&& forall|i: int| 0 <= i < 16 ==> w[i] == DIG_0 || #[trigger] w[i] == DIG_1
}

/// Whatever one line translates to is a well-shaped word.
proof fn lemma_enc_line_shape(l: Seq<u8>, t: TableModel)
    ensures
        match enc_line(l, t) {
            Ok(w) => is_bit_word(w),
            Err(_) => true,
        },
{
    if enc_line(l, t) is Ok {
        if is_addr_start(l) {
            let op = addr_operand(l);
            if crate::bytes::is_number(op) {
                lemma_a_command_bits_shape(crate::bytes::number_value(op) as u16);
            } else {
                match tbl_lookup(t, op) {
                    Some(a) => {
                        lemma_a_command_bits_shape(a as u16);
                    },
                    None => {},
                }
            }
        } else {
            match crate::parse::parse_c(l) {
                Some(c) => {
                    lemma_c_command_bits_shape(c);
                },
                None => {},
            }
        }
    }
}

/// Every word the translation pass emits is sixteen `0`/`1` characters.
pub proof fn lemma_output_words_shape(items: Seq<(Seq<u8>, int)>, t: TableModel)
    ensures
        match enc_items(items, t) {
            Ok(ws) => forall|j: int| 0 <= j < ws.len() ==> is_bit_word(#[trigger] ws[j]),
            Err(_) => true,
        },
    decreases items.len(),
{
    if items.len() > 0 {
        lemma_output_words_shape(items.drop_first(), t);
        if !is_label_start(items[0].0) {
            lemma_enc_line_shape(items[0].0, t);
            match enc_line(items[0].0, t) {
                Ok(w) => match enc_items(items.drop_first(), t) {
                    Ok(ws) => {
                        assert forall|j: int|
                            0 <= j < (seq![w] + ws).len() implies is_bit_word(
                            #[trigger] (seq![w] + ws)[j],
                        ) by {
                            if j > 0 {
                                assert((seq![w] + ws)[j] == ws[j - 1]);
                            }
                        }
                    },
                    Err(_) => {},
                },
                Err(_) => {},
            }
        }
    }
}

/// The output of a successful run is the words of the translation pass, each
/// sixteen `0`/`1` characters, joined with one line feed after each.
pub proof fn lemma_output_lines_shape(src: Seq<u8>)
    ensures
        ({
            let items = clean_items(split_lines(src), 1);
            match fp_items(items, predefined_table(), 0) {
                Ok(t1) => match sp_items(items, t1, 15) {
                    Ok(t2) => match enc_items(items, t2) {
                        Ok(ws) => {
                            &&& spec_assemble(src) == Ok::<Seq<u8>, ErrorModel>(
                                crate::driver::join_words(ws),
                            )
                            &&& forall|j: int| 0 <= j < ws.len() ==> is_bit_word(#[trigger] ws[j])
                        },
                        Err(_) => true,
                    },
                    Err(_) => true,
                },
                Err(_) => true,
            }
        }),
{
    let items = clean_items(split_lines(src), 1);
    match fp_items(items, predefined_table(), 0) {
        Ok(t1) => match sp_items(items, t1, 15) {
            Ok(t2) => {
                lemma_output_words_shape(items, t2);
            },
            Err(_) => {},
        },
        Err(_) => {},
    }
}

/// The label pass only ever rejects a line as unclassifiable.
proof fn lemma_fp_err_kind(items: Seq<(Seq<u8>, int)>, t: TableModel, n: int)
    ensures
        match fp_items(items, t, n) {
            Err(e) => e.0 == ErrorKind::Classification,
            Ok(_) => true,
        },
    decreases items.len(),
{
    if items.len() > 0 {
        match fp_line(items[0].0, n, t) {
            Ok((t2, n2)) => {
                lemma_fp_err_kind(items.drop_first(), t2, n2);
            },
            Err(_) => {},
        }
    }
}

/// The variable pass only ever rejects a line as unclassifiable.
proof fn lemma_sp_err_kind(items: Seq<(Seq<u8>, int)>, t: TableModel, m: int)
    ensures
        match sp_items(items, t, m) {
            Err(e) => e.0 == ErrorKind::Classification,
            Ok(_) => true,
        },
    decreases items.len(),
{
    if items.len() > 0 {
        match sp_line(items[0].0, m, t) {
            Ok((t2, m2)) => {
                lemma_sp_err_kind(items.drop_first(), t2, m2);
            },
            Err(_) => {},
        }
    }
}

/// The variable pass never removes a binding.
proof fn lemma_sp_contains_mono(items: Seq<(Seq<u8>, int)>, t: TableModel, m: int, x: Seq<u8>)
    requires
        tbl_contains(t, x),
    ensures
        match sp_items(items, t, m) {
            Ok(t2) => tbl_contains(t2, x),
            Err(_) => true,
        },
    decreases items.len(),
{
    if items.len() > 0 {
        match sp_line(items[0].0, m, t) {
            Ok((t2, m2)) => {
                if t2 != t {
                    lemma_tbl_contains_push(t, (addr_operand(items[0].0), m + 1), x);
                }
                lemma_sp_contains_mono(items.drop_first(), t2, m2, x);
            },
            Err(_) => {},
        }
    }
}

/// After the variable pass succeeds, every symbolic operand of an address
/// instruction is bound, predefined, labelled, or freshly allocated alike.
proof fn lemma_sp_covers(items: Seq<(Seq<u8>, int)>, t: TableModel, m: int)
    ensures
        match sp_items(items, t, m) {
            Ok(t2) => forall|j: int|
                0 <= j < items.len() ==> ((is_addr_start((#[trigger] items[j]).0)
                    && !crate::bytes::is_number(addr_operand(items[j].0))) ==> tbl_contains(
                    t2,
                    addr_operand(items[j].0),
                )),
            Err(_) => true,
        },
    decreases items.len(),
{
    if items.len() > 0 {
        let l = items[0].0;
        let rest = items.drop_first();
        match sp_line(l, m, t) {
            Ok((tn, mn)) => {
                lemma_sp_covers(rest, tn, mn);
                match sp_items(rest, tn, mn) {
                    Ok(t2) => {
                        if is_addr_start(l) && !crate::bytes::is_number(addr_operand(l)) {
                            let op = addr_operand(l);
                            if tbl_contains(t, op) {
                                lemma_sp_contains_mono(rest, tn, mn, op);
                            } else {
                                assert(tn == t.push((op, m + 1)));
                                lemma_tbl_contains_push(t, (op, m + 1), op);
                                lemma_sp_contains_mono(rest, tn, mn, op);
                            }
                        }
                        assert forall|j: int|
                            0 <= j < items.len() implies ((is_addr_start((#[trigger] items[j]).0)
                            && !crate::bytes::is_number(addr_operand(items[j].0)))
                            ==> tbl_contains(t2, addr_operand(items[j].0))) by {
                            if j > 0 {
                                assert(rest[j - 1] == items[j]);
                            }
                        }
                    },
                    Err(_) => {},
                }
            },
            Err(_) => {},
        }
    }
}

/// Against a table that binds every symbolic address operand, the
/// translation pass never reports an unresolved symbol.
proof fn lemma_enc_no_resolution(items: Seq<(Seq<u8>, int)>, t: TableModel)
    requires
        forall|j: int|
            0 <= j < items.len() ==> ((is_addr_start((#[trigger] items[j]).0)
                && !crate::bytes::is_number(addr_operand(items[j].0))) ==> tbl_contains(
                t,
                addr_operand(items[j].0),
            )),
    ensures
        match enc_items(items, t) {
            Err(e) => e.0 != ErrorKind::Resolution,
            Ok(_) => true,
        },
    decreases items.len(),
{
    if items.len() > 0 {
        let l = items[0].0;
        let rest = items.drop_first();
        assert forall|j: int|
            0 <= j < rest.len() implies ((is_addr_start((#[trigger] rest[j]).0)
            && !crate::bytes::is_number(addr_operand(rest[j].0))) ==> tbl_contains(
            t,
            addr_operand(rest[j].0),
        )) by {
            assert(rest[j] == items[j + 1]);
        }
        lemma_enc_no_resolution(rest, t);
        if !is_label_start(l) && is_addr_start(l) && !crate::bytes::is_number(addr_operand(l)) {
            assert(is_addr_start(items[0].0));
            assert(tbl_contains(t, addr_operand(l)));
            lemma_tbl_lookup_contains(t, addr_operand(l));
        }
    }
}

/// The assembler's specification admits one output per source: together with
/// the contract of `assemble`, which returns exactly what the specification
/// prescribes, re-running the pipeline on the same input yields identical
/// bytes every time.
pub proof fn lemma_assemble_deterministic(src: Seq<u8>, out1: Seq<u8>, out2: Seq<u8>)
    requires
        spec_assemble(src) == Ok::<Seq<u8>, ErrorModel>(out1),
        spec_assemble(src) == Ok::<Seq<u8>, ErrorModel>(out2),
    ensures
        out1 == out2,
{
}

/// A symbol that is defined nowhere never aborts the run as unresolved: the
/// variable pass allocates it an address first, so the assembler can only
/// report an unclassifiable line or an out-of-range address, never an
/// unresolved symbol.
pub proof fn lemma_no_resolution_error(src: Seq<u8>)
    ensures
        match spec_assemble(src) {
            Err(e) => e.0 != ErrorKind::Resolution,
            Ok(_) => true,
        },
{
    let items = clean_items(split_lines(src), 1);
    lemma_fp_err_kind(items, predefined_table(), 0);
    match fp_items(items, predefined_table(), 0) {
        Ok(t1) => {
            lemma_sp_err_kind(items, t1, 15);
            match sp_items(items, t1, 15) {
                Ok(t2) => {
                    lemma_sp_covers(items, t1, 15);
                    lemma_enc_no_resolution(items, t2);
                },
                Err(_) => {},
            }
        },
        Err(_) => {},
    }
}

} // verus!
