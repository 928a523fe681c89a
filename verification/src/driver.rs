//! The driver: cleaning the source, running the three passes in order, and
//! joining the words into the output text.
//!
//! `spec_assemble` is the full mathematical description of the assembler; the
//! executable `assemble` returns exactly what it prescribes, so two runs on
//! the same source can only return the same bytes.

use vstd::prelude::*;

use crate::bytes::{split_lines, split_source, trim, trimmed, LF, LPAREN, SLASH};
use crate::parse::{is_label_start, keep_line};
use crate::passes::{
    enc_line, first_pass, fp_line, second_pass, sp_line, translate_line, ErrorKind,
};
use crate::table::{predefined_table, SymbolTable, TableModel};

verus! {

/// What the assembler reports on a rejected line: the reason, the 1-based
/// number of the line in the source text, and the cleaned line text.
pub type ErrorModel = (ErrorKind, int, Seq<u8>);

/// A rejected line: the reason, the 1-based source line number, and the
/// cleaned line text.
#[derive(Debug)]
pub struct AsmError {
    pub kind: ErrorKind,
    pub line_num: usize,
    pub line: Vec<u8>,
}

impl View for AsmError {
    type V = ErrorModel;

    open spec fn view(&self) -> ErrorModel {
        (self.kind, self.line_num as int, self.line@)
    }
}

/// The cleaned lines paired with their 1-based source line numbers: every
/// line trimmed, blank and comment lines dropped, numbering starting at `n0`.
pub open spec fn clean_items(lines: Seq<Seq<u8>>, n0: int) -> Seq<(Seq<u8>, int)>
    decreases lines.len(),
{
    if lines.len() == 0 {
        Seq::empty()
    } else {
        let t = trimmed(lines[0]);
        let rest = clean_items(lines.drop_first(), n0 + 1);
        if keep_line(t) {
            seq![(t, n0)] + rest
        } else {
            rest
        }
    }
}

/// The label pass over all cleaned lines: the table it leaves behind, or the
/// first rejected line.
pub open spec fn fp_items(items: Seq<(Seq<u8>, int)>, t: TableModel, n: int) -> Result<
    TableModel,
    ErrorModel,
>
    decreases items.len(),
{
    if items.len() == 0 {
        Ok(t)
    } else {
        match fp_line(items[0].0, n, t) {
            Ok((t2, n2)) => fp_items(items.drop_first(), t2, n2),
            Err(k) => Err((k, items[0].1, items[0].0)),
        }
    }
}

/// The variable pass over all cleaned lines: the table it leaves behind, or
/// the first rejected line.
pub open spec fn sp_items(items: Seq<(Seq<u8>, int)>, t: TableModel, m: int) -> Result<
    TableModel,
    ErrorModel,
>
    decreases items.len(),
{
    if items.len() == 0 {
        Ok(t)
    } else {
        match sp_line(items[0].0, m, t) {
            Ok((t2, m2)) => sp_items(items.drop_first(), t2, m2),
            Err(k) => Err((k, items[0].1, items[0].0)),
        }
    }
}

/// The translation pass over all cleaned lines: one word per non-label line,
/// in order, or the first rejected line.
pub open spec fn enc_items(items: Seq<(Seq<u8>, int)>, t: TableModel) -> Result<
    Seq<Seq<u8>>,
    ErrorModel,
>
    decreases items.len(),
{
    if items.len() == 0 {
        Ok(Seq::empty())
    } else if is_label_start(items[0].0) {
        enc_items(items.drop_first(), t)
    } else {
        match enc_line(items[0].0, t) {
            Ok(w) => match enc_items(items.drop_first(), t) {
                Ok(ws) => Ok(seq![w] + ws),
                Err(e) => Err(e),
            },
            Err(k) => Err((k, items[0].1, items[0].0)),
        }
    }
}

/// The words joined into the output text, each followed by one line feed.
pub open spec fn join_words(ws: Seq<Seq<u8>>) -> Seq<u8>
    decreases ws.len(),
{
    if ws.len() == 0 {
        Seq::empty()
    } else {
        ws[0] + seq![LF] + join_words(ws.drop_first())
    }
}

/// The whole assembler on a source text: clean, bind labels from index 0,
/// allocate variables from address 16, translate, join.
pub open spec fn spec_assemble(src: Seq<u8>) -> Result<Seq<u8>, ErrorModel> {
    let items = clean_items(split_lines(src), 1);
    match fp_items(items, predefined_table(), 0) {
        Err(e) => Err(e),
        Ok(t1) => match sp_items(items, t1, 15) {
            Err(e) => Err(e),
            Ok(t2) => match enc_items(items, t2) {
                Err(e) => Err(e),
                Ok(ws) => Ok(join_words(ws)),
            },
        },
    }
}

/// The pairing of cleaned line texts with their source line numbers.
pub open spec fn items_view(texts: Seq<Seq<u8>>, nums: Seq<usize>) -> Seq<(Seq<u8>, int)> {
    Seq::new(texts.len(), |k: int| (texts[k], nums[k] as int))
}

/// Trim every line, drop blanks and comments, and remember where each
/// surviving line stood in the source.
pub fn clean_lines(lines: &Vec<Vec<u8>>) -> (r: (Vec<Vec<u8>>, Vec<usize>))
    requires
        lines@.len() < usize::MAX,
    ensures
        r.0@.len() == r.1@.len(),
        r.0@.len() <= lines@.len(),
        items_view(r.0.deep_view(), r.1@) == clean_items(lines.deep_view(), 1),
{
    let n: usize = lines.len();
    let mut texts: Vec<Vec<u8>> = Vec::new();
    let mut nums: Vec<usize> = Vec::new();
    let mut i: usize = 0;
    proof {
        assert(lines.deep_view().skip(0) =~~= lines.deep_view());
        assert(items_view(texts.deep_view(), nums@) + clean_items(lines.deep_view(), 1)
            =~~= clean_items(lines.deep_view(), 1));
    }
    while i < n
        invariant
            0 <= i <= n,
            n == lines@.len(),
            n < usize::MAX,
            texts@.len() == nums@.len(),
            texts@.len() <= i,
            clean_items(lines.deep_view(), 1) == items_view(texts.deep_view(), nums@)
                + clean_items(lines.deep_view().skip(i as int), i + 1),
        decreases n - i,
    {
        let t: Vec<u8> = trim(lines[i].as_slice());
        let keep: bool = t.len() > 0 && !(t.len() >= 2 && t[0] == SLASH && t[1] == SLASH);
        proof {
            let ld = lines.deep_view();
            assert(ld.skip(i as int)[0] == ld[i as int]);
            assert(ld.skip(i as int).drop_first() =~~= ld.skip(i as int + 1));
            assert(ld[i as int] == lines@[i as int]@);
            assert(keep == keep_line(t@));
        }
        if keep {
            let ghost pre_t: Seq<Seq<u8>> = texts.deep_view();
            let ghost pre_n: Seq<usize> = nums@;
            texts.push(t);
            nums.push(i + 1);
            proof {
                assert(items_view(texts.deep_view(), nums@) =~~= items_view(pre_t, pre_n)
                    + seq![(trimmed(lines.deep_view()[i as int]), i + 1 as int)]);
                assert((items_view(pre_t, pre_n) + seq![
                    (trimmed(lines.deep_view()[i as int]), i + 1 as int),
                ]) + clean_items(lines.deep_view().skip(i as int + 1), i + 2)
                    =~~= items_view(pre_t, pre_n) + (seq![
                    (trimmed(lines.deep_view()[i as int]), i + 1 as int),
                ] + clean_items(lines.deep_view().skip(i as int + 1), i + 2)));
            }
        }
        i = i + 1;
    }
    proof {
        assert(lines.deep_view().skip(n as int) =~~= Seq::<Seq<u8>>::empty());
    }
    (texts, nums)
}

/// Run the label pass over all cleaned lines, stopping at the first rejected
/// line.
pub fn run_first_pass(texts: &Vec<Vec<u8>>, nums: &Vec<usize>, table: &mut SymbolTable) -> (r:
    Result<(), AsmError>)
    requires
        old(table).wf(),
        texts@.len() == nums@.len(),
        texts@.len() < usize::MAX,
    ensures
        final(table).wf(),
        match r {
            Ok(_) => fp_items(items_view(texts.deep_view(), nums@), old(table)@, 0) == Ok::<
                _,
                ErrorModel,
            >(final(table)@),
            Err(e) => fp_items(items_view(texts.deep_view(), nums@), old(table)@, 0) == Err::<
                TableModel,
                _,
            >(e@),
        },
{
    let ghost items: Seq<(Seq<u8>, int)> = items_view(texts.deep_view(), nums@);
    let ghost t0: TableModel = old(table)@;
    let n: usize = texts.len();
    let mut line_num: usize = 0;
    let mut k: usize = 0;
    proof {
        assert(items.skip(0) =~~= items);
    }
    while k < n
        invariant
            0 <= k <= n,
            n == texts@.len(),
            n == nums@.len(),
            n < usize::MAX,
            line_num <= k,
            table.wf(),
            items == items_view(texts.deep_view(), nums@),
            t0 == old(table)@,
            fp_items(items, t0, 0) == fp_items(items.skip(k as int), table@, line_num as int),
        decreases n - k,
    {
        proof {
            assert(items.skip(k as int)[0] == items[k as int]);
            assert(items.skip(k as int).drop_first() =~~= items.skip(k as int + 1));
            assert(texts.deep_view()[k as int] =~= texts@[k as int]@);
        }
        match first_pass(texts[k].as_slice(), &mut line_num, table) {
            Ok(_) => {},
            Err(kind) => {
                proof {
                    assert(fp_line(items[k as int].0, line_num as int, table@) == Err::<
                        (TableModel, int),
                        ErrorKind,
                    >(kind));
                    assert(fp_items(items.skip(k as int), table@, line_num as int) == Err::<
                        TableModel,
                        ErrorModel,
                    >((kind, items[k as int].1, items[k as int].0)));
                }
                let line: Vec<u8> = vstd::slice::slice_to_vec(texts[k].as_slice());
                return Err(AsmError { kind, line_num: nums[k], line });
            },
        }
        k = k + 1;
    }
    proof {
        assert(items.skip(n as int) =~~= Seq::<(Seq<u8>, int)>::empty());
    }
    Ok(())
}

/// Run the variable pass over all cleaned lines, allocating fresh addresses
/// upward from 16 and stopping at the first rejected line.
pub fn run_second_pass(texts: &Vec<Vec<u8>>, nums: &Vec<usize>, table: &mut SymbolTable) -> (r:
    Result<(), AsmError>)
    requires
        old(table).wf(),
        texts@.len() == nums@.len(),
        texts@.len() < usize::MAX - 16,
    ensures
        final(table).wf(),
        match r {
            Ok(_) => sp_items(items_view(texts.deep_view(), nums@), old(table)@, 15) == Ok::<
                _,
                ErrorModel,
            >(final(table)@),
            Err(e) => sp_items(items_view(texts.deep_view(), nums@), old(table)@, 15) == Err::<
                TableModel,
                _,
            >(e@),
        },
{
    let ghost items: Seq<(Seq<u8>, int)> = items_view(texts.deep_view(), nums@);
    let ghost t0: TableModel = old(table)@;
    let n: usize = texts.len();
    let mut mem_num: usize = 15;
    let mut k: usize = 0;
    proof {
        assert(items.skip(0) =~~= items);
    }
    while k < n
        invariant
            0 <= k <= n,
            n == texts@.len(),
            n == nums@.len(),
            n < usize::MAX - 16,
            mem_num <= 15 + k,
            table.wf(),
            items == items_view(texts.deep_view(), nums@),
            t0 == old(table)@,
            sp_items(items, t0, 15) == sp_items(items.skip(k as int), table@, mem_num as int),
        decreases n - k,
    {
        proof {
            assert(items.skip(k as int)[0] == items[k as int]);
            assert(items.skip(k as int).drop_first() =~~= items.skip(k as int + 1));
            assert(texts.deep_view()[k as int] =~= texts@[k as int]@);
        }
        match second_pass(texts[k].as_slice(), &mut mem_num, table) {
            Ok(_) => {},
            Err(kind) => {
                proof {
                    assert(sp_line(items[k as int].0, mem_num as int, table@) == Err::<
                        (TableModel, int),
                        ErrorKind,
                    >(kind));
                    assert(sp_items(items.skip(k as int), table@, mem_num as int) == Err::<
                        TableModel,
                        ErrorModel,
                    >((kind, items[k as int].1, items[k as int].0)));
                }
                let line: Vec<u8> = vstd::slice::slice_to_vec(texts[k].as_slice());
                return Err(AsmError { kind, line_num: nums[k], line });
            },
        }
        k = k + 1;
    }
    proof {
        assert(items.skip(n as int) =~~= Seq::<(Seq<u8>, int)>::empty());
    }
    Ok(())
}

/// Translate every cleaned non-label line against the resolved table and
/// join the words, one line feed after each.
pub fn run_translation(texts: &Vec<Vec<u8>>, nums: &Vec<usize>, table: &SymbolTable) -> (r: Result<
    Vec<u8>,
    AsmError,
>)
    requires
        texts@.len() == nums@.len(),
    ensures
        match r {
            Ok(out) => {
                let enc = enc_items(items_view(texts.deep_view(), nums@), table@);
                &&& enc is Ok
                &&& out@ == join_words(enc->Ok_0)
            },
            Err(e) => enc_items(items_view(texts.deep_view(), nums@), table@) == Err::<
                Seq<Seq<u8>>,
                _,
            >(e@),
        },
{
    let ghost items: Seq<(Seq<u8>, int)> = items_view(texts.deep_view(), nums@);
    let n: usize = texts.len();
    let mut out: Vec<u8> = Vec::new();
    let mut k: usize = 0;
    proof {
        assert(items.skip(0) =~~= items);
    }
    while k < n
        invariant
            0 <= k <= n,
            n == texts@.len(),
            n == nums@.len(),
            items == items_view(texts.deep_view(), nums@),
            ({
                let rest = enc_items(items.skip(k as int), table@);
                let full = enc_items(items, table@);
                match rest {
                    Ok(ws) => full is Ok && join_words(full->Ok_0) == out@ + join_words(ws),
                    Err(e) => full == Err::<Seq<Seq<u8>>, ErrorModel>(e),
                }
            }),
        decreases n - k,
    {
        proof {
            assert(items.skip(k as int)[0] == items[k as int]);
            assert(items.skip(k as int).drop_first() =~~= items.skip(k as int + 1));
            assert(texts.deep_view()[k as int] =~= texts@[k as int]@);
        }
        let line: &Vec<u8> = &texts[k];
        let is_label: bool = line.len() > 0 && line[0] == LPAREN;
        if !is_label {
            match translate_line(line.as_slice(), table) {
                Ok(mut word) => {
                    let ghost w: Seq<u8> = word@;
                    proof {
                        let rest2 = enc_items(items.skip(k as int + 1), table@);
                        if rest2 is Ok {
                            assert((seq![w] + rest2->Ok_0).drop_first() =~~= rest2->Ok_0);
                            assert((seq![w] + rest2->Ok_0)[0] == w);
                        }
                    }
                    out.append(&mut word);
                    out.push(LF);
                },
                Err(kind) => {
                    let line_copy: Vec<u8> = vstd::slice::slice_to_vec(line.as_slice());
                    return Err(AsmError { kind, line_num: nums[k], line: line_copy });
                },
            }
        }
        k = k + 1;
    }
    proof {
        assert(items.skip(n as int) =~~= Seq::<(Seq<u8>, int)>::empty());
    }
    Ok(out)
}

/// Assemble a whole source text: one 16-character binary word per
/// instruction, in source order, each on its own output line; or the first
/// rejected line.
///
/// The result is a function of the source text alone, so assembling the same
/// text twice returns the same bytes.
pub fn assemble(src: &[u8]) -> (r: Result<Vec<u8>, AsmError>)
    requires
        src@.len() < usize::MAX - 17,
    ensures
        match r {
            Ok(out) => spec_assemble(src@) == Ok::<_, ErrorModel>(out@),
            Err(e) => spec_assemble(src@) == Err::<Seq<u8>, _>(e@),
        },
{
    let lines: Vec<Vec<u8>> = split_source(src);
    let pair: (Vec<Vec<u8>>, Vec<usize>) = clean_lines(&lines);
    let texts: Vec<Vec<u8>> = pair.0;
    let nums: Vec<usize> = pair.1;
    let mut table: SymbolTable = SymbolTable::new();
    match run_first_pass(&texts, &nums, &mut table) {
        Ok(_) => {},
        Err(e) => {
            return Err(e);
        },
    }
    match run_second_pass(&texts, &nums, &mut table) {
        Ok(_) => {},
        Err(e) => {
            return Err(e);
        },
    }
    match run_translation(&texts, &nums, &table) {
        Ok(out) => Ok(out),
        Err(e) => Err(e),
    }
}

} // verus!
