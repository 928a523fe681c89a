//! Byte-level helpers shared by the scanner: character classes, trimming,
//! line splitting, and searching for a delimiter byte.

use vstd::prelude::*;

verus! {


/// ASCII codes used by the scanner, the mnemonic tables and the encoder.
pub const LF: u8 = 10;

pub const BANG: u8 = 33;

pub const DOLLAR: u8 = 36;

pub const AMP: u8 = 38;

pub const LPAREN: u8 = 40;

pub const RPAREN: u8 = 41;

pub const PLUS: u8 = 43;

pub const MINUS: u8 = 45;

pub const DOT: u8 = 46;

pub const SLASH: u8 = 47;

pub const SEMI: u8 = 59;

pub const EQUALS: u8 = 61;

pub const AT: u8 = 64;

pub const PIPE: u8 = 124;

pub const UNDERSCORE: u8 = 95;

pub const DIG_0: u8 = 48;

pub const DIG_1: u8 = 49;

pub const DIG_2: u8 = 50;

pub const DIG_3: u8 = 51;

pub const DIG_4: u8 = 52;

pub const DIG_5: u8 = 53;

pub const DIG_6: u8 = 54;

pub const DIG_7: u8 = 55;

pub const DIG_8: u8 = 56;

pub const DIG_9: u8 = 57;

pub const LET_A: u8 = 65;

pub const LET_B: u8 = 66;

pub const LET_C: u8 = 67;

pub const LET_D: u8 = 68;

pub const LET_E: u8 = 69;

pub const LET_G: u8 = 71;

pub const LET_H: u8 = 72;

pub const LET_I: u8 = 73;

pub const LET_J: u8 = 74;

pub const LET_K: u8 = 75;

pub const LET_L: u8 = 76;

pub const LET_M: u8 = 77;

pub const LET_N: u8 = 78;

pub const LET_P: u8 = 80;

pub const LET_Q: u8 = 81;

pub const LET_R: u8 = 82;

pub const LET_S: u8 = 83;

pub const LET_T: u8 = 84;

/// Whitespace as the line cleaner understands it: space, horizontal tab,
/// line feed, vertical tab, form feed, carriage return.
pub open spec fn is_space(b: u8) -> bool {
    b == 32 || (9 <= b && b <= 13)
}

/// ASCII decimal digit.
pub open spec fn is_digit(b: u8) -> bool {
    48 <= b && b <= 57
}

/// A byte that may appear in a symbol name: ASCII alphanumerics, `_`, `.`, `$`.
pub open spec fn is_symbol_byte(b: u8) -> bool {
    is_digit(b) || (65 <= b && b <= 90) || (97 <= b && b <= 122) || b == 95 || b == 46 || b == 36
}

/// A syntactically valid symbol name: non-empty, symbol bytes only, and not
/// starting with a digit.
pub open spec fn is_symbol_name(s: Seq<u8>) -> bool {
    &&& s.len() > 0
    &&& forall|i: int| 0 <= i < s.len() ==> is_symbol_byte(#[trigger] s[i])
    &&& !is_digit(s[0])
}

/// A syntactically valid non-negative decimal literal: non-empty, digits only.
pub open spec fn is_number(s: Seq<u8>) -> bool {
    &&& s.len() > 0
    &&& forall|i: int| 0 <= i < s.len() ==> is_digit(#[trigger] s[i])
}

/// The value of a sequence of decimal digits, most significant first.
pub open spec fn number_value(s: Seq<u8>) -> nat
    decreases s.len(),
{
    if s.len() == 0 {
        0
    } else {
        (number_value(s.drop_last()) * 10 + (s.last() - 48)) as nat
    }
}

/// What remains of `s` after the leading whitespace is removed.
pub open spec fn trim_front(s: Seq<u8>) -> Seq<u8>
    decreases s.len(),
{
    if s.len() > 0 && is_space(s[0]) {
        trim_front(s.drop_first())
    } else {
        s
    }
}

/// What remains of `s` after the trailing whitespace is removed.
pub open spec fn trim_back(s: Seq<u8>) -> Seq<u8>
    decreases s.len(),
{
    if s.len() > 0 && is_space(s.last()) {
        trim_back(s.drop_last())
    } else {
        s
    }
}

/// `s` without leading and trailing whitespace.
pub open spec fn trimmed(s: Seq<u8>) -> Seq<u8> {
    trim_back(trim_front(s))
}

/// Index of the first occurrence of `b` in `s`, or `-1` if there is none.
pub open spec fn idx_of(s: Seq<u8>, b: u8) -> int
    decreases s.len(),
{
    if s.len() == 0 {
        -1
    } else if s[0] == b {
        0
    } else if idx_of(s.drop_first(), b) == -1 {
        -1
    } else {
        idx_of(s.drop_first(), b) + 1
    }
}

/// The source text cut at every line feed; the separators are consumed and
/// every piece is kept, so the result always holds one more piece than the
/// text holds line feeds.
pub open spec fn split_lines(s: Seq<u8>) -> Seq<Seq<u8>>
    decreases s.len(),
{
    if s.len() == 0 {
        seq![Seq::<u8>::empty()]
    } else if s[0] == 10 {
        seq![Seq::<u8>::empty()] + split_lines(s.drop_first())
    } else {
        let rest = split_lines(s.drop_first());
        rest.update(0, seq![s[0]] + rest[0])
    }
}

pub proof fn lemma_split_lines_len(s: Seq<u8>)
    ensures
        split_lines(s).len() >= 1,
    decreases s.len(),
{
    if s.len() > 0 {
        lemma_split_lines_len(s.drop_first());
    }
}

/// Cutting off a newline-free prefix: if `s[k]` is the first line feed, the
/// pieces of `s` are that prefix followed by the pieces of what comes after
/// the line feed.
pub proof fn lemma_split_lines_step(s: Seq<u8>, k: int)
    requires
        0 <= k < s.len(),
        s[k] == 10,
        forall|i: int| 0 <= i < k ==> s[i] != 10,
    ensures
        split_lines(s) == seq![s.take(k)] + split_lines(s.skip(k + 1)),
    decreases k,
{
    lemma_split_lines_len(s.drop_first());
    if k == 0 {
        assert(s.take(0) =~= Seq::<u8>::empty());
        assert(s.skip(1) =~= s.drop_first());
        assert(split_lines(s) =~~= seq![s.take(0)] + split_lines(s.skip(1)));
    } else {
        lemma_split_lines_step(s.drop_first(), k - 1);
        let rest = split_lines(s.drop_first());
        assert(s.drop_first().take(k - 1) =~= s.take(k).drop_first());
        assert(s.drop_first().skip(k) =~= s.skip(k + 1));
        assert(rest[0] == s.drop_first().take(k - 1));
        assert(seq![s[0]] + rest[0] =~= s.take(k));
        assert(split_lines(s) =~~= seq![s.take(k)] + split_lines(s.skip(k + 1)));
    }
}

/// A text without line feeds is a single piece.
pub proof fn lemma_split_lines_last(s: Seq<u8>)
    requires
        forall|i: int| 0 <= i < s.len() ==> s[i] != 10,
    ensures
        split_lines(s) == seq![s],
    decreases s.len(),
{
    if s.len() == 0 {
        assert(split_lines(s) =~~= seq![s]);
    } else {
        lemma_split_lines_last(s.drop_first());
        let rest = split_lines(s.drop_first());
        assert(seq![s[0]] + rest[0] =~= s);
        assert(split_lines(s) =~~= seq![s]);
    }
}

/// Equality of two byte slices.
pub fn bytes_eq(a: &[u8], b: &[u8]) -> (r: bool)
    ensures
        r == (a@ == b@),
{
    if a.len() != b.len() {
        assert(a@ != b@) by {
            assert(a@.len() != b@.len());
        }
        return false;
    }
    let n: usize = a.len();
    let mut i: usize = 0;
    while i < n
        invariant
            n == a@.len() == b@.len(),
            0 <= i <= n,
            forall|k: int| 0 <= k < i ==> a@[k] == b@[k],
        decreases n - i,
    {
        if a[i] != b[i] {
            return false;
        }
        i = i + 1;
    }
    assert(a@ =~= b@);
    true
}

pub fn space_byte(b: u8) -> (r: bool)
    ensures
        r == is_space(b),
{
    b == 32 || (9 <= b && b <= 13)
}

pub fn digit_byte(b: u8) -> (r: bool)
    ensures
        r == is_digit(b),
{
    48 <= b && b <= 57
}

pub fn symbol_byte(b: u8) -> (r: bool)
    ensures
        r == is_symbol_byte(b),
{
    (48 <= b && b <= 57) || (65 <= b && b <= 90) || (97 <= b && b <= 122) || b == 95 || b == 46
        || b == 36
}

proof fn lemma_trim_front_at(s: Seq<u8>, k: int)
    requires
        0 <= k <= s.len(),
        forall|i: int| 0 <= i < k ==> is_space(#[trigger] s[i]),
        k < s.len() ==> !is_space(s[k]),
    ensures
        trim_front(s) == s.skip(k),
    decreases k,
{
    if k == 0 {
        assert(s.skip(0) =~= s);
    } else {
        lemma_trim_front_at(s.drop_first(), k - 1);
        assert(s.drop_first().skip(k - 1) =~= s.skip(k));
    }
}

proof fn lemma_trim_back_at(s: Seq<u8>, k: int)
    requires
        0 <= k <= s.len(),
        forall|i: int| k <= i < s.len() ==> is_space(#[trigger] s[i]),
        k > 0 ==> !is_space(s[k - 1]),
    ensures
        trim_back(s) == s.take(k),
    decreases s.len() - k,
{
    if k == s.len() as int {
        if s.len() > 0 && is_space(s.last()) {
            lemma_trim_back_at(s.drop_last(), k - 1);
            assert(s.drop_last().take(k - 1) =~= s.take(k - 1));
            assert(trim_back(s) == s.take(k - 1));
            assert(s.take(k - 1) =~= s.take(k).drop_last());
            lemma_trim_back_at(s.take(k), k - 1);
            assert(trim_back(s.take(k)) == s.take(k).take(k - 1));
            assert(s.take(k) =~= s);
            assert(s.take(k).take(k - 1) =~= s.take(k - 1));
        } else {
            assert(s.take(k) =~= s);
        }
    } else {
        lemma_trim_back_at(s.drop_last(), k);
        assert(s.drop_last().take(k) =~= s.take(k));
    }
}

/// `line` without its leading and trailing whitespace.
pub fn trim(line: &[u8]) -> (r: Vec<u8>)
    ensures
        r@ == trimmed(line@),
{
    let n: usize = line.len();
    let mut lo: usize = 0;
    while lo < n && space_byte(line[lo])
        invariant
            0 <= lo <= n,
            n == line@.len(),
            forall|i: int| 0 <= i < lo ==> is_space(#[trigger] line@[i]),
        decreases n - lo,
    {
        lo = lo + 1;
    }
    proof {
        lemma_trim_front_at(line@, lo as int);
    }
    if lo == n {
        proof {
            assert(line@.skip(lo as int) =~= Seq::<u8>::empty());
            assert(trim_back(Seq::<u8>::empty()) =~= Seq::<u8>::empty());
        }
        return Vec::new();
    }
    let mut hi: usize = n;
    while hi > lo && space_byte(line[hi - 1])
        invariant
            lo <= hi <= n,
            n == line@.len(),
            lo < n,
            !is_space(line@[lo as int]),
            forall|i: int| hi <= i < n ==> is_space(#[trigger] line@[i]),
        decreases hi,
    {
        hi = hi - 1;
    }
    proof {
        let f = line@.skip(lo as int);
        assert(hi > lo) by {
            assert(!is_space(line@[lo as int]));
        }
        assert(forall|i: int|
            hi - lo <= i < f.len() ==> is_space(#[trigger] f[i]));
        assert(f[hi - lo - 1] == line@[hi - 1]);
        lemma_trim_back_at(f, hi - lo);
        assert(f.take(hi - lo) =~= line@.subrange(lo as int, hi as int));
    }
    let piece: &[u8] = vstd::slice::slice_subrange(line, lo, hi);
    vstd::slice::slice_to_vec(piece)
}

/// Index of the first occurrence of `b` in `s`, if any.
pub fn find_byte(s: &[u8], b: u8) -> (r: Option<usize>)
    ensures
        match r {
            Some(i) => idx_of(s@, b) == i as int && i < s@.len(),
            None => idx_of(s@, b) == -1,
        },
{
    let n: usize = s.len();
    let mut i: usize = 0;
    while i < n
        invariant
            0 <= i <= n,
            n == s@.len(),
            forall|k: int| 0 <= k < i ==> s@[k] != b,
        decreases n - i,
    {
        if s[i] == b {
            proof {
                lemma_idx_of_found(s@, b, i as int);
            }
            return Some(i);
        }
        i = i + 1;
    }
    proof {
        lemma_idx_of_missing(s@, b);
    }
    None
}

proof fn lemma_idx_of_found(s: Seq<u8>, b: u8, j: int)
    requires
        0 <= j < s.len(),
        s[j] == b,
        forall|k: int| 0 <= k < j ==> s[k] != b,
    ensures
        idx_of(s, b) == j,
    decreases j,
{
    if j > 0 {
        lemma_idx_of_found(s.drop_first(), b, j - 1);
    }
}

proof fn lemma_idx_of_missing(s: Seq<u8>, b: u8)
    requires
        forall|k: int| 0 <= k < s.len() ==> s[k] != b,
    ensures
        idx_of(s, b) == -1,
    decreases s.len(),
{
    if s.len() > 0 {
        lemma_idx_of_missing(s.drop_first(), b);
    }
}

/// The source text cut into lines at every line feed.
pub fn split_source(src: &[u8]) -> (r: Vec<Vec<u8>>)
    ensures
        r.deep_view() == split_lines(src@),
        r@.len() <= src@.len() + 1,
{
    let n: usize = src.len();
    let mut out: Vec<Vec<u8>> = Vec::new();
    let mut start: usize = 0;
    let mut i: usize = 0;
    proof {
        assert(src@.skip(0) =~= src@);
        assert(out.deep_view() + split_lines(src@) =~~= split_lines(src@));
    }
    while i < n
        invariant
            0 <= start <= i <= n,
            n == src@.len(),
            forall|k: int| start <= k < i ==> src@[k] != 10,
            out@.len() <= i,
            split_lines(src@) == out.deep_view() + split_lines(src@.skip(start as int)),
        decreases n - i,
    {
        if src[i] == 10 {
            let piece: &[u8] = vstd::slice::slice_subrange(src, start, i);
            let line: Vec<u8> = vstd::slice::slice_to_vec(piece);
            proof {
                let tail = src@.skip(start as int);
                assert(tail[i - start] == src@[i as int]);
                assert(forall|k: int| 0 <= k < i - start ==> tail[k] == src@[k + start]);
                lemma_split_lines_step(tail, i - start);
                assert(tail.take(i - start) =~= src@.subrange(start as int, i as int));
                assert(tail.skip(i - start + 1) =~= src@.skip(i + 1));
            }
            let ghost pre: Seq<Seq<u8>> = out.deep_view();
            out.push(line);
            proof {
                assert(out.deep_view() =~~= pre + seq![line@]);
                assert((pre + seq![line@]) + split_lines(src@.skip(i + 1))
                    =~~= pre + (seq![line@] + split_lines(src@.skip(i + 1))));
            }
            start = i + 1;
        }
        i = i + 1;
    }
    let piece: &[u8] = vstd::slice::slice_subrange(src, start, n);
    let line: Vec<u8> = vstd::slice::slice_to_vec(piece);
    proof {
        let tail = src@.skip(start as int);
        assert(tail =~= src@.subrange(start as int, n as int));
        lemma_split_lines_last(tail);
    }
    let ghost pre: Seq<Seq<u8>> = out.deep_view();
    out.push(line);
    proof {
        assert(out.deep_view() =~~= pre + seq![line@]);
        assert(out.deep_view() =~~= split_lines(src@));
    }
    out
}

} // verus!
