//! The symbol table: a mapping from symbol names to non-negative addresses,
//! seeded with the fixed predefined entries. Once a name is bound it is never
//! reassigned; `define_if_absent` is the only way in.
//!
//! The table is modelled as the sequence of its entries in insertion order,
//! each a pair of name and address; the order carries the allocation history
//! that the variable pass relies on.

use vstd::prelude::*;

use crate::bytes::{
    bytes_eq, DIG_0, DIG_1, DIG_2, DIG_3, DIG_4, DIG_5, DIG_6, DIG_7, DIG_8, DIG_9, LET_A, LET_B,
    LET_C, LET_D, LET_E, LET_G, LET_H, LET_I, LET_K, LET_L, LET_N, LET_P, LET_R, LET_S, LET_T,
};

verus! {

/// The model of a symbol table: entries in insertion order.
pub type TableModel = Seq<(Seq<u8>, int)>;

/// Whether `name` is bound in `t`.
pub open spec fn tbl_contains(t: TableModel, name: Seq<u8>) -> bool {
    exists|i: int| 0 <= i < t.len() && (#[trigger] t[i]).0 == name
}

/// The address bound to `name` in `t`, if any.
pub open spec fn tbl_lookup(t: TableModel, name: Seq<u8>) -> Option<int>
    decreases t.len(),
{
    if t.len() == 0 {
        None
    } else if t[0].0 == name {
        Some(t[0].1)
    } else {
        tbl_lookup(t.drop_first(), name)
    }
}

/// `t` with `name` bound to `addr` if it was unbound, and unchanged otherwise.
pub open spec fn tbl_define(t: TableModel, name: Seq<u8>, addr: int) -> TableModel {
    if tbl_contains(t, name) {
        t
    } else {
        t.push((name, addr))
    }
}

/// No name is bound twice.
pub open spec fn tbl_wf(t: TableModel) -> bool {
    forall|i: int, j: int| 0 <= i < j < t.len() ==> (#[trigger] t[i]).0 != (#[trigger] t[j]).0
}

/// A name is bound exactly when the lookup finds an address.
pub proof fn lemma_tbl_lookup_contains(t: TableModel, name: Seq<u8>)
    ensures
        tbl_contains(t, name) <==> tbl_lookup(t, name) is Some,
    decreases t.len(),
{
    if t.len() > 0 && t[0].0 != name {
        lemma_tbl_lookup_contains(t.drop_first(), name);
        if tbl_contains(t, name) {
            let i = choose|i: int| 0 <= i < t.len() && t[i].0 == name;
            assert(t.drop_first()[i - 1].0 == name);
        }
        if tbl_contains(t.drop_first(), name) {
            let i = choose|i: int| 0 <= i < t.drop_first().len() && t.drop_first()[i].0 == name;
            assert(t[i + 1].0 == name);
        }
    }
}

/// In a well-formed table the lookup finds every entry where it stands.
pub proof fn lemma_tbl_lookup_at(t: TableModel, k: int)
    requires
        tbl_wf(t),
        0 <= k < t.len(),
    ensures
        tbl_lookup(t, t[k].0) == Some(t[k].1),
    decreases k,
{
    if k > 0 {
        assert(t[0].0 != t[k].0);
        lemma_tbl_lookup_at(t.drop_first(), k - 1);
    }
}

/// Appending an entry changes no existing binding: a lookup still finds what
/// it found, and finds the new entry only if the name was unbound.
pub proof fn lemma_tbl_lookup_push(t: TableModel, x: (Seq<u8>, int), name: Seq<u8>)
    ensures
        tbl_lookup(t.push(x), name) == (if tbl_lookup(t, name) is Some {
            tbl_lookup(t, name)
        } else if x.0 == name {
            Some(x.1)
        } else {
            None::<int>
        }),
    decreases t.len(),
{
    if t.len() == 0 {
        assert(t.push(x).len() == 1);
        assert(t.push(x)[0] == x);
        assert(t.push(x).drop_first() =~~= Seq::<(Seq<u8>, int)>::empty());
        assert(tbl_lookup(Seq::<(Seq<u8>, int)>::empty(), name) is None);
        assert(tbl_lookup(t, name) is None);
        if x.0 == name {
            assert(tbl_lookup(t.push(x), name) == Some(x.1));
        } else {
            assert(tbl_lookup(t.push(x), name) is None);
        }
    } else {
        lemma_tbl_lookup_push(t.drop_first(), x, name);
        assert(t.push(x)[0] == t[0]);
        assert(t.push(x).drop_first() =~~= t.drop_first().push(x));
        if t[0].0 == name {
            assert(tbl_lookup(t.push(x), name) == Some(t[0].1));
        } else {
            assert(tbl_lookup(t.push(x), name) == tbl_lookup(t.drop_first().push(x), name));
            assert(tbl_lookup(t, name) == tbl_lookup(t.drop_first(), name));
        }
    }
}

/// Appending an entry binds exactly the old names and the new one.
pub proof fn lemma_tbl_contains_push(t: TableModel, x: (Seq<u8>, int), name: Seq<u8>)
    ensures
        tbl_contains(t.push(x), name) <==> (tbl_contains(t, name) || x.0 == name),
{
    if tbl_contains(t, name) {
        let i = choose|i: int| 0 <= i < t.len() && t[i].0 == name;
        assert(t.push(x)[i].0 == name);
    }
    if x.0 == name {
        assert(t.push(x)[t.len() as int].0 == name);
    }
    if tbl_contains(t.push(x), name) && !(x.0 == name) {
        let i = choose|i: int| 0 <= i < t.push(x).len() && t.push(x)[i].0 == name;
        assert(t[i].0 == name);
    }
}

/// Defining never introduces a duplicate name.
pub proof fn lemma_tbl_define_wf(t: TableModel, name: Seq<u8>, addr: int)
    requires
        tbl_wf(t),
    ensures
        tbl_wf(tbl_define(t, name, addr)),
{
    if !tbl_contains(t, name) {
        let t2 = t.push((name, addr));
        assert forall|i: int, j: int|
            0 <= i < j < t2.len() implies (#[trigger] t2[i]).0 != (#[trigger] t2[j]).0 by {
            if j == t2.len() - 1 {
                assert(t2[i].0 == t[i].0);
            }
        }
    }
}

/// The fixed predefined entries: the sixteen registers, the two device
/// addresses, and the five pointer names.
pub open spec fn predefined_table() -> TableModel {
    seq![
        (seq![LET_R, DIG_0], 0),
        (seq![LET_R, DIG_1], 1),
        (seq![LET_R, DIG_2], 2),
        (seq![LET_R, DIG_3], 3),
        (seq![LET_R, DIG_4], 4),
        (seq![LET_R, DIG_5], 5),
        (seq![LET_R, DIG_6], 6),
        (seq![LET_R, DIG_7], 7),
        (seq![LET_R, DIG_8], 8),
        (seq![LET_R, DIG_9], 9),
        (seq![LET_R, DIG_1, DIG_0], 10),
        (seq![LET_R, DIG_1, DIG_1], 11),
        (seq![LET_R, DIG_1, DIG_2], 12),
        (seq![LET_R, DIG_1, DIG_3], 13),
        (seq![LET_R, DIG_1, DIG_4], 14),
        (seq![LET_R, DIG_1, DIG_5], 15),
        (seq![LET_S, LET_C, LET_R, LET_E, LET_E, LET_N], 16384),
        (seq![LET_K, LET_B, LET_D], 24576),
        (seq![LET_S, LET_P], 0),
        (seq![LET_L, LET_C, LET_L], 1),
        (seq![LET_A, LET_R, LET_G], 2),
        (seq![LET_T, LET_H, LET_I, LET_S], 3),
        (seq![LET_T, LET_H, LET_A, LET_T], 4),
    ]
}

/// The bytes of a name packed into one integer; two names with equal packings
/// are equal, which turns apartness of names into arithmetic.
spec fn name_code(s: Seq<u8>) -> int
    decreases s.len(),
{
    if s.len() == 0 {
        0
    } else {
        name_code(s.drop_last()) * 256 + s.last()
    }
}

/// The predefined table binds no name twice.
pub proof fn lemma_predefined_wf()
    ensures
        tbl_wf(predefined_table()),
{
    let t = predefined_table();
    reveal_with_fuel(name_code, 8);
    assert forall|i: int, j: int|
        0 <= i < j < t.len() implies (#[trigger] t[i]).0 != (#[trigger] t[j]).0 by {
        if t[i].0 =~= t[j].0 {
            assert(name_code(t[i].0) == name_code(t[j].0));
            assert(false);
        }
    }
}

struct Entry {
    name: Vec<u8>,
    addr: usize,
}

/// A symbol table held as its entries in insertion order, no name twice.
pub struct SymbolTable {
    entries: Vec<Entry>,
}

impl View for SymbolTable {
    type V = TableModel;

    closed spec fn view(&self) -> TableModel {
        Seq::new(self.entries@.len(), |i: int| (self.entries@[i].name@, self.entries@[i].addr as int))
    }
}

impl SymbolTable {
    /// The table keeps no duplicate name, and every address fits the machine.
    pub open spec fn wf(&self) -> bool {
        tbl_wf(self@)
    }

    /// An empty table; the assembler itself starts from `new` instead.
    pub fn empty() -> (t: SymbolTable)
        ensures
            t@ == Seq::<(Seq<u8>, int)>::empty(),
            t.wf(),
    {
        let t = SymbolTable { entries: Vec::new() };
        proof {
            assert(t@ =~~= Seq::<(Seq<u8>, int)>::empty());
        }
        t
    }

    /// A table holding exactly the predefined entries.
    #[verifier::rlimit(60)]
    pub fn new() -> (t: SymbolTable)
        ensures
            t@ == predefined_table(),
            t.wf(),
    {
        let mut entries: Vec<Entry> = Vec::new();
        entries.push(Entry { name: name2(LET_R, DIG_0), addr: 0 });
        entries.push(Entry { name: name2(LET_R, DIG_1), addr: 1 });
        entries.push(Entry { name: name2(LET_R, DIG_2), addr: 2 });
        entries.push(Entry { name: name2(LET_R, DIG_3), addr: 3 });
        entries.push(Entry { name: name2(LET_R, DIG_4), addr: 4 });
        entries.push(Entry { name: name2(LET_R, DIG_5), addr: 5 });
        entries.push(Entry { name: name2(LET_R, DIG_6), addr: 6 });
        entries.push(Entry { name: name2(LET_R, DIG_7), addr: 7 });
        entries.push(Entry { name: name2(LET_R, DIG_8), addr: 8 });
        entries.push(Entry { name: name2(LET_R, DIG_9), addr: 9 });
        entries.push(Entry { name: name3(LET_R, DIG_1, DIG_0), addr: 10 });
        entries.push(Entry { name: name3(LET_R, DIG_1, DIG_1), addr: 11 });
        entries.push(Entry { name: name3(LET_R, DIG_1, DIG_2), addr: 12 });
        entries.push(Entry { name: name3(LET_R, DIG_1, DIG_3), addr: 13 });
        entries.push(Entry { name: name3(LET_R, DIG_1, DIG_4), addr: 14 });
        entries.push(Entry { name: name3(LET_R, DIG_1, DIG_5), addr: 15 });
        let mut screen: Vec<u8> = name3(LET_S, LET_C, LET_R);
        screen.push(LET_E);
        screen.push(LET_E);
        screen.push(LET_N);
        entries.push(Entry { name: screen, addr: 16384 });
        entries.push(Entry { name: name3(LET_K, LET_B, LET_D), addr: 24576 });
        entries.push(Entry { name: name2(LET_S, LET_P), addr: 0 });
        entries.push(Entry { name: name3(LET_L, LET_C, LET_L), addr: 1 });
        entries.push(Entry { name: name3(LET_A, LET_R, LET_G), addr: 2 });
        let mut this_name: Vec<u8> = name3(LET_T, LET_H, LET_I);
        this_name.push(LET_S);
        entries.push(Entry { name: this_name, addr: 3 });
        let mut that_name: Vec<u8> = name3(LET_T, LET_H, LET_A);
        that_name.push(LET_T);
        entries.push(Entry { name: that_name, addr: 4 });
        let t = SymbolTable { entries };
        proof {
            assert(t@ =~~= predefined_table());
            lemma_predefined_wf();
        }
        t
    }

    /// The address bound to `name`, if any.
    pub fn lookup(&self, name: &[u8]) -> (r: Option<usize>)
        ensures
            match r {
                Some(a) => tbl_lookup(self@, name@) == Some(a as int),
                None => tbl_lookup(self@, name@) is None,
            },
    {
        let n: usize = self.entries.len();
        let mut i: usize = 0;
        proof {
            assert(self@.skip(0) =~= self@);
        }
        while i < n
            invariant
                0 <= i <= n,
                n == self.entries@.len(),
                tbl_lookup(self@, name@) == tbl_lookup(self@.skip(i as int), name@),
            decreases n - i,
        {
            proof {
                assert(self@.skip(i as int)[0] == self@[i as int]);
                assert(self@.skip(i as int).drop_first() =~= self@.skip(i as int + 1));
            }
            if bytes_eq(self.entries[i].name.as_slice(), name) {
                return Some(self.entries[i].addr);
            }
            i = i + 1;
        }
        proof {
            assert(self@.skip(n as int) =~= Seq::<(Seq<u8>, int)>::empty());
        }
        None
    }

    /// Bind `name` to `addr` unless it is already bound; the first binding
    /// always wins. Returns whether the binding is new.
    pub fn define_if_absent(&mut self, name: &[u8], addr: usize) -> (fresh: bool)
        requires
            old(self).wf(),
        ensures
            final(self).wf(),
            final(self)@ == tbl_define(old(self)@, name@, addr as int),
            fresh == !tbl_contains(old(self)@, name@),
    {
        proof {
            lemma_tbl_lookup_contains(self@, name@);
        }
        match self.lookup(name) {
            Some(_) => false,
            None => {
                let entry = Entry { name: vstd::slice::slice_to_vec(name), addr };
                let ghost pre: TableModel = self@;
                self.entries.push(entry);
                proof {
                    assert(self@ =~~= pre.push((name@, addr as int)));
                    assert forall|i: int, j: int|
                        0 <= i < j < self@.len() implies (#[trigger] self@[i]).0 != (
                    #[trigger] self@[j]).0 by {
                        if j == self@.len() - 1 {
                            assert(!tbl_contains(pre, name@));
                            assert(pre[i].0 == self@[i].0);
                        }
                    }
                }
                true
            },
        }
    }
}

fn name2(a: u8, b: u8) -> (r: Vec<u8>)
    ensures
        r@ == seq![a, b],
{
    let mut r: Vec<u8> = Vec::new();
    r.push(a);
    r.push(b);
    proof {
        assert(r@ =~= seq![a, b]);
    }
    r
}

fn name3(a: u8, b: u8, c: u8) -> (r: Vec<u8>)
    ensures
        r@ == seq![a, b, c],
{
    let mut r: Vec<u8> = Vec::new();
    r.push(a);
    r.push(b);
    r.push(c);
    proof {
        assert(r@ =~= seq![a, b, c]);
    }
    r
}

} // verus!
