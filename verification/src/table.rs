//! The ordered variable table of a route: variable name (with its leading
//! `:` sigil) mapped to its zero-based capture position.
//!
//! Entries keep the order in which names first appear in the pattern. A
//! name that occurs again keeps its slot but takes the position of its
//! later occurrence, so the last occurrence wins — the behaviour of a
//! name-keyed map filled in occurrence order.

use vstd::prelude::*;

verus! {

/// Insert-or-update: an existing entry keeps its slot and takes the new
/// position; a new name is appended.
pub open spec fn upsert(
    m: Seq<(Seq<char>, int)>,
    name: Seq<char>,
    pos: int,
) -> Seq<(Seq<char>, int)>
    decreases m.len(),
{
    if m.len() == 0 {
        seq![(name, pos)]
    } else if m[0].0 == name {
        seq![(name, pos)] + m.skip(1)
    } else {
        seq![m[0]] + upsert(m.skip(1), name, pos)
    }
}

/// The table built from the token sequence of a pattern: the token of rank
/// `i` is inserted with position `i`.
pub open spec fn table_of(tokens: Seq<Seq<char>>) -> Seq<(Seq<char>, int)>
    decreases tokens.len(),
{
    if tokens.len() == 0 {
        Seq::empty()
    } else {
        upsert(table_of(tokens.drop_last()), tokens.last(), tokens.len() - 1)
    }
}

/// The position of `name` in the table, if the name is present.
pub open spec fn lookup(m: Seq<(Seq<char>, int)>, name: Seq<char>) -> Option<int>
    decreases m.len(),
{
    if m.len() == 0 {
        None
    } else if m[0].0 == name {
        Some(m[0].1)
    } else {
        lookup(m.skip(1), name)
    }
}

/// An ordered mapping from variable name to capture position.
pub struct VarTable {
    entries: Vec<(String, usize)>,
}

impl View for VarTable {
    type V = Seq<(Seq<char>, int)>;

    closed spec fn view(&self) -> Seq<(Seq<char>, int)> {
        Seq::new(self.entries@.len(), |i: int| (self.entries@[i].0@, self.entries@[i].1 as int))
    }
}

impl VarTable {
    /// The empty table.
    pub fn new() -> (r: VarTable)
        ensures
            r@ == Seq::<(Seq<char>, int)>::empty(),
    {
        let r = VarTable { entries: Vec::new() };
        proof {
            assert(r@ =~= Seq::<(Seq<char>, int)>::empty());
        }
        r
    }

    /// Number of entries: one per distinct variable name.
    pub fn len(&self) -> (r: usize)
        ensures
            r == self@.len(),
    {
        self.entries.len()
    }

    /// The entry at slot `k`, in first-appearance order.
    pub fn entry_at(&self, k: usize) -> (r: (String, usize))
        requires
            k < self@.len(),
        ensures
            (r.0@, r.1 as int) == self@[k as int],
    {
        let e = &self.entries[k];
        (e.0.clone(), e.1)
    }

    /// The position recorded for `name`, if any.
    pub fn get(&self, name: &String) -> (r: Option<usize>)
        ensures
            match r {
                Some(p) => lookup(self@, name@) == Some(p as int),
                None => lookup(self@, name@) is None,
            },
    {
        let n = self.entries.len();
        let mut k: usize = 0;
        while k < n
            invariant
                k <= n,
                n == self.entries@.len(),
                forall|i: int| 0 <= i < k ==> self@[i].0 != name@,
            decreases n - k,
        {
            if self.entries[k].0 == *name {
                proof {
                    lemma_lookup_found(self@, name@, k as int);
                }
                return Some(self.entries[k].1);
            }
            k = k + 1;
        }
        proof {
            lemma_lookup_absent(self@, name@);
        }
        None
    }

    /// Insert-or-update, with `upsert`'s meaning.
    pub fn insert(&mut self, name: String, pos: usize)
        ensures
            final(self)@ == upsert(old(self)@, name@, pos as int),
    {
        let n = self.entries.len();
        let mut k: usize = 0;
        while k < n
            invariant
                k <= n,
                self == old(self),
                n == self.entries@.len(),
                forall|i: int| 0 <= i < k ==> self@[i].0 != name@,
            decreases n - k,
        {
            if self.entries[k].0 == name {
                proof {
                    lemma_upsert_found(self@, name@, pos as int, k as int);
                }
                self.entries[k] = (name, pos);
                proof {
                    assert(self@ =~= old(self)@.update(k as int, (name@, pos as int)));
                }
                return ;
            }
            k = k + 1;
        }
        proof {
            lemma_upsert_absent(self@, name@, pos as int);
        }
        self.entries.push((name, pos));
        proof {
            assert(self@ =~= old(self)@.push((name@, pos as int)));
        }
    }
}

impl Clone for VarTable {
    /// The clone holds the same entries, in the same order.
    fn clone(&self) -> (res: Self)
        ensures
            res@ == self@,
    {
        let n = self.entries.len();
        let mut entries: Vec<(String, usize)> = Vec::new();
        let mut k: usize = 0;
        while k < n
            invariant
                k <= n,
                n == self.entries@.len(),
                entries@.len() == k,
                forall|i: int|
                    0 <= i < k ==> (#[trigger] entries@[i]).0@ == self.entries@[i].0@
                        && entries@[i].1 == self.entries@[i].1,
            decreases n - k,
        {
            let e = &self.entries[k];
            entries.push((e.0.clone(), e.1));
            k = k + 1;
        }
        let res = VarTable { entries };
        proof {
            assert(res@ =~= self@);
        }
        res
    }
}

/// When `name` is absent, `upsert` appends.
proof fn lemma_upsert_absent(m: Seq<(Seq<char>, int)>, name: Seq<char>, pos: int)
    requires
        forall|i: int| 0 <= i < m.len() ==> m[i].0 != name,
    ensures
        upsert(m, name, pos) == m.push((name, pos)),
    decreases m.len(),
{
    if m.len() == 0 {
        assert(upsert(m, name, pos) =~= m.push((name, pos)));
    } else {
        assert(m[0].0 != name);
        assert(forall|i: int| 0 <= i < m.skip(1).len() ==> m.skip(1)[i].0 != name);
        lemma_upsert_absent(m.skip(1), name, pos);
        assert(upsert(m, name, pos) =~= m.push((name, pos)));
    }
}

/// When `name` sits first at slot `k`, `upsert` updates that slot.
proof fn lemma_upsert_found(m: Seq<(Seq<char>, int)>, name: Seq<char>, pos: int, k: int)
    requires
        0 <= k < m.len(),
        m[k].0 == name,
        forall|i: int| 0 <= i < k ==> m[i].0 != name,
    ensures
        upsert(m, name, pos) == m.update(k, (name, pos)),
    decreases m.len(),
{
    if k == 0 {
        assert(upsert(m, name, pos) =~= m.update(0, (name, pos)));
    } else {
        assert(m[0].0 != name);
        assert(m.skip(1)[k - 1].0 == name);
        assert(forall|i: int| 0 <= i < k - 1 ==> m.skip(1)[i].0 != name);
        lemma_upsert_found(m.skip(1), name, pos, k - 1);
        assert(upsert(m, name, pos) =~= m.update(k, (name, pos)));
    }
}

/// Law: when the tokens of a pattern are pairwise distinct, the table has
/// exactly one entry per token, in token order, with positions `0..k-1`
/// matching the tokens' left-to-right order.
pub proof fn lemma_table_of_distinct(tokens: Seq<Seq<char>>)
    requires
        forall|i: int, j: int| 0 <= i < j < tokens.len() ==> tokens[i] != tokens[j],
    ensures
        table_of(tokens).len() == tokens.len(),
        forall|i: int| 0 <= i < tokens.len() ==> table_of(tokens)[i] == (tokens[i], i),
    decreases tokens.len(),
{
    if tokens.len() > 0 {
        let front = tokens.drop_last();
        let n = tokens.len() - 1;
        assert(forall|i: int, j: int| 0 <= i < j < front.len() ==> front[i] != front[j]);
        lemma_table_of_distinct(front);
        assert(forall|i: int| 0 <= i < table_of(front).len() ==> table_of(front)[i].0
            != tokens.last()) by {
            assert(forall|i: int| 0 <= i < front.len() ==> front[i] == tokens[i]);
        }
        lemma_upsert_absent(table_of(front), tokens.last(), n);
        assert(table_of(tokens) == table_of(front).push((tokens.last(), n)));
    }
}

/// When `name` is absent, `lookup` finds nothing.
proof fn lemma_lookup_absent(m: Seq<(Seq<char>, int)>, name: Seq<char>)
    requires
        forall|i: int| 0 <= i < m.len() ==> m[i].0 != name,
    ensures
        lookup(m, name) is None,
    decreases m.len(),
{
    if m.len() > 0 {
        assert(forall|i: int| 0 <= i < m.skip(1).len() ==> m.skip(1)[i].0 != name);
        lemma_lookup_absent(m.skip(1), name);
    }
}

/// When `name` sits first at slot `k`, `lookup` yields that slot's position.
proof fn lemma_lookup_found(m: Seq<(Seq<char>, int)>, name: Seq<char>, k: int)
    requires
        0 <= k < m.len(),
        m[k].0 == name,
        forall|i: int| 0 <= i < k ==> m[i].0 != name,
    ensures
        lookup(m, name) == Some(m[k].1),
    decreases m.len(),
{
    if k == 0 {
    } else {
        assert(m[0].0 != name);
        assert(m.skip(1)[k - 1].0 == name);
        assert(forall|i: int| 0 <= i < k - 1 ==> m.skip(1)[i].0 != name);
        lemma_lookup_found(m.skip(1), name, k - 1);
    }
}

} // verus!
