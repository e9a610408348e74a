use vstd::prelude::*;

verus! {

/// A name table: identifier names mapped to arena handles.
/// Entries are kept in insertion order; a later entry for a name
/// overrides an earlier one.
#[derive(Debug)]
pub struct Table {
    pub entries: Vec<(u64, usize)>,
}

/// The handle bound to `k` in a list of entries: the last entry for `k` wins.
pub open spec fn seq_get(s: Seq<(u64, usize)>, k: u64) -> Option<usize>
    decreases s.len(),
{
    if s.len() == 0 {
        None
    } else if s.last().0 == k {
        Some(s.last().1)
    } else {
        seq_get(s.drop_last(), k)
    }
}

/// Every handle in the entries is below `n`.
pub open spec fn seq_bounded(s: Seq<(u64, usize)>, n: nat) -> bool {
    forall|i: int| 0 <= i < s.len() ==> #[trigger] s[i].1 < n
}

/// No name appears twice.
pub open spec fn seq_unique(s: Seq<(u64, usize)>) -> bool {
    forall|i: int, j: int| 0 <= i < j < s.len() ==> #[trigger] s[i].0 != #[trigger] s[j].0
}

pub proof fn lemma_seq_get_bounded(s: Seq<(u64, usize)>, k: u64, n: nat)
    requires
        seq_bounded(s, n),
    ensures
        seq_get(s, k) matches Some(v) ==> v < n,
    decreases s.len(),
{
    if s.len() > 0 && s.last().0 != k {
        assert(seq_bounded(s.drop_last(), n)) by {
            assert forall|i: int| 0 <= i < s.drop_last().len() implies #[trigger] s.drop_last()[i].1
                < n by {
                assert(s.drop_last()[i] == s[i]);
            }
        }
        lemma_seq_get_bounded(s.drop_last(), k, n);
    }
}

pub proof fn lemma_seq_get_found(s: Seq<(u64, usize)>, k: u64)
    requires
        seq_get(s, k) is Some,
    ensures
        exists|i: int| 0 <= i < s.len() && s[i].0 == k && s[i].1 == seq_get(s, k)->0,
    decreases s.len(),
{
    if s.last().0 == k {
        assert(s[s.len() - 1].0 == k);
    } else {
        lemma_seq_get_found(s.drop_last(), k);
        let i = choose|i: int|
            0 <= i < s.drop_last().len() && s.drop_last()[i].0 == k && s.drop_last()[i].1 == seq_get(
                s.drop_last(),
                k,
            )->0;
        assert(s[i] == s.drop_last()[i]);
    }
}

pub proof fn lemma_seq_get_absent(s: Seq<(u64, usize)>, k: u64, i: int)
    requires
        seq_get(s, k) is None,
        0 <= i < s.len(),
    ensures
        s[i].0 != k,
    decreases s.len(),
{
    if i < s.len() - 1 {
        assert(s[i] == s.drop_last()[i]);
        lemma_seq_get_absent(s.drop_last(), k, i);
    }
}

impl Table {
    pub open spec fn get(&self, k: u64) -> Option<usize> {
        seq_get(self.entries@, k)
    }

    /// Every binding of `self` stands unchanged in `other`.
    pub open spec fn grows_to(&self, other: &Table) -> bool {
        forall|k: u64| #[trigger] self.get(k) is Some ==> other.get(k) == self.get(k)
    }

    pub fn new() -> (r: Table)
        ensures
            r.entries@ == Seq::<(u64, usize)>::empty(),
    {
        Table { entries: Vec::new() }
    }

    pub fn lookup(&self, k: u64) -> (r: Option<usize>)
        ensures
            r == self.get(k),
    {
        let mut i: usize = self.entries.len();
        assert(self.entries@.subrange(0, i as int) =~= self.entries@);
        while i > 0
            invariant
                i <= self.entries@.len(),
                seq_get(self.entries@, k) == seq_get(self.entries@.subrange(0, i as int), k),
            decreases i,
        {
            let e = self.entries[i - 1];
            let ghost s = self.entries@.subrange(0, i as int);
            assert(s.drop_last() =~= self.entries@.subrange(0, i - 1));
            if e.0 == k {
                return Some(e.1);
            }
            i = i - 1;
        }
        proof {
            assert(self.entries@.subrange(0, 0).len() == 0);
        }
        None
    }

    /// Binds `k` to `v`, overriding any earlier binding of `k`.
    pub fn insert(&mut self, k: u64, v: usize)
        ensures
            final(self).entries@ == old(self).entries@.push((k, v)),
    {
        self.entries.push((k, v));
    }
}

pub proof fn lemma_get_push(s: Seq<(u64, usize)>, e: (u64, usize), k: u64)
    ensures
        seq_get(s.push(e), k) == if e.0 == k {
            Some(e.1)
        } else {
            seq_get(s, k)
        },
{
    assert(s.push(e).drop_last() =~= s);
}

} // verus!
