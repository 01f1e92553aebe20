//! An in-memory map from symbol (a byte string) to a copyable value,
//! backed by an association list. It carries the per-symbol state of the
//! two stages: last forwarded price, and last alert time. Entries are
//! created on first sighting and updated in place; nothing is deleted.

use vstd::prelude::*;

verus! {

/// Byte-wise equality of two byte strings.
pub fn bytes_eq(a: &[u8], b: &[u8]) -> (r: bool)
    ensures
        r == (a@ == b@),
{
    if a.len() != b.len() {
        proof {
            assert(a@ != b@);
        }
        return false;
    }
    let n = a.len();
    let mut i: usize = 0;
    while i < n
        invariant
            n == a@.len() == b@.len(),
            i <= n,
            forall|j: int| 0 <= j < i ==> a@[j] == b@[j],
        decreases n - i,
    {
        if a[i] != b[i] {
            return false;
        }
        i = i + 1;
    }
    proof {
        assert(a@ =~= b@);
    }
    true
}


/// An owned copy of a byte string.
pub fn own_bytes(a: &[u8]) -> (r: Vec<u8>)
    ensures
        r@ == a@,
{
    let n = a.len();
    let mut r: Vec<u8> = Vec::new();
    let mut i: usize = 0;
    while i < n
        invariant
            n == a@.len(),
            i <= n,
            r@ == a@.take(i as int),
        decreases n - i,
    {
        r.push(a[i]);
        proof {
            assert(a@.take(i + 1) =~= a@.take(i as int).push(a@[i as int]));
        }
        i = i + 1;
    }
    proof {
        assert(a@.take(n as int) =~= a@);
    }
    r
}

pub struct SymMap<V> {
    pairs: Vec<(Vec<u8>, V)>,
}

impl<V: Copy> SymMap<V> {
    /// The value under `k`: the first entry whose key is `k`, if any.
    pub closed spec fn spec_get(&self, k: Seq<u8>) -> Option<V> {
        Self::find(self.pairs@, k, 0)
    }

    pub open spec fn contains(&self, k: Seq<u8>) -> bool {
        self.spec_get(k) is Some
    }

    spec fn find(s: Seq<(Vec<u8>, V)>, k: Seq<u8>, i: int) -> Option<V>
        decreases s.len() - i,
    {
        if i < 0 || i >= s.len() {
            None
        } else if s[i].0@ == k {
            Some(s[i].1)
        } else {
            Self::find(s, k, i + 1)
        }
    }

    /// A search that saw no match up to `i` resolves like one started at `i`.
    proof fn lemma_find_skip(s: Seq<(Vec<u8>, V)>, k: Seq<u8>, i: int)
        requires
            0 <= i <= s.len(),
            forall|j: int| 0 <= j < i ==> (#[trigger] s[j]).0@ != k,
        ensures
            Self::find(s, k, 0) == Self::find(s, k, i),
        decreases i,
    {
        if i > 0 {
            Self::lemma_find_skip_from(s, k, 0, i);
        }
    }

    proof fn lemma_find_skip_from(s: Seq<(Vec<u8>, V)>, k: Seq<u8>, lo: int, hi: int)
        requires
            0 <= lo <= hi <= s.len(),
            forall|j: int| lo <= j < hi ==> (#[trigger] s[j]).0@ != k,
        ensures
            Self::find(s, k, lo) == Self::find(s, k, hi),
        decreases hi - lo,
    {
        if lo < hi {
            Self::lemma_find_skip_from(s, k, lo + 1, hi);
        }
    }

    /// Two lists that agree everywhere a key could match resolve alike.
    proof fn lemma_find_agree(s: Seq<(Vec<u8>, V)>, s2: Seq<(Vec<u8>, V)>, k: Seq<u8>, i: int)
        requires
            s.len() == s2.len(),
            0 <= i <= s.len(),
            forall|j: int|
                0 <= j < s.len() ==> ((#[trigger] s[j]).0@ == k <==> s2[j].0@ == k) && (s[j].0@
                    == k ==> s[j].1 == s2[j].1),
        ensures
            Self::find(s, k, i) == Self::find(s2, k, i),
        decreases s.len() - i,
    {
        if i >= 0 && i < s.len() {
            Self::lemma_find_agree(s, s2, k, i + 1);
        }
    }

    pub fn new() -> (r: Self)
        ensures
            forall|k: Seq<u8>| r.spec_get(k) is None,
    {
        SymMap { pairs: Vec::new() }
    }

    pub fn get(&self, k: &[u8]) -> (r: Option<V>)
        ensures
            r == self.spec_get(k@),
    {
        let n = self.pairs.len();
        let mut i: usize = 0;
        while i < n
            invariant
                n == self.pairs@.len(),
                i <= n,
                Self::find(self.pairs@, k@, 0) == Self::find(self.pairs@, k@, i as int),
            decreases n - i,
        {
            if bytes_eq(self.pairs[i].0.as_slice(), k) {
                return Some(self.pairs[i].1);
            }
            i = i + 1;
        }
        None
    }

    /// Binds `k` to `v`: overwrites the entry if the symbol is known,
    /// appends one otherwise. No other symbol's binding changes.
    pub fn put(&mut self, k: &Vec<u8>, v: V)
        ensures
            final(self).spec_get(k@) == Some(v),
            forall|k2: Seq<u8>| k2 != k@ ==> final(self).spec_get(k2) == old(self).spec_get(k2),
    {
        let n = self.pairs.len();
        let mut i: usize = 0;
        while i < n
            invariant
                n == self.pairs@.len(),
                i <= n,
                self.pairs == old(self).pairs,
                forall|j: int| 0 <= j < i ==> (#[trigger] self.pairs@[j]).0@ != k@,
            decreases n - i,
        {
            if bytes_eq(self.pairs[i].0.as_slice(), k) {
                let ghost s = self.pairs@;
                let kk = own_bytes(k.as_slice());
                self.pairs.set(i, (kk, v));
                proof {
                    let s2 = self.pairs@;
                    assert(s2[i as int].0@ == k@ && s2[i as int].1 == v);
                    Self::lemma_find_skip(s2, k@, i as int);
                    assert(Self::find(s2, k@, i as int) == Some(v));
                    assert forall|k2: Seq<u8>| k2 != k@ implies Self::find(s2, k2, 0)
                        == Self::find(s, k2, 0) by {
                        Self::lemma_find_agree(s, s2, k2, 0);
                    }
                }
                return ;
            }
            i = i + 1;
        }
        let ghost s = self.pairs@;
        let kk = own_bytes(k.as_slice());
        self.pairs.push((kk, v));
        proof {
            let s2 = self.pairs@;
            assert(s2[n as int].0@ == k@ && s2[n as int].1 == v);
            Self::lemma_find_skip(s2, k@, n as int);
            assert(Self::find(s2, k@, n as int) == Some(v));
            assert forall|k2: Seq<u8>| k2 != k@ implies Self::find(s2, k2, 0) == Self::find(
                s,
                k2,
                0,
            ) by {
                Self::lemma_find_push_other(s, k2, s2[n as int], 0);
            }
        }
    }

    /// Appending an entry for another key changes no search for this one.
    proof fn lemma_find_push_other(
        s: Seq<(Vec<u8>, V)>,
        k2: Seq<u8>,
        p: (Vec<u8>, V),
        i: int,
    )
        requires
            0 <= i <= s.len(),
            p.0@ != k2,
        ensures
            Self::find(s.push(p), k2, i) == Self::find(s, k2, i),
        decreases s.len() - i,
    {
        if i < s.len() {
            assert(s.push(p)[i] == s[i]);
            Self::lemma_find_push_other(s, k2, p, i + 1);
        } else {
            assert(s.push(p)[s.len() as int] == p);
            assert(Self::find(s.push(p), k2, i + 1) == None::<V>);
            assert(Self::find(s.push(p), k2, i) == None::<V>);
            assert(Self::find(s, k2, i) == None::<V>);
        }
    }
}

} // verus!
