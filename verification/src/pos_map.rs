use vstd::prelude::*;

verus! {

/// A finite map keyed by grid position, kept as a list of entries with
/// pairwise distinct keys (in insertion order).
pub struct PosMap<V> {
    entries: Vec<((i32, i32), V)>,
}

impl<V> PosMap<V> {
    /// The entries, in insertion order.
    pub closed spec fn entry_seq(&self) -> Seq<((i32, i32), V)> {
        self.entries@
    }

    /// No key occurs twice.
    pub closed spec fn wf(&self) -> bool {
        forall|i: int, j: int|
            0 <= i < self.entries@.len() && 0 <= j < self.entries@.len() && i != j
                ==> #[trigger] self.entries@[i].0 != #[trigger] self.entries@[j].0
    }

    pub open spec fn has_key(s: Seq<((i32, i32), V)>, k: (i32, i32)) -> bool {
        exists|i: int| 0 <= i < s.len() && #[trigger] s[i].0 == k
    }

    pub open spec fn key_index(s: Seq<((i32, i32), V)>, k: (i32, i32)) -> int {
        choose|i: int| 0 <= i < s.len() && #[trigger] s[i].0 == k
    }

    /// The mathematical map that the entries describe.
    pub open spec fn view(&self) -> Map<(i32, i32), V> {
        Map::new(
            |k: (i32, i32)| Self::has_key(self.entry_seq(), k),
            |k: (i32, i32)| self.entry_seq()[Self::key_index(self.entry_seq(), k)].1,
        )
    }

    pub fn new() -> (m: Self)
        ensures
            m.wf(),
            m.entry_seq().len() == 0,
            m@ == Map::<(i32, i32), V>::empty(),
    {
        let m = PosMap { entries: Vec::new() };
        assert(m@ =~= Map::<(i32, i32), V>::empty());
        m
    }

    /// All entries, in insertion order.
    pub fn entries(&self) -> (r: &Vec<((i32, i32), V)>)
        ensures
            r@ == self.entry_seq(),
    {
        &self.entries
    }

    pub fn len(&self) -> (n: usize)
        requires
            self.wf(),
        ensures
            n == self.entry_seq().len(),
            n == self@.dom().len(),
    {
        proof {
            self.lemma_dom_len();
        }
        self.entries.len()
    }

    pub fn is_empty(&self) -> (b: bool)
        ensures
            b == (self@.dom() == Set::<(i32, i32)>::empty()),
            b == (self.entry_seq().len() == 0),
    {
        if self.entries.len() == 0 {
            assert(self@.dom() =~= Set::<(i32, i32)>::empty());
            true
        } else {
            assert(self@.dom().contains(self.entries@[0].0));
            false
        }
    }

    /// Each entry is an entry of the map.
    pub proof fn lemma_key_index(&self, i: int)
        requires
            self.wf(),
            0 <= i < self.entry_seq().len(),
        ensures
            Self::key_index(self.entry_seq(), self.entry_seq()[i].0) == i,
            self@.dom().contains(self.entry_seq()[i].0),
            self@[self.entry_seq()[i].0] == self.entry_seq()[i].1,
    {
        let k = self.entries@[i].0;
        assert(Self::has_key(self.entry_seq(), k));
    }

    proof fn lemma_dom_len(&self)
        requires
            self.wf(),
        ensures
            self@.dom().finite(),
            self@.dom().len() == self.entries@.len(),
        decreases self.entries@.len(),
    {
        let s = self.entries@;
        let keys = s.map_values(|e: ((i32, i32), V)| e.0);
        assert forall|i: int, j: int| 0 <= i < keys.len() && 0 <= j < keys.len() && i != j
            implies keys[i] != keys[j] by {
            assert(s[i].0 != s[j].0);
        }
        keys.unique_seq_to_set();
        assert(self@.dom() =~= keys.to_set()) by {
            assert forall|k: (i32, i32)| self@.dom().contains(k) implies keys.to_set().contains(k) by {
                let i = Self::key_index(s, k);
                assert(keys[i] == k);
            }
            assert forall|k: (i32, i32)| keys.to_set().contains(k) implies self@.dom().contains(k) by {
                let i = choose|i: int| 0 <= i < keys.len() && keys[i] == k;
                assert(s[i].0 == k);
            }
        }
    }

    /// Position of `k` among the entries, if present.
    fn find(&self, k: (i32, i32)) -> (r: Option<usize>)
        requires
            self.wf(),
        ensures
            match r {
                Some(i) => i < self.entries@.len() && self.entries@[i as int].0 == k,
                None => !self@.dom().contains(k),
            },
    {
        let n = self.entries.len();
        let mut i: usize = 0;
        while i < n
            invariant
                n == self.entries@.len(),
                i <= n,
                forall|j: int| 0 <= j < i ==> #[trigger] self.entries@[j].0 != k,
            decreases n - i,
        {
            let e = &self.entries[i];
            if e.0.0 == k.0 && e.0.1 == k.1 {
                return Some(i);
            }
            i = i + 1;
        }
        None
    }

    pub fn contains_key(&self, k: (i32, i32)) -> (b: bool)
        requires
            self.wf(),
        ensures
            b == self@.dom().contains(k),
    {
        match self.find(k) {
            Some(i) => {
                proof {
                    self.lemma_key_index(i as int);
                }
                true
            },
            None => false,
        }
    }

    pub fn get(&self, k: (i32, i32)) -> (r: Option<&V>)
        requires
            self.wf(),
        ensures
            r is None <==> !self@.dom().contains(k),
            r matches Some(v) ==> *v == self@[k],
    {
        match self.find(k) {
            Some(i) => {
                proof {
                    self.lemma_key_index(i as int);
                }
                Some(&self.entries[i].1)
            },
            None => None,
        }
    }

    /// Insert or replace the value stored at `k`.
    pub fn insert(&mut self, k: (i32, i32), v: V)
        requires
            old(self).wf(),
        ensures
            final(self).wf(),
            final(self)@ == old(self)@.insert(k, v),
    {
        let ghost old_s = self.entries@;
        match self.find(k) {
            Some(i) => {
                self.entries.set(i, (k, v));
                let ghost s = self.entries@;
                assert(s == old_s.update(i as int, (k, v)));
                assert forall|a: int, b: int| 0 <= a < s.len() && 0 <= b < s.len() && a != b
                    implies #[trigger] s[a].0 != #[trigger] s[b].0 by {
                    assert(old_s[a].0 != old_s[b].0);
                }
                assert(self.wf());
                assert forall|x: (i32, i32)| #[trigger] self@.dom().contains(x)
                    == old(self)@.insert(k, v).dom().contains(x) by {
                    if Self::has_key(old_s, x) {
                        let j = Self::key_index(old_s, x);
                        assert(s[j].0 == x);
                    }
                    if Self::has_key(s, x) {
                        let j = Self::key_index(s, x);
                        assert(old_s[j].0 == x);
                    }
                }
                assert forall|x: (i32, i32)| #[trigger] self@.dom().contains(x)
                    implies self@[x] == old(self)@.insert(k, v)[x] by {
                    let j = Self::key_index(s, x);
                    self.lemma_key_index(j);
                    if x != k {
                        assert(j != i);
                        assert(old_s[j].0 == x);
                        old(self).lemma_key_index(j);
                    } else {
                        assert(j == i);
                    }
                }
                assert(self@ =~= old(self)@.insert(k, v));
            },
            None => {
                self.entries.push((k, v));
                let ghost s = self.entries@;
                assert forall|a: int, b: int| 0 <= a < s.len() && 0 <= b < s.len() && a != b
                    implies #[trigger] s[a].0 != #[trigger] s[b].0 by {
                    if a < old_s.len() && b < old_s.len() {
                        assert(old_s[a].0 != old_s[b].0);
                    } else if a < old_s.len() {
                        assert(old_s[a].0 == s[a].0);
                    } else {
                        assert(old_s[b].0 == s[b].0);
                    }
                }
                assert(self.wf());
                assert forall|x: (i32, i32)| #[trigger] self@.dom().contains(x)
                    == old(self)@.insert(k, v).dom().contains(x) by {
                    if Self::has_key(old_s, x) {
                        let j = Self::key_index(old_s, x);
                        assert(s[j].0 == x);
                    }
                    if x == k {
                        assert(s[old_s.len() as int].0 == k);
                    }
                    if Self::has_key(s, x) && x != k {
                        let j = Self::key_index(s, x);
                        assert(j < old_s.len());
                        assert(old_s[j].0 == x);
                    }
                }
                assert forall|x: (i32, i32)| #[trigger] self@.dom().contains(x)
                    implies self@[x] == old(self)@.insert(k, v)[x] by {
                    let j = Self::key_index(s, x);
                    self.lemma_key_index(j);
                    if x != k {
                        assert(j < old_s.len());
                        assert(old_s[j].0 == x);
                        old(self).lemma_key_index(j);
                    } else {
                        assert(s[old_s.len() as int].0 == k);
                        self.lemma_key_index(old_s.len() as int);
                    }
                }
                assert(self@ =~= old(self)@.insert(k, v));
            },
        }
    }
}

} // verus!
