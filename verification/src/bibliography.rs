use vstd::prelude::*;

use crate::record::{Record, RecordView};

verus! {

/// True when some record of `s` carries the citation key `k`.
pub open spec fn contains_key(s: Seq<RecordView>, k: Seq<char>) -> bool {
    exists|i: int| 0 <= i < s.len() && s[i].key == k
}

/// True when no two records of `s` share a citation key.
pub open spec fn unique_keys(s: Seq<RecordView>) -> bool {
    forall|i: int, j: int| 0 <= i < j < s.len() ==> s[i].key != s[j].key
}

/// An ordered collection of records. Insertion order is preserved and is
/// significant: the duplicate scan walks the records in this order. Callers
/// keep the citation keys unique (see [`unique_keys`]); every operation of
/// this crate that grows a bibliography preserves that.
#[derive(Debug)]
pub struct Bibliography {
    entries: Vec<Record>,
}

impl View for Bibliography {
    type V = Seq<RecordView>;

    closed spec fn view(&self) -> Seq<RecordView> {
        Seq::new(self.entries@.len(), |i: int| self.entries@[i]@)
    }
}

impl Bibliography {
    /// An empty bibliography.
    pub fn new() -> (r: Self)
        ensures
            r@ == Seq::<RecordView>::empty(),
    {
        let r = Bibliography { entries: Vec::new() };
        proof {
            assert(r@ =~= Seq::<RecordView>::empty());
        }
        r
    }

    /// The number of records.
    pub fn len(&self) -> (r: usize)
        ensures
            r == self@.len(),
    {
        self.entries.len()
    }

    /// The record at position `i`, in insertion order.
    pub fn index(&self, i: usize) -> (r: &Record)
        requires
            i < self@.len(),
        ensures
            r@ == self@[i as int],
    {
        &self.entries[i]
    }

    /// Appends a record at the end. The caller answers for the key being new.
    pub fn push(&mut self, r: Record)
        ensures
            final(self)@ == old(self)@.push(r@),
    {
        self.entries.push(r);
        proof {
            assert(self@ =~= old(self)@.push(r@));
        }
    }

    /// Whether some record carries the key `k`.
    pub fn has_key(&self, k: &String) -> (r: bool)
        ensures
            r == contains_key(self@, k@),
    {
        let n = self.entries.len();
        let mut i: usize = 0;
        while i < n
            invariant
                n == self@.len(),
                i <= n,
                forall|j: int| 0 <= j < i ==> self@[j].key != k@,
            decreases n - i,
        {
            if self.entries[i].key == *k {
                assert(self@[i as int].key == k@);
                return true;
            }
            i += 1;
        }
        false
    }

    /// The first record carrying the key `k`, if any.
    pub fn get(&self, k: &String) -> (r: Option<&Record>)
        ensures
            match r {
                Option::Some(e) => {
                    &&& exists|i: int|
                        0 <= i < self@.len() && self@[i] == e@ && (forall|j: int|
                            0 <= j < i ==> self@[j].key != k@)
                    &&& e@.key == k@
                },
                Option::None => !contains_key(self@, k@),
            },
    {
        let n = self.entries.len();
        let mut i: usize = 0;
        while i < n
            invariant
                n == self@.len(),
                i <= n,
                forall|j: int| 0 <= j < i ==> self@[j].key != k@,
            decreases n - i,
        {
            if self.entries[i].key == *k {
                let e = &self.entries[i];
                assert(self@[i as int] == e@ && self@[i as int].key == k@);
                return Option::Some(e);
            }
            i += 1;
        }
        Option::None
    }

    /// Removes the first record carrying the key `k`, if any.
    pub fn remove(&mut self, k: &String)
        ensures
            !contains_key(old(self)@, k@) ==> final(self)@ == old(self)@,
            contains_key(old(self)@, k@) ==> exists|i: int|
                {
                    &&& 0 <= i < old(self)@.len()
                    &&& old(self)@[i].key == k@
                    &&& (forall|j: int| 0 <= j < i ==> old(self)@[j].key != k@)
                    &&& final(self)@ == old(self)@.remove(i)
                },
    {
        let n = self.entries.len();
        let mut i: usize = 0;
        while i < n
            invariant
                n == self@.len(),
                self@ == old(self)@,
                i <= n,
                forall|j: int| 0 <= j < i ==> self@[j].key != k@,
            decreases n - i,
        {
            if self.entries[i].key == *k {
                let ghost found: int = i as int;
                self.entries.remove(i);
                proof {
                    assert(self@ =~= old(self)@.remove(found));
                    assert(old(self)@[found].key == k@);
                }
                return ;
            }
            i += 1;
        }
    }

    /// Gives the records up, in insertion order.
    pub fn into_records(self) -> (r: Vec<Record>)
        ensures
            r@.len() == self@.len(),
            forall|i: int| 0 <= i < r@.len() ==> r@[i]@ == self@[i],
    {
        self.entries
    }

}

} // verus!
