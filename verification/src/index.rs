//! Per-account secondary index: for each account, the set of loan ids in
//! which that account plays a given role (collateral owner or lender).
//!
//! The index is a keyed collection of id lists.  Ids are kept in insertion
//! order, each id appears at most once per account, and an account whose
//! list becomes empty is removed entirely, so the model `ids_of` maps an
//! absent account to the empty sequence.

use vstd::prelude::*;

verus! {

/// Refusals of index operations.
#[derive(Clone, Copy, Debug, PartialEq, Eq, Structural)]
pub enum IndexError {
    /// The account has no entry, or the id is not recorded under it.
    NotOwned,
}

/// One account's entry: the account name and its loan ids in insertion order.
pub struct IndexEntry {
    pub account: String,
    pub ids: Vec<u64>,
}

/// The index itself: a keyed collection of [`IndexEntry`] values with
/// pairwise-distinct accounts.
pub struct AccountIndex {
    pub entries: Vec<IndexEntry>,
}

/// No id occurs twice in `s`.
pub open spec fn ids_unique(s: Seq<u64>) -> bool {
    forall|p: int, q: int| 0 <= p < q < s.len() ==> s[p] != s[q]
}

impl AccountIndex {
    /// The account name stored at position `i`.
    pub open spec fn key_at(self, i: int) -> Seq<char> {
        self.entries@[i].account@
    }

    /// Whether some entry is keyed by account `a`.
    pub open spec fn has_key(self, a: Seq<char>) -> bool {
        exists|i: int| 0 <= i < self.entries@.len() && self.key_at(i) == a
    }

    /// The position of the entry keyed by `a` (meaningful under `wf` when
    /// `has_key(a)` holds, where it is unique).
    pub open spec fn key_index(self, a: Seq<char>) -> int {
        choose|i: int| 0 <= i < self.entries@.len() && self.key_at(i) == a
    }

    /// The model of the index: the ids recorded for account `a`, in
    /// insertion order; the empty sequence if the account is absent.
    pub open spec fn ids_of(self, a: Seq<char>) -> Seq<u64> {
        if self.has_key(a) {
            self.entries@[self.key_index(a)].ids@
        } else {
            Seq::empty()
        }
    }

    /// Well-formedness: accounts are pairwise distinct, no entry is empty
    /// (empty entries are pruned), and no entry lists an id twice.
    pub open spec fn wf(self) -> bool {
        &&& forall|i: int, j: int|
            0 <= i < j < self.entries@.len() ==> #[trigger] self.key_at(i) != #[trigger] self.key_at(j)
        &&& forall|i: int|
            0 <= i < self.entries@.len() ==> (#[trigger] self.entries@[i].ids@).len() > 0
        &&& forall|i: int|
            0 <= i < self.entries@.len() ==> ids_unique(#[trigger] self.entries@[i].ids@)
    }

    /// Under `wf`, the ids recorded for any account are duplicate-free.
    pub proof fn lemma_ids_of_unique(self, a: Seq<char>)
        requires
            self.wf(),
        ensures
            ids_unique(self.ids_of(a)),
    {
        if self.has_key(a) {
            let i = self.key_index(a);
            assert(0 <= i < self.entries@.len() && self.key_at(i) == a);
            assert(ids_unique(self.entries@[i].ids@));
        }
    }

    /// Under `wf`, position `i` is exactly the one `key_index` picks for
    /// the account stored there, so `ids_of` reads that entry.
    pub proof fn lemma_entry_is_keyed(self, i: int)
        requires
            self.wf(),
            0 <= i < self.entries@.len(),
        ensures
            self.has_key(self.key_at(i)),
            self.key_index(self.key_at(i)) == i,
            self.ids_of(self.key_at(i)) == self.entries@[i].ids@,
    {
        assert(self.has_key(self.key_at(i)));
        let j = self.key_index(self.key_at(i));
        assert(0 <= j < self.entries@.len() && self.key_at(j) == self.key_at(i));
        if i < j {
            assert(self.key_at(i) != self.key_at(j));
        } else if j < i {
            assert(self.key_at(j) != self.key_at(i));
        }
    }

    /// Finds the position of the entry keyed by `account`, if any.
    fn find_entry(&self, account: &String) -> (r: Option<usize>)
        ensures
            match r {
                Some(i) => i < self.entries@.len() && self.key_at(i as int) == account@,
                None => !self.has_key(account@),
            },
    {
        let n = self.entries.len();
        let mut i: usize = 0;
        while i < n
            invariant
                n == self.entries@.len(),
                i <= n,
                forall|k: int| 0 <= k < i ==> self.key_at(k) != account@,
            decreases n - i,
        {
            if self.entries[i].account == *account {
                return Some(i);
            }
            i += 1;
        }
        None
    }

    /// Records `loan_id` under `account`, creating the entry if absent.
    /// A second recording of an id already present changes nothing.
    pub fn add(&mut self, account: &String, loan_id: u64)
        requires
            old(self).wf(),
        ensures
            final(self).wf(),
            final(self).ids_of(account@) == if old(self).ids_of(account@).contains(loan_id) {
                old(self).ids_of(account@)
            } else {
                old(self).ids_of(account@).push(loan_id)
            },
            forall|a: Seq<char>| a != account@ ==> final(self).ids_of(a) == old(self).ids_of(a),
    {
        let ghost pre = *self;
        match self.find_entry(account) {
            Some(i) => {
                proof {
                    pre.lemma_entry_is_keyed(i as int);
                }
                if !contains_id(&self.entries[i].ids, loan_id) {
                    self.entries[i].ids.push(loan_id);
                    proof {
                        let s = pre.entries@[i as int].ids@;
                        assert forall|p: int, q: int|
                            0 <= p < q < s.push(loan_id).len() implies s.push(loan_id)[p] != s.push(
                            loan_id,
                        )[q] by {
                            if q == s.len() {
                                if s[p] == loan_id {
                                    assert(s.contains(loan_id));
                                }
                            }
                        }
                        self.lemma_after_entry_update(pre, i as int, account@);
                    }
                }
            },
            None => {
                let mut ids: Vec<u64> = Vec::new();
                ids.push(loan_id);
                self.entries.push(IndexEntry { account: account.clone(), ids });
                proof {
                    self.lemma_after_entry_append(pre, account@);
                    assert(old(self).ids_of(account@) =~= Seq::<u64>::empty());
                    assert(final(self).ids_of(account@) =~= Seq::<u64>::empty().push(loan_id));
                }
            },
        }
    }

    /// Removes `loan_id` from `account`'s entry, pruning the entry if it
    /// becomes empty.  Fails with `NotOwned`, changing nothing, when the
    /// account has no entry or the id is not recorded under it.
    pub fn remove(&mut self, account: &String, loan_id: u64) -> (r: Result<(), IndexError>)
        requires
            old(self).wf(),
        ensures
            final(self).wf(),
            r is Ok <==> old(self).ids_of(account@).contains(loan_id),
            r is Ok ==> final(self).ids_of(account@) == old(self).ids_of(account@).remove_value(
                loan_id,
            ),
            r is Ok ==> forall|a: Seq<char>|
                a != account@ ==> final(self).ids_of(a) == old(self).ids_of(a),
            r is Err ==> *final(self) == *old(self),
    {
        let ghost pre = *self;
        match self.find_entry(account) {
            Some(i) => {
                proof {
                    pre.lemma_entry_is_keyed(i as int);
                }
                match find_id(&self.entries[i].ids, loan_id) {
                    Some(j) => {
                        let ghost ids = pre.entries@[i as int].ids@;
                        proof {
                            ids.index_of_first_ensures(loan_id);
                            assert(ids.index_of_first(loan_id) == Some(j as int));
                            assert(ids.remove_value(loan_id) == ids.remove(j as int));
                        }
                        if self.entries[i].ids.len() == 1 {
                            self.entries.remove(i);
                            proof {
                                self.lemma_after_entry_drop(pre, i as int, account@);
                                assert(ids.remove(0) =~= Seq::<u64>::empty());
                            }
                        } else {
                            self.entries[i].ids.remove(j);
                            proof {
                                let s2 = ids.remove(j as int);
                                assert forall|p: int, q: int|
                                    0 <= p < q < s2.len() implies s2[p] != s2[q] by {
                                    let p0: int = if p < j { p } else { p + 1 };
                                    let q0: int = if q < j { q } else { q + 1 };
                                    assert(s2[p] == ids[p0]);
                                    assert(s2[q] == ids[q0]);
                                }
                                self.lemma_after_entry_update(pre, i as int, account@);
                            }
                        }
                        Ok(())
                    },
                    None => Err(IndexError::NotOwned),
                }
            },
            None => Err(IndexError::NotOwned),
        }
    }

    /// The ids recorded for `account`, in insertion order, starting at
    /// `from_index` and at most `limit` of them.
    pub fn query(&self, account: &String, from_index: u64, limit: u64) -> (r: Vec<u64>)
        requires
            self.wf(),
        ensures
            r@ == paged(self.ids_of(account@), from_index, limit),
    {
        let ghost all = self.ids_of(account@);
        let mut r: Vec<u64> = Vec::new();
        match self.find_entry(account) {
            Some(i) => {
                proof {
                    self.lemma_entry_is_keyed(i as int);
                }
                let ids = &self.entries[i].ids;
                let n = ids.len();
                if from_index >= n as u64 {
                    proof {
                        assert(paged(all, from_index, limit) =~= Seq::<u64>::empty());
                    }
                    return r;
                }
                let start = from_index as usize;
                let end: usize = if limit >= (n - start) as u64 {
                    n
                } else {
                    start + (limit as usize)
                };
                let mut k = start;
                while k < end
                    invariant
                        n == ids@.len(),
                        start <= k <= end <= n,
                        r@ == ids@.subrange(start as int, k as int),
                    decreases end - k,
                {
                    r.push(ids[k]);
                    proof {
                        assert(r@ =~= ids@.subrange(start as int, k + 1));
                    }
                    k += 1;
                }
                proof {
                    assert(r@ =~= paged(all, from_index, limit));
                }
                r
            },
            None => {
                proof {
                    assert(all =~= Seq::<u64>::empty());
                    assert(paged(all, from_index, limit) =~= Seq::<u64>::empty());
                }
                r
            },
        }
    }

    /// How many ids are recorded for `account`.
    pub fn supply(&self, account: &String) -> (n: usize)
        requires
            self.wf(),
        ensures
            n == self.ids_of(account@).len(),
    {
        match self.find_entry(account) {
            Some(i) => {
                proof {
                    self.lemma_entry_is_keyed(i as int);
                }
                self.entries[i].ids.len()
            },
            None => 0,
        }
    }

    /// A fresh, empty index.
    pub fn new() -> (r: AccountIndex)
        ensures
            r.wf(),
            forall|a: Seq<char>| r.ids_of(a) == Seq::<u64>::empty(),
    {
        let r = AccountIndex { entries: Vec::new() };
        proof {
            assert forall|a: Seq<char>| r.ids_of(a) == Seq::<u64>::empty() by {
                assert(!r.has_key(a));
            }
        }
        r
    }

    /// After replacing the ids of entry `i` (account unchanged), `ids_of`
    /// reads the new ids at that account and is unchanged elsewhere.
    proof fn lemma_after_entry_update(self, pre: AccountIndex, i: int, a: Seq<char>)
        requires
            pre.wf(),
            0 <= i < pre.entries@.len(),
            pre.key_at(i) == a,
            self.entries@.len() == pre.entries@.len(),
            forall|k: int| 0 <= k < pre.entries@.len() && k != i ==> self.entries@[k] == pre.entries@[k],
            self.key_at(i) == a,
            self.entries@[i].ids@.len() > 0,
            ids_unique(self.entries@[i].ids@),
        ensures
            self.wf(),
            self.ids_of(a) == self.entries@[i].ids@,
            forall|b: Seq<char>| b != a ==> self.ids_of(b) == pre.ids_of(b),
    {
        assert forall|p: int, q: int| 0 <= p < q < self.entries@.len() implies #[trigger] self
            .key_at(p) != #[trigger] self.key_at(q) by {
            assert(pre.key_at(p) != pre.key_at(q));
            assert(self.key_at(p) == pre.key_at(p));
            assert(self.key_at(q) == pre.key_at(q));
        }
        assert forall|k: int| 0 <= k < self.entries@.len() implies (#[trigger] self
            .entries@[k].ids@).len() > 0 && ids_unique(self.entries@[k].ids@) by {
            if k != i {
                assert(self.entries@[k] == pre.entries@[k]);
            }
        }
        self.lemma_entry_is_keyed(i);
        assert forall|b: Seq<char>| b != a implies self.ids_of(b) == pre.ids_of(b) by {
            self.lemma_same_keys_same_ids(pre, b, i);
        }
    }

    /// Helper: when every entry except possibly `i` is shared with `pre`
    /// and entry `i` is keyed by some other account, `ids_of(b)` agrees.
    proof fn lemma_same_keys_same_ids(self, pre: AccountIndex, b: Seq<char>, i: int)
        requires
            self.wf(),
            pre.wf(),
            self.entries@.len() == pre.entries@.len(),
            forall|k: int| 0 <= k < pre.entries@.len() && k != i ==> self.entries@[k] == pre.entries@[k],
            0 <= i < self.entries@.len() ==> self.key_at(i) == pre.key_at(i) && self.key_at(i) != b,
        ensures
            self.ids_of(b) == pre.ids_of(b),
    {
        if self.has_key(b) {
            let k = self.key_index(b);
            assert(0 <= k < self.entries@.len() && self.key_at(k) == b);
            assert(k != i);
            assert(pre.key_at(k) == b);
            pre.lemma_entry_is_keyed(k);
            self.lemma_entry_is_keyed(k);
        } else if pre.has_key(b) {
            let k = pre.key_index(b);
            assert(0 <= k < pre.entries@.len() && pre.key_at(k) == b);
            assert(k != i);
            assert(self.key_at(k) == b);
            assert(self.has_key(b));
        }
    }

    /// After appending an entry for a fresh account `a`, `ids_of(a)` reads
    /// the new entry and is unchanged elsewhere.
    proof fn lemma_after_entry_append(self, pre: AccountIndex, a: Seq<char>)
        requires
            pre.wf(),
            !pre.has_key(a),
            self.entries@.len() == pre.entries@.len() + 1,
            forall|k: int| 0 <= k < pre.entries@.len() ==> self.entries@[k] == pre.entries@[k],
            self.key_at(pre.entries@.len() as int) == a,
            self.entries@[pre.entries@.len() as int].ids@.len() > 0,
            ids_unique(self.entries@[pre.entries@.len() as int].ids@),
        ensures
            self.wf(),
            self.ids_of(a) == self.entries@[pre.entries@.len() as int].ids@,
            forall|b: Seq<char>| b != a ==> self.ids_of(b) == pre.ids_of(b),
    {
        let n = pre.entries@.len() as int;
        assert forall|p: int, q: int| 0 <= p < q < self.entries@.len() implies #[trigger] self
            .key_at(p) != #[trigger] self.key_at(q) by {
            if q < n {
                assert(pre.key_at(p) != pre.key_at(q));
            } else {
                assert(q == n);
                assert(self.key_at(p) == pre.key_at(p));
                if self.key_at(p) == a {
                    assert(pre.has_key(a));
                }
            }
        }
        assert forall|k: int| 0 <= k < self.entries@.len() implies (#[trigger] self
            .entries@[k].ids@).len() > 0 && ids_unique(self.entries@[k].ids@) by {
            if k < n {
                assert(self.entries@[k] == pre.entries@[k]);
            }
        }
        self.lemma_entry_is_keyed(n);
        assert forall|b: Seq<char>| b != a implies self.ids_of(b) == pre.ids_of(b) by {
            if self.has_key(b) {
                let k = self.key_index(b);
                assert(0 <= k < self.entries@.len() && self.key_at(k) == b);
                assert(k != n);
                pre.lemma_entry_is_keyed(k);
                self.lemma_entry_is_keyed(k);
            } else if pre.has_key(b) {
                let k = pre.key_index(b);
                assert(self.key_at(k) == b);
            }
        }
    }

    /// After removing entry `i` entirely, its account maps to the empty
    /// sequence and every other account is unchanged.
    proof fn lemma_after_entry_drop(self, pre: AccountIndex, i: int, a: Seq<char>)
        requires
            pre.wf(),
            0 <= i < pre.entries@.len(),
            pre.key_at(i) == a,
            self.entries@ == pre.entries@.remove(i),
        ensures
            self.wf(),
            self.ids_of(a) == Seq::<u64>::empty(),
            forall|b: Seq<char>| b != a ==> self.ids_of(b) == pre.ids_of(b),
    {
        let n = pre.entries@.len() as int;
        assert forall|p: int, q: int| 0 <= p < q < self.entries@.len() implies #[trigger] self
            .key_at(p) != #[trigger] self.key_at(q) by {
            let p0 = if p < i { p } else { p + 1 };
            let q0 = if q < i { q } else { q + 1 };
            assert(self.entries@[p] == pre.entries@[p0]);
            assert(self.entries@[q] == pre.entries@[q0]);
            assert(pre.key_at(p0) != pre.key_at(q0));
        }
        assert forall|k: int| 0 <= k < self.entries@.len() implies (#[trigger] self
            .entries@[k].ids@).len() > 0 && ids_unique(self.entries@[k].ids@) by {
            let k0 = if k < i { k } else { k + 1 };
            assert(self.entries@[k] == pre.entries@[k0]);
        }
        if self.has_key(a) {
            let k = self.key_index(a);
            assert(0 <= k < self.entries@.len() && self.key_at(k) == a);
            let k0 = if k < i { k } else { k + 1 };
            assert(self.entries@[k] == pre.entries@[k0]);
            assert(pre.key_at(k0) == a);
            assert(k0 != i ==> pre.key_at(k0) != pre.key_at(i));
            assert(false);
        }
        assert forall|b: Seq<char>| b != a implies self.ids_of(b) == pre.ids_of(b) by {
            if self.has_key(b) {
                let k = self.key_index(b);
                assert(0 <= k < self.entries@.len() && self.key_at(k) == b);
                let k0 = if k < i { k } else { k + 1 };
                assert(self.entries@[k] == pre.entries@[k0]);
                pre.lemma_entry_is_keyed(k0);
                self.lemma_entry_is_keyed(k);
            } else if pre.has_key(b) {
                let k0 = pre.key_index(b);
                assert(0 <= k0 < pre.entries@.len() && pre.key_at(k0) == b);
                assert(k0 != i);
                let k = if k0 < i { k0 } else { k0 - 1 };
                assert(self.entries@[k] == pre.entries@[k0]);
                assert(self.key_at(k) == b);
                assert(self.has_key(b));
            }
        }
    }
}

/// Appending a value extends membership by exactly that value.
pub proof fn lemma_push_contains(s: Seq<u64>, x: u64)
    ensures
        forall|y: u64| #[trigger] s.push(x).contains(y) <==> (s.contains(y) || y == x),
{
    assert forall|y: u64| #[trigger] s.push(x).contains(y) implies (s.contains(y) || y == x) by {
        let k = choose|k: int| 0 <= k < s.push(x).len() && s.push(x)[k] == y;
        if k < s.len() {
            assert(s[k] == y);
        }
    }
    assert forall|y: u64| (s.contains(y) || y == x) implies #[trigger] s.push(x).contains(y) by {
        if s.contains(y) {
            let k = choose|k: int| 0 <= k < s.len() && s[k] == y;
            assert(s.push(x)[k] == y);
        } else {
            assert(s.push(x)[s.len() as int] == y);
        }
    }
}

/// On a duplicate-free sequence, removing a value removes exactly that
/// value: membership of everything else is untouched, and uniqueness is
/// preserved.
pub proof fn lemma_remove_value_unique(s: Seq<u64>, x: u64)
    requires
        ids_unique(s),
    ensures
        forall|y: u64| #[trigger] s.remove_value(x).contains(y) <==> (s.contains(y) && y != x),
        ids_unique(s.remove_value(x)),
{
    s.index_of_first_ensures(x);
    if s.contains(x) {
        let i = s.index_of_first(x)->0;
        let s2 = s.remove(i);
        assert(s.remove_value(x) == s2);
        assert forall|p: int, q: int| 0 <= p < q < s2.len() implies s2[p] != s2[q] by {
            let p0: int = if p < i { p } else { p + 1 };
            let q0: int = if q < i { q } else { q + 1 };
            assert(s2[p] == s[p0]);
            assert(s2[q] == s[q0]);
        }
        assert forall|y: u64| #[trigger] s2.contains(y) implies s.contains(y) && y != x by {
            let k = choose|k: int| 0 <= k < s2.len() && s2[k] == y;
            let k0: int = if k < i { k } else { k + 1 };
            assert(s2[k] == s[k0]);
            assert(s.contains(y));
            if y == x {
                assert(s[k0] == s[i]);
            }
        }
        assert forall|y: u64| s.contains(y) && y != x implies #[trigger] s2.contains(y) by {
            let k = choose|k: int| 0 <= k < s.len() && s[k] == y;
            if k < i {
                assert(s2[k] == s[k]);
            } else {
                assert(k != i);
                assert(s2[k - 1] == s[k]);
            }
        }
    }
}

/// The page of `s` that starts at `from_index` and holds at most `limit`
/// elements.
pub open spec fn paged(s: Seq<u64>, from_index: u64, limit: u64) -> Seq<u64> {
    if from_index >= s.len() {
        Seq::empty()
    } else if from_index + limit >= s.len() {
        s.subrange(from_index as int, s.len() as int)
    } else {
        s.subrange(from_index as int, from_index + limit)
    }
}

/// Whether `ids` holds `loan_id`.
pub fn contains_id(ids: &Vec<u64>, loan_id: u64) -> (b: bool)
    ensures
        b == ids@.contains(loan_id),
{
    match find_id(ids, loan_id) {
        Some(_) => true,
        None => false,
    }
}

/// The position of the first occurrence of `loan_id` in `ids`, if any.
fn find_id(ids: &Vec<u64>, loan_id: u64) -> (r: Option<usize>)
    ensures
        match r {
            Some(j) => j < ids@.len() && ids@[j as int] == loan_id && forall|k: int|
                0 <= k < j ==> ids@[k] != loan_id,
            None => !ids@.contains(loan_id),
        },
{
    let n = ids.len();
    let mut j: usize = 0;
    while j < n
        invariant
            n == ids@.len(),
            j <= n,
            forall|k: int| 0 <= k < j ==> ids@[k] != loan_id,
        decreases n - j,
    {
        if ids[j] == loan_id {
            return Some(j);
        }
        j += 1;
    }
    None
}

} // verus!
