//! Read-only query surface: get-by-id, paged listings over the record
//! store and over both account indices, and the aggregate metrics.
//!
//! Paging follows one convention everywhere: `from_index` defaults to 0,
//! `limit` defaults to 50, and results come in the stored order.

use vstd::prelude::*;
use crate::index::AccountIndex;
use crate::metadata::{Loan, LoanOutput, Metrics};
use crate::state::NFTLoans;

verus! {

/// The first position a paged query reads: `from_index`, defaulting to 0.
pub open spec fn page_start(from_index: Option<u128>) -> u128 {
    match from_index {
        Some(f) => f,
        None => 0,
    }
}

/// How many entries a paged query reads at most: `limit`, defaulting to 50.
pub open spec fn page_limit(limit: Option<u64>) -> u64 {
    match limit {
        Some(l) => l,
        None => 50,
    }
}

/// The page of `s` selected by `from_index` and `limit`.
pub open spec fn paged_opt(s: Seq<u64>, from_index: Option<u128>, limit: Option<u64>) -> Seq<u64> {
    let start = page_start(from_index) as int;
    let lim = page_limit(limit) as int;
    if start >= s.len() {
        Seq::empty()
    } else if start + lim >= s.len() {
        s.subrange(start, s.len() as int)
    } else {
        s.subrange(start, start + lim)
    }
}

/// How many loans the paged listing over all ids `0..total` returns.
pub open spec fn page_count(total: int, from_index: Option<u128>, limit: Option<u64>) -> int {
    let start = page_start(from_index) as int;
    let lim = page_limit(limit) as int;
    if start >= total {
        0
    } else if start + lim >= total {
        total - start
    } else {
        lim
    }
}

/// Copies the loans named by one index page into `LoanOutput` records.
fn page_for_index(
    loans: &Vec<Loan>,
    index: &AccountIndex,
    account: &String,
    from_index: Option<u128>,
    limit: Option<u64>,
) -> (r: Vec<LoanOutput>)
    requires
        index.wf(),
        forall|a: Seq<char>, id: u64| #[trigger] index.ids_of(a).contains(id) ==> id < loans@.len(),
    ensures
        ({
            let ids = paged_opt(index.ids_of(account@), from_index, limit);
            &&& r@.len() == ids.len()
            &&& forall|k: int|
                0 <= k < ids.len() ==> #[trigger] r@[k].id == ids[k]
                    && r@[k].loan@ == loans@[ids[k] as int]@
        }),
{
    let ghost all = index.ids_of(account@);
    let ghost ids = paged_opt(all, from_index, limit);
    let total = loans.len();
    let mut r: Vec<LoanOutput> = Vec::new();
    let startu: u128 = match from_index {
        Some(f) => f,
        None => 0,
    };
    let limu: u64 = match limit {
        Some(l) => l,
        None => 50,
    };
    let supply = index.supply(account);
    if startu >= supply as u128 {
        proof {
            assert(ids =~= Seq::<u64>::empty());
        }
        return r;
    }
    let page = index.query(account, startu as u64, limu);
    proof {
        assert(page@ =~= ids);
        assert forall|j: int| 0 <= j < page@.len() implies (#[trigger] page@[j])
            < loans@.len() by {
            assert(page@[j] == all[page_start(from_index) as int + j]);
            assert(all.contains(page@[j]));
        }
    }
    let m = page.len();
    let mut k: usize = 0;
    while k < m
        invariant
            m == page@.len(),
            page@ == ids,
            k <= m,
            r@.len() == k,
            total == loans@.len(),
            forall|j: int| 0 <= j < page@.len() ==> (#[trigger] page@[j]) < loans@.len(),
            forall|j: int|
                0 <= j < k ==> (#[trigger] r@[j]).id == page@[j]
                    && r@[j].loan@ == loans@[page@[j] as int]@,
        decreases m - k,
    {
        let id = page[k];
        let idx = id as usize;
        r.push(LoanOutput { id, loan: loans[idx].clone_loan() });
        k += 1;
    }
    r
}

impl NFTLoans {
    /// The loan stored under `loan_id`, if any.
    pub fn get_nft_loan(&self, loan_id: u64) -> (r: Option<LoanOutput>)
        ensures
            match r {
                Some(out) => {
                    &&& loan_id < self.loans().len()
                    &&& out.id == loan_id
                    &&& out.loan@ == self.loans()[loan_id as int]
                },
                None => loan_id >= self.loans().len(),
            },
    {
        let n = self.loans_by_id.len();
        if loan_id < n as u64 {
            let idx = loan_id as usize;
            Some(LoanOutput { id: loan_id, loan: self.loans_by_id[idx].clone_loan() })
        } else {
            None
        }
    }

    /// All loans regardless of status, paged, in id order.
    pub fn get_nfts_for_loan(&self, from_index: Option<u128>, limit: Option<u64>) -> (r: Vec<
        LoanOutput,
    >)
        ensures
            r@.len() == page_count(self.loans().len() as int, from_index, limit),
            forall|k: int|
                0 <= k < r@.len() ==> (#[trigger] r@[k]).id == page_start(from_index) + k
                    && r@[k].loan@ == self.loans()[page_start(from_index) as int + k],
    {
        let mut r: Vec<LoanOutput> = Vec::new();
        let startu: u128 = match from_index {
            Some(f) => f,
            None => 0,
        };
        let limu: u64 = match limit {
            Some(l) => l,
            None => 50,
        };
        let n = self.loans_by_id.len();
        if startu >= n as u128 {
            return r;
        }
        let start = startu as usize;
        let end: usize = if (limu as u128) >= (n - start) as u128 {
            n
        } else {
            start + (limu as usize)
        };
        let mut k = start;
        while k < end
            invariant
                n == self.loans_by_id@.len(),
                start <= k <= end <= n,
                start == startu,
                startu == page_start(from_index),
                end - start <= page_limit(limit),
                end == if page_start(from_index) + page_limit(limit) >= n {
                    n as int
                } else {
                    page_start(from_index) + page_limit(limit)
                },
                r@.len() == k - start,
                forall|j: int|
                    0 <= j < r@.len() ==> (#[trigger] r@[j]).id == start + j && r@[j].loan@
                        == self.loans()[start + j],
            decreases end - k,

        {
            r.push(LoanOutput { id: k as u64, loan: self.loans_by_id[k].clone_loan() });
            k += 1;
        }
        r
    }

    /// How many loans are recorded for collateral owner `account_id`.
    pub fn loan_supply_for_owner(&self, account_id: &String) -> (n: u128)
        requires
            self.wf(),
        ensures
            n == self.owner_ids(account_id@).len(),
    {
        self.loans_per_owner.supply(account_id) as u128
    }

    /// The loans recorded for collateral owner `account_id`, paged, in
    /// insertion order.
    pub fn loans_for_owner(
        &self,
        account_id: &String,
        from_index: Option<u128>,
        limit: Option<u64>,
    ) -> (r: Vec<LoanOutput>)
        requires
            self.wf(),
        ensures
            ({
                let ids = paged_opt(self.owner_ids(account_id@), from_index, limit);
                &&& r@.len() == ids.len()
                &&& forall|k: int|
                    0 <= k < ids.len() ==> #[trigger] r@[k].id == ids[k] && r@[k].loan@
                        == self.loans()[ids[k] as int]
            }),
    {
        proof {
            assert forall|a: Seq<char>, id: u64| #[trigger]
                self.loans_per_owner.ids_of(a).contains(id) implies id
                < self.loans_by_id@.len() by {
                assert(self.owner_ids(a).contains(id));
            }
        }
        let r = page_for_index(
            &self.loans_by_id,
            &self.loans_per_owner,
            account_id,
            from_index,
            limit,
        );
        proof {
            let all = self.owner_ids(account_id@);
            let ids = paged_opt(all, from_index, limit);
            assert forall|k: int| 0 <= k < ids.len() implies #[trigger] r@[k].id == ids[k]
                && r@[k].loan@ == self.loans()[ids[k] as int] by {
                assert(ids[k] == all[page_start(from_index) as int + k]);
                assert(all.contains(ids[k]));
            }
        }
        r
    }

    /// How many loans are recorded for lender `account_id`.
    pub fn loan_supply_for_lender(&self, account_id: &String) -> (n: u128)
        requires
            self.wf(),
        ensures
            n == self.lender_ids(account_id@).len(),
    {
        self.loans_per_lender.supply(account_id) as u128
    }

    /// The loans recorded for lender `account_id`, paged, in insertion
    /// order.
    pub fn loans_for_lender(
        &self,
        account_id: &String,
        from_index: Option<u128>,
        limit: Option<u64>,
    ) -> (r: Vec<LoanOutput>)
        requires
            self.wf(),
        ensures
            ({
                let ids = paged_opt(self.lender_ids(account_id@), from_index, limit);
                &&& r@.len() == ids.len()
                &&& forall|k: int|
                    0 <= k < ids.len() ==> #[trigger] r@[k].id == ids[k] && r@[k].loan@
                        == self.loans()[ids[k] as int]
            }),
    {
        proof {
            assert forall|a: Seq<char>, id: u64| #[trigger]
                self.loans_per_lender.ids_of(a).contains(id) implies id
                < self.loans_by_id@.len() by {
                assert(self.lender_ids(a).contains(id));
            }
        }
        let r = page_for_index(
            &self.loans_by_id,
            &self.loans_per_lender,
            account_id,
            from_index,
            limit,
        );
        proof {
            let all = self.lender_ids(account_id@);
            let ids = paged_opt(all, from_index, limit);
            assert forall|k: int| 0 <= k < ids.len() implies #[trigger] r@[k].id == ids[k]
                && r@[k].loan@ == self.loans()[ids[k] as int] by {
                assert(ids[k] == all[page_start(from_index) as int + k]);
                assert(all.contains(ids[k]));
            }
        }
        r
    }

    /// The interest rate the contract was constructed with.
    pub fn get_contract_interest(&self) -> (r: u64)
        ensures
            r == self.contract_interest,
    {
        self.contract_interest
    }

    /// The id the next loan will get: the number of loans ever created.
    pub fn get_last_loan(&self) -> (r: u64)
        ensures
            r == self.last_loan_id,
    {
        self.last_loan_id
    }

    /// The aggregate metrics, read off the state.
    pub fn get_loans_metrics(&self) -> (r: Metrics)
        ensures
            r == (Metrics {
                total_loans: self.last_loan_id,
                total_loans_active: self.loans_active,
                total_amount_payed: self.total_amount_payed,
                ntv_status: self.is_minting_ntv,
                ntv_multiply: self.ntv_multiply,
                total_amount_lent: self.total_amount_lent,
                loan_current_ath: self.loan_current_ath,
            }),
    {
        Metrics {
            total_loans: self.last_loan_id,
            total_loans_active: self.loans_active,
            total_amount_payed: self.total_amount_payed,
            ntv_status: self.is_minting_ntv,
            ntv_multiply: self.ntv_multiply,
            total_amount_lent: self.total_amount_lent,
            loan_current_ath: self.loan_current_ath,
        }
    }

    /// Whether reward-token minting is enabled.
    pub fn is_ntv_enable(&self) -> (r: bool)
        ensures
            r == self.is_minting_ntv,
    {
        self.is_minting_ntv
    }
}

} // verus!
