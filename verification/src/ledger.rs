//! The double-entry rule: the entries of every stored transaction sum to
//! zero once expressed in the base currency.

use vstd::prelude::*;
use crate::error::MangoError;
use crate::transactions::{native_sum, EntryInput};

verus! {

/// An entry of a transaction together with what the ledger knows of its
/// account.
pub struct ResolvedEntry {
    pub account_name: String,
    /// The id of the named account, when it exists.
    pub account_id: Option<i64>,
    /// The currency of the account.
    pub currency: String,
    /// The amount in the account's own currency, in cents.
    pub amount_native: i64,
    /// When the entry carries an exchange rate: the amount it gives in the
    /// base currency, in cents.
    pub rate_base: Option<i64>,
}

/// An entry ready to be stored.
pub struct PreparedEntry {
    pub account_id: i64,
    pub amount_native: i64,
    pub amount_base: i64,
    /// The entry's own exchange rate is stored with it; otherwise the rate is one.
    pub uses_rate: bool,
}

/// Why an entry cannot be stored, if it cannot.
pub open spec fn entry_problem(base: String, e: ResolvedEntry) -> Option<MangoError> {
    if e.account_id is None {
        Some(MangoError::AccountNotFound(e.account_name))
    } else if e.currency@ != base@ && e.rate_base is None {
        Some(
            MangoError::MissingExchangeRate {
                account: e.account_name,
                currency: e.currency,
                base_currency: base,
            },
        )
    } else {
        None
    }
}

/// The amount of an entry in the base currency.
pub open spec fn base_amount(base: String, e: ResolvedEntry) -> int {
    if e.currency@ == base@ {
        e.amount_native as int
    } else {
        match e.rate_base {
            Some(b) => b as int,
            None => 0,
        }
    }
}

/// The first entry problem, in the order of the entries.
pub open spec fn first_problem(base: String, s: Seq<ResolvedEntry>) -> Option<MangoError>
    decreases s.len(),
{
    if s.len() == 0 {
        None
    } else {
        match first_problem(base, s.drop_last()) {
            Some(p) => Some(p),
            None => entry_problem(base, s.last()),
        }
    }
}

/// The sum of the entries in the base currency.
pub open spec fn base_sum(base: String, s: Seq<ResolvedEntry>) -> int
    decreases s.len(),
{
    if s.len() == 0 {
        0
    } else {
        base_sum(base, s.drop_last()) + base_amount(base, s.last())
    }
}

/// The sum of prepared entries in the base currency.
pub open spec fn prepared_sum(s: Seq<PreparedEntry>) -> int
    decreases s.len(),
{
    if s.len() == 0 {
        0
    } else {
        prepared_sum(s.drop_last()) + s.last().amount_base
    }
}

/// Summing the entries does not leave `i64` before a problem is found
/// (the running sum is kept in an `i64`).
pub open spec fn sums_fit(base: String, s: Seq<ResolvedEntry>) -> bool {
    forall|k: int|
        0 <= k <= s.len() && #[trigger] first_problem(base, s.take(k)) is None ==> i64::MIN
            <= base_sum(base, s.take(k)) <= i64::MAX
}

/// The entry as it is stored.
pub open spec fn prepared_from(base: String, e: ResolvedEntry) -> PreparedEntry {
    PreparedEntry {
        account_id: e.account_id->0,
        amount_native: e.amount_native,
        amount_base: base_amount(base, e) as i64,
        uses_rate: e.currency@ != base@,
    }
}

/// Turns the entries of a transaction into the entries to store: each
/// account must exist, an account outside the base currency needs the
/// amount that its exchange rate gives, and the amounts in the base
/// currency must sum to exactly zero.
pub fn prepare_entries(base_currency: &String, entries: &Vec<ResolvedEntry>) -> (r: Result<
    Vec<PreparedEntry>,
    MangoError,
>)
    requires
        sums_fit(*base_currency, entries@),
    ensures
        match first_problem(*base_currency, entries@) {
            Some(p) => r == Err::<Vec<PreparedEntry>, MangoError>(p),
            None => if base_sum(*base_currency, entries@) != 0 {
                r == Err::<Vec<PreparedEntry>, MangoError>(
                    MangoError::Unbalanced(base_sum(*base_currency, entries@) as i64),
                )
            } else {
                &&& r is Ok
                &&& r->Ok_0@.len() == entries@.len()
                &&& forall|i: int|
                    0 <= i < entries@.len() ==> #[trigger] r->Ok_0@[i] == prepared_from(
                        *base_currency,
                        entries@[i],
                    )
                &&& prepared_sum(r->Ok_0@) == 0
            },
        },
{
    let mut sum_base: i64 = 0;
    let mut prepared: Vec<PreparedEntry> = Vec::new();
    let mut i: usize = 0;
    while i < entries.len()
        invariant
            i <= entries.len(),
            sums_fit(*base_currency, entries@),
            first_problem(*base_currency, entries@.take(i as int)) is None,
            sum_base == base_sum(*base_currency, entries@.take(i as int)),
            prepared@.len() == i,
            forall|j: int|
                0 <= j < i ==> #[trigger] prepared@[j] == prepared_from(
                    *base_currency,
                    entries@[j],
                ),
            prepared_sum(prepared@) == sum_base,
        decreases entries.len() - i,
    {
        let e = &entries[i];
        let ghost next = entries@.take(i as int + 1);
        assert(next.drop_last() == entries@.take(i as int));
        assert(next.last() == entries@[i as int]);
        let account_id = match e.account_id {
            Some(id) => id,
            None => {
                proof {
                    lemma_problem_persists(*base_currency, entries@, i as int + 1);
                }
                return Err(MangoError::AccountNotFound(e.account_name.clone()));
            },
        };
        let uses_rate = !(e.currency == *base_currency);
        let amount_base = if uses_rate {
            match e.rate_base {
                Some(b) => b,
                None => {
                    proof {
                        lemma_problem_persists(*base_currency, entries@, i as int + 1);
                    }
                    return Err(
                        MangoError::MissingExchangeRate {
                            account: e.account_name.clone(),
                            currency: e.currency.clone(),
                            base_currency: base_currency.clone(),
                        },
                    );
                },
            }
        } else {
            e.amount_native
        };
        proof {
            assert(first_problem(*base_currency, next) is None);
            assert(base_sum(*base_currency, next) == sum_base + amount_base);
            assert(sums_fit(*base_currency, entries@));
            assert(i64::MIN <= base_sum(*base_currency, next) <= i64::MAX);
        }
        sum_base = sum_base + amount_base;
        let ghost old_prepared = prepared@;
        prepared.push(PreparedEntry { account_id, amount_native: e.amount_native, amount_base, uses_rate });
        proof {
            assert(prepared@.drop_last() == old_prepared);
        }
        i += 1;
    }
    assert(entries@.take(entries.len() as int) == entries@);
    if sum_base != 0 {
        return Err(MangoError::Unbalanced(sum_base));
    }
    Ok(prepared)
}

/// Whether summing the entries in the base currency stays within `i64`
/// until the first problem (see `sums_fit`).
pub fn entry_sums_fit(base_currency: &String, entries: &Vec<ResolvedEntry>) -> (ok: bool)
    ensures
        ok == sums_fit(*base_currency, entries@),
{
    let mut sum: i128 = 0;
    let mut i: usize = 0;
    assert(entries@.take(0) == Seq::<ResolvedEntry>::empty());
    while i < entries.len()
        invariant
            i <= entries.len(),
            first_problem(*base_currency, entries@.take(i as int)) is None,
            sum == base_sum(*base_currency, entries@.take(i as int)),
            forall|k: int|
                0 <= k <= i && #[trigger] first_problem(*base_currency, entries@.take(k)) is None
                    ==> i64::MIN <= base_sum(*base_currency, entries@.take(k)) <= i64::MAX,
        decreases entries.len() - i,
    {
        let e = &entries[i];
        let ghost next = entries@.take(i as int + 1);
        assert(next.drop_last() == entries@.take(i as int));
        assert(next.last() == entries@[i as int]);
        let same = *base_currency == e.currency;
        if e.account_id.is_none() || (!same && e.rate_base.is_none()) {
            proof {
                assert(first_problem(*base_currency, next) is Some);
                assert forall|k: int|
                    0 <= k <= entries@.len() && #[trigger] first_problem(
                        *base_currency,
                        entries@.take(k),
                    ) is None implies i64::MIN <= base_sum(*base_currency, entries@.take(k))
                    <= i64::MAX by {
                    if k > i {
                        lemma_problem_persists(*base_currency, entries@.take(k), i as int + 1);
                        assert(entries@.take(k).take(i as int + 1) == next);
                    }
                }
            }
            return true;
        }
        let amount: i64 = if same {
            e.amount_native
        } else {
            match e.rate_base {
                Some(b) => b,
                None => 0,
            }
        };
        sum = sum + amount as i128;
        proof {
            assert(first_problem(*base_currency, next) is None);
            assert(sum == base_sum(*base_currency, next));
        }
        if sum < i64::MIN as i128 || sum > i64::MAX as i128 {
            proof {
                assert(first_problem(*base_currency, entries@.take(i as int + 1)) is None);
            }
            return false;
        }
        i += 1;
    }
    proof {
        assert(entries@.take(entries.len() as int) == entries@);
    }
    true
}

/// Once a prefix of the entries has a problem, every longer prefix reports
/// the same problem.
proof fn lemma_problem_persists(base: String, s: Seq<ResolvedEntry>, k: int)
    requires
        0 <= k <= s.len(),
        first_problem(base, s.take(k)) is Some,
    ensures
        first_problem(base, s) == first_problem(base, s.take(k)),
    decreases s.len() - k,
{
    if k < s.len() {
        let n = s.take(k + 1);
        assert(n.drop_last() == s.take(k));
        lemma_problem_persists(base, s, k + 1);
    } else {
        assert(s.take(k) == s);
    }
}

/// After storing, the entries of transaction `transaction_id` summed to
/// `stored_sum` in the base currency; anything but zero is refused.
pub fn check_stored_sum(transaction_id: i64, stored_sum: i64) -> (r: Result<(), MangoError>)
    ensures
        r is Ok <==> stored_sum == 0,
        r matches Err(e) ==> e == (MangoError::StoredUnbalanced { transaction_id, sum: stored_sum }),
{
    if stored_sum != 0 {
        Err(MangoError::StoredUnbalanced { transaction_id, sum: stored_sum })
    } else {
        Ok(())
    }
}

/// The currency recorded for the ledger, or `USD` when none is.
pub fn currency_or_default(stored: Option<String>) -> (c: String)
    ensures
        c@ == (match stored {
            Some(s) => s@,
            None => "USD"@,
        }),
{
    match stored {
        Some(s) => s,
        None => String::from_str("USD"),
    }
}

/// The ledger is ready once its tables exist.
pub fn check_initialized(accounts_table_found: bool) -> (r: Result<(), MangoError>)
    ensures
        r is Ok <==> accounts_table_found,
        r matches Err(e) ==> e == MangoError::NotInitialized,
{
    if accounts_table_found {
        Ok(())
    } else {
        Err(MangoError::NotInitialized)
    }
}

/// A transaction whose entries sum to zero, on existing accounts that are
/// all in the base currency, passes the double-entry check.
pub proof fn lemma_balanced_in_base_accepted(
    base: String,
    entries: Seq<EntryInput>,
    resolved: Seq<ResolvedEntry>,
)
    requires
        resolved.len() == entries.len(),
        forall|i: int|
            0 <= i < resolved.len() ==> {
                &&& (#[trigger] resolved[i]).amount_native == entries[i].amount_native
                &&& resolved[i].account_id is Some
                &&& resolved[i].currency@ == base@
            },
        native_sum(entries) == 0,
    ensures
        first_problem(base, resolved) is None,
        base_sum(base, resolved) == 0,
{
    lemma_base_sum_is_native_sum(base, entries, resolved);
}

proof fn lemma_base_sum_is_native_sum(base: String, entries: Seq<EntryInput>, resolved: Seq<ResolvedEntry>)
    requires
        resolved.len() == entries.len(),
        forall|i: int|
            0 <= i < resolved.len() ==> {
                &&& (#[trigger] resolved[i]).amount_native == entries[i].amount_native
                &&& resolved[i].account_id is Some
                &&& resolved[i].currency@ == base@
            },
    ensures
        first_problem(base, resolved) is None,
        base_sum(base, resolved) == native_sum(entries),
    decreases resolved.len(),
{
    if resolved.len() > 0 {
        let r = resolved.drop_last();
        let e = entries.drop_last();
        assert forall|i: int| 0 <= i < r.len() implies {
            &&& (#[trigger] r[i]).amount_native == e[i].amount_native
            &&& r[i].account_id is Some
            &&& r[i].currency@ == base@
        } by {
            assert(r[i] == resolved[i]);
            assert(e[i] == entries[i]);
        }
        lemma_base_sum_is_native_sum(base, e, r);
        assert(resolved.last() == resolved[resolved.len() - 1]);
    }
}

/// Every transaction of the ledger, given by its stored entries, sums to
/// zero in the base currency.
pub open spec fn ledger_balanced(ledger: Seq<Seq<PreparedEntry>>) -> bool {
    forall|i: int| 0 <= i < ledger.len() ==> prepared_sum(#[trigger] ledger[i]) == 0
}

/// Storing a transaction whose entries passed `prepare_entries` keeps every
/// transaction of the ledger balanced.
pub proof fn lemma_store_keeps_ledger_balanced(
    ledger: Seq<Seq<PreparedEntry>>,
    stored: Seq<PreparedEntry>,
)
    requires
        ledger_balanced(ledger),
        prepared_sum(stored) == 0,
    ensures
        ledger_balanced(ledger.push(stored)),
{
    assert forall|i: int| 0 <= i < ledger.push(stored).len() implies prepared_sum(
        #[trigger] ledger.push(stored)[i],
    ) == 0 by {
        if i < ledger.len() {
            assert(ledger.push(stored)[i] == ledger[i]);
        }
    }
}

/// Deleting a transaction keeps every remaining transaction balanced.
pub proof fn lemma_delete_keeps_ledger_balanced(ledger: Seq<Seq<PreparedEntry>>, index: int)
    requires
        ledger_balanced(ledger),
        0 <= index < ledger.len(),
    ensures
        ledger_balanced(ledger.remove(index)),
{
    assert forall|i: int| 0 <= i < ledger.remove(index).len() implies prepared_sum(
        #[trigger] ledger.remove(index)[i],
    ) == 0 by {
        if i < index {
            assert(ledger.remove(index)[i] == ledger[i]);
        } else {
            assert(ledger.remove(index)[i] == ledger[i + 1]);
        }
    }
}

/// Rewriting the entries of a transaction keeps the ledger balanced when
/// the rewritten entries, summed as stored (`stored_sum`), pass
/// `check_stored_sum`.
pub proof fn lemma_rewrite_keeps_ledger_balanced(
    ledger: Seq<Seq<PreparedEntry>>,
    index: int,
    rewritten: Seq<PreparedEntry>,
    stored_sum: i64,
)
    requires
        ledger_balanced(ledger),
        0 <= index < ledger.len(),
        prepared_sum(rewritten) == stored_sum,
        stored_sum == 0,
    ensures
        ledger_balanced(ledger.update(index, rewritten)),
{
    assert forall|i: int| 0 <= i < ledger.update(index, rewritten).len() implies prepared_sum(
        #[trigger] ledger.update(index, rewritten)[i],
    ) == 0 by {
        if i != index {
            assert(ledger.update(index, rewritten)[i] == ledger[i]);
        }
    }
}

} // verus!
