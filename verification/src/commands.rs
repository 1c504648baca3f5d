//! The decisions of the ledger's commands: which requests are refused, and
//! which transactions the accepted ones record.

use vstd::prelude::*;
use crate::dates::{chrono_parsed_date, date_text, format_date, month_period, month_period_spec, parse_date, today, Date};
use crate::error::MangoError;
use crate::money::{int_text, int_to_text};
use crate::transactions::{
    entry_is, is_single, lemma_native_sum_two, make_entry, native_sum, EntryInput, TransactionInput,
};

verus! {

/// Whether `s` holds exactly the text `lit`.
pub fn is_text(s: &String, lit: &str) -> (r: bool)
    ensures
        r == (s@ == lit@),
{
    let t = String::from_str(lit);
    *s == t
}

/// The account to settle must be a liability.
pub fn check_liability(name: &String, account_type: &String) -> (r: Result<(), MangoError>)
    ensures
        r is Ok <==> account_type@ == "liability"@,
        r matches Err(e) ==> e == MangoError::NotLiability(*name),
{
    if is_text(account_type, "liability") {
        Ok(())
    } else {
        Err(MangoError::NotLiability(name.clone()))
    }
}

/// The account to pay from must be an asset.
pub fn check_asset(name: &String, account_type: &String) -> (r: Result<(), MangoError>)
    ensures
        r is Ok <==> account_type@ == "asset"@,
        r matches Err(e) ==> e == MangoError::NotAsset(*name),
{
    if is_text(account_type, "asset") {
        Ok(())
    } else {
        Err(MangoError::NotAsset(name.clone()))
    }
}

/// A liability is paid only from an account in the same currency.
pub fn check_same_currency(liability_currency: &String, asset_currency: &String) -> (r: Result<
    (),
    MangoError,
>)
    ensures
        r is Ok <==> liability_currency@ == asset_currency@,
        r matches Err(e) ==> e == MangoError::CrossCurrencyPayment,
{
    if *liability_currency == *asset_currency {
        Ok(())
    } else {
        Err(MangoError::CrossCurrencyPayment)
    }
}

/// The first and last day of a statement month, as `YYYY-MM-DD` texts.
pub fn statement_period(month: u32, year: i32) -> (r: Result<(String, String), MangoError>)
    ensures
        match month_period_spec(year, month) {
            Ok((s, e)) => r matches Ok((a, b)) && a@ == date_text(s) && b@ == date_text(e),
            Err(err) => r matches Err(x) && x == err,
        },
{
    let (start, end) = month_period(year, month)?;
    Ok((format_date(start), format_date(end)))
}

/// The description of the payment of a statement.
pub open spec fn payment_text(liability: Seq<char>, month: int, year: int) -> Seq<char> {
    "Payment for "@ + liability + " statement "@ + int_text(month) + "/"@ + int_text(year)
}

/// The payment of the debt `debt_cents` (the sum of the charges of a
/// month, zero or negative) of a liability from an asset account: none
/// when there is no debt; otherwise the asset gives and the liability
/// receives `-debt_cents`, on `date` (taken as given) or today.
pub fn plan_payment(
    liability: &String,
    asset: &String,
    month: u32,
    year: i32,
    debt_cents: i64,
    date: Option<String>,
) -> (r: Option<TransactionInput>)
    requires
        debt_cents > i64::MIN,
    ensures
        r is None <==> debt_cents == 0,
        r matches Some(t) ==> {
            &&& is_single(t)
            &&& t.description@ == payment_text(liability@, month as int, year as int)
            &&& (date matches Some(d) ==> t.date@ == d@)
            &&& (date is None ==> exists|day: Date| #[trigger] day.valid() && t.date@ == date_text(day))
            &&& t.entries@.len() == 2
            &&& entry_is(t.entries@[0], asset@, debt_cents as int, false)
            &&& entry_is(t.entries@[1], liability@, -debt_cents, false)
            &&& native_sum(t.entries@) == 0
            &&& debt_cents + t.entries@[1].amount_native == 0
        },
{
    if debt_cents == 0 {
        return None;
    }
    let payment_cents = -debt_cents;
    let payment_date = match date {
        Some(d) => d,
        None => {
            let day = today();
            let s = format_date(day);
            assert(day.valid());
            s
        },
    };
    let mut description = String::from_str("Payment for ");
    description.append(liability.as_str());
    description.append(" statement ");
    let m = int_to_text(month as i64);
    description.append(m.as_str());
    description.append("/");
    let y = int_to_text(year as i64);
    description.append(y.as_str());
    let mut entries: Vec<EntryInput> = Vec::new();
    entries.push(make_entry(asset, -payment_cents, false));
    entries.push(make_entry(liability, payment_cents, false));
    proof {
        assert(entries@ == seq![entries@[0], entries@[1]]);
        lemma_native_sum_two(entries@[0], entries@[1]);
    }
    Some(
        TransactionInput {
            date: payment_date,
            description,
            installment_current: None,
            installment_total: None,
            parent_group_id: None,
            entries,
        },
    )
}

/// Only asset accounts can have their balance adjusted.
pub fn check_adjustable(name: &String, account_type: &String) -> (r: Result<(), MangoError>)
    ensures
        r is Ok <==> account_type@ == "asset"@,
        r matches Err(e) ==> e == MangoError::AdjustNonAsset(*name),
{
    if is_text(account_type, "asset") {
        Ok(())
    } else {
        Err(MangoError::AdjustNonAsset(name.clone()))
    }
}

/// The movement that brings a balance of `current` to `target`: none when
/// the balance is already the target.
pub open spec fn needed_adjustment(current: int, target: int) -> Option<int> {
    if current == target {
        None
    } else {
        Some(target - current)
    }
}

/// The movement that brings a balance of `current_cents` to
/// `target_cents`, or `None` when no adjustment is needed.
pub fn adjustment_amount(current_cents: i64, target_cents: i64) -> (a: Option<i64>)
    requires
        i64::MIN <= target_cents - current_cents <= i64::MAX,
    ensures
        a is None <==> needed_adjustment(current_cents as int, target_cents as int) is None,
        a matches Some(x) ==> needed_adjustment(current_cents as int, target_cents as int)
            == Some(x as int),
{
    if current_cents == target_cents {
        None
    } else {
        Some(target_cents - current_cents)
    }
}

/// What the entries of a transaction move on the account named `name`.
pub open spec fn account_movement(entries: Seq<EntryInput>, name: Seq<char>) -> int
    decreases entries.len(),
{
    if entries.len() == 0 {
        0
    } else {
        account_movement(entries.drop_last(), name) + if entries.last().account_name@ == name {
            entries.last().amount_native as int
        } else {
            0
        }
    }
}

/// Once an adjustment planned for a balance of `current` and a target has
/// been recorded, the account holds the target, and adjusting it to the
/// same target again needs nothing.
pub proof fn lemma_adjustment_settles(
    current: int,
    target: int,
    name: Seq<char>,
    adjustment: TransactionInput,
)
    requires
        needed_adjustment(current, target) is Some,
        adjustment.entries@.len() == 2,
        adjustment.entries@[0].account_name@ == name,
        adjustment.entries@[0].amount_native == needed_adjustment(current, target)->0,
        adjustment.entries@[1].account_name@ != name,
    ensures
        current + account_movement(adjustment.entries@, name) == target,
        needed_adjustment(current + account_movement(adjustment.entries@, name), target) is None,
{
    let s = adjustment.entries@;
    assert(s.drop_last().drop_last() == Seq::<EntryInput>::empty());
    assert(s.drop_last().last() == s[0]);
    assert(s.last() == s[1]);
    assert(account_movement(Seq::<EntryInput>::empty(), name) == 0);
    assert(account_movement(s.drop_last(), name) == s[0].amount_native);
    assert(account_movement(s, name) == s[0].amount_native);
}

/// The name of the equity account that balances adjustments.
pub fn equity_account_name() -> (s: String)
    ensures
        s@ == "Equity Adjustments"@,
{
    String::from_str("Equity Adjustments")
}

/// The description of an adjustment when none is given.
pub open spec fn adjustment_text(name: Seq<char>) -> Seq<char> {
    "Balance adjustment for account '"@ + name + "'"@
}

/// The adjustment of account `name` by `adjustment` cents, dated today,
/// balanced on the equity account: in the base currency both entries move
/// the same amount; in another currency the account's entry carries its
/// exchange rate and the equity entry takes `converted_base`, the amount
/// that rate gives, which must be known.
pub fn plan_adjustment(
    name: &String,
    adjustment: i64,
    description: Option<String>,
    account_currency: &String,
    base_currency: &String,
    converted_base: Option<i64>,
) -> (r: Result<TransactionInput, MangoError>)
    requires
        adjustment > i64::MIN,
        account_currency@ != base_currency@ ==> (converted_base matches Some(b) ==> b > i64::MIN),
    ensures
        account_currency@ != base_currency@ && converted_base is None ==> r == Err::<
            TransactionInput,
            MangoError,
        >(MangoError::AdjustNeedsRate),
        !(account_currency@ != base_currency@ && converted_base is None) ==> r is Ok,
        r matches Ok(t) ==> {
            &&& is_single(t)
            &&& t.description@ == (match description {
                Some(d) => d@,
                None => adjustment_text(name@),
            })
            &&& exists|day: Date| #[trigger] day.valid() && t.date@ == date_text(day)
            &&& t.entries@.len() == 2
            &&& if account_currency@ == base_currency@ {
                &&& entry_is(t.entries@[0], name@, adjustment as int, false)
                &&& entry_is(t.entries@[1], "Equity Adjustments"@, -adjustment, false)
                &&& native_sum(t.entries@) == 0
            } else {
                &&& entry_is(t.entries@[0], name@, adjustment as int, true)
                &&& entry_is(t.entries@[1], "Equity Adjustments"@, -converted_base->0, false)
            }
        },
{
    let equity = equity_account_name();
    let mut entries: Vec<EntryInput> = Vec::new();
    if !(*account_currency == *base_currency) {
        let base_cents = match converted_base {
            Some(b) => b,
            None => return Err(MangoError::AdjustNeedsRate),
        };
        entries.push(make_entry(name, adjustment, true));
        entries.push(make_entry(&equity, -base_cents, false));
    } else {
        entries.push(make_entry(name, adjustment, false));
        entries.push(make_entry(&equity, -adjustment, false));
        proof {
            assert(entries@ == seq![entries@[0], entries@[1]]);
            lemma_native_sum_two(entries@[0], entries@[1]);
        }
    }
    let text = match description {
        Some(d) => d,
        None => {
            let mut s = String::from_str("Balance adjustment for account '");
            s.append(name.as_str());
            s.append("'");
            s
        },
    };
    let day = today();
    let date = format_date(day);
    assert(day.valid());
    Ok(
        TransactionInput {
            date,
            description: text,
            installment_current: None,
            installment_total: None,
            parent_group_id: None,
            entries,
        },
    )
}

/// How a transfer between two accounts values its two sides.
#[derive(Clone, Copy, Debug, PartialEq, Eq, Structural)]
pub enum TransferMethod {
    /// Both accounts are in the same currency: the amount moves as is.
    SameCurrency,
    /// From the base currency, the destination receives the given cost.
    CostFromBase,
    /// To the base currency, the destination receives the given cost.
    CostToBase,
    /// From the base currency, the amount is divided by the given rate.
    RateFromBase,
    /// To the base currency, the amount is multiplied by the given rate.
    RateToBase,
}

/// A transfer amount must be positive.
pub fn check_transfer_amount(amount_cents: i64) -> (r: Result<(), MangoError>)
    ensures
        r is Ok <==> amount_cents > 0,
        r matches Err(e) ==> e == MangoError::TransferNotPositive,
{
    if amount_cents <= 0 {
        Err(MangoError::TransferNotPositive)
    } else {
        Ok(())
    }
}

/// How a transfer is valued: between different currencies it needs a cost
/// amount (preferred) or an exchange rate, and one side in the base
/// currency.
pub fn transfer_method(
    from_currency: &String,
    to_currency: &String,
    base_currency: &String,
    has_cost: bool,
    has_rate: bool,
) -> (r: Result<TransferMethod, MangoError>)
    ensures
        from_currency@ == to_currency@ ==> r == Ok::<TransferMethod, MangoError>(
            TransferMethod::SameCurrency,
        ),
        from_currency@ != to_currency@ ==> {
            if !has_cost && !has_rate {
                r == Err::<TransferMethod, MangoError>(MangoError::TransferNeedsRate)
            } else if from_currency@ == base_currency@ {
                r == Ok::<TransferMethod, MangoError>(
                    if has_cost {
                        TransferMethod::CostFromBase
                    } else {
                        TransferMethod::RateFromBase
                    },
                )
            } else if to_currency@ == base_currency@ {
                r == Ok::<TransferMethod, MangoError>(
                    if has_cost {
                        TransferMethod::CostToBase
                    } else {
                        TransferMethod::RateToBase
                    },
                )
            } else {
                r == Err::<TransferMethod, MangoError>(MangoError::TransferOutsideBase)
            }
        },
{
    if *from_currency == *to_currency {
        return Ok(TransferMethod::SameCurrency);
    }
    if !has_cost && !has_rate {
        return Err(MangoError::TransferNeedsRate);
    }
    if *from_currency == *base_currency {
        if has_cost {
            Ok(TransferMethod::CostFromBase)
        } else {
            Ok(TransferMethod::RateFromBase)
        }
    } else if *to_currency == *base_currency {
        if has_cost {
            Ok(TransferMethod::CostToBase)
        } else {
            Ok(TransferMethod::RateToBase)
        }
    } else {
        Err(MangoError::TransferOutsideBase)
    }
}

/// A transfer: `from` gives `amount_cents` and `to` receives
/// `received_cents` (in its own currency), both entries with their rate.
pub fn plan_transfer(
    from: &String,
    to: &String,
    description: String,
    date: String,
    amount_cents: i64,
    received_cents: i64,
) -> (t: TransactionInput)
    requires
        amount_cents > 0,
    ensures
        is_single(t),
        t.date@ == date@,
        t.description@ == description@,
        t.entries@.len() == 2,
        entry_is(t.entries@[0], from@, -amount_cents, true),
        entry_is(t.entries@[1], to@, received_cents as int, true),
        amount_cents == received_cents ==> native_sum(t.entries@) == 0,
{
    let mut entries: Vec<EntryInput> = Vec::new();
    entries.push(make_entry(from, -amount_cents, true));
    entries.push(make_entry(to, received_cents, true));
    proof {
        assert(entries@ == seq![entries@[0], entries@[1]]);
        lemma_native_sum_two(entries@[0], entries@[1]);
    }
    TransactionInput {
        date,
        description,
        installment_current: None,
        installment_total: None,
        parent_group_id: None,
        entries,
    }
}

/// What an edit of a transaction changes.
pub struct EditPlan {
    pub description: Option<String>,
    pub date: Option<String>,
    /// New native amounts, by entry id.
    pub amounts: Vec<(i64, i64)>,
}

/// The new native amount of an entry whose old amount was `old`: the new
/// amount with the old sign (zero counts as positive).
pub open spec fn signed_amount(old: int, amount: int) -> int {
    if old >= 0 {
        amount
    } else {
        -amount
    }
}

/// An edit of transaction `id`: it must change something and the
/// transaction must exist; a new date must be `YYYY-MM-DD`; a new amount
/// must be positive and is only set on transactions of exactly two entries
/// (`entries` holds their ids and old native amounts), keeping each
/// entry's sign.
pub fn plan_edit(
    id: i64,
    description: Option<String>,
    amount_cents: Option<i64>,
    date: Option<String>,
    exists: bool,
    entries: &Vec<(i64, i64)>,
) -> (r: Result<EditPlan, MangoError>)
    ensures
        description is None && amount_cents is None && date is None ==> r == Err::<
            EditPlan,
            MangoError,
        >(MangoError::NothingToEdit),
        !(description is None && amount_cents is None && date is None) ==> {
            if !exists {
                r == Err::<EditPlan, MangoError>(MangoError::EditTargetMissing(id))
            } else if date matches Some(d) && chrono_parsed_date(d@) is None {
                r == Err::<EditPlan, MangoError>(MangoError::InvalidDateFormat)
            } else if amount_cents matches Some(a) && a <= 0 {
                r == Err::<EditPlan, MangoError>(MangoError::EditAmountNotPositive)
            } else if amount_cents is Some && entries@.len() != 2 {
                r == Err::<EditPlan, MangoError>(MangoError::ComplexTransaction)
            } else {
                r is Ok
            }
        },
        r matches Ok(p) ==> {
            &&& p.description == description
            &&& p.date == date
            &&& (amount_cents is None ==> p.amounts@.len() == 0)
            &&& (amount_cents matches Some(a) ==> {
                &&& p.amounts@.len() == entries@.len()
                &&& forall|i: int|
                    0 <= i < entries@.len() ==> (#[trigger] p.amounts@[i]).0 == entries@[i].0 && p.amounts@[i].1
                        == signed_amount(entries@[i].1 as int, a as int)
            })
        },
{
    if description.is_none() && amount_cents.is_none() && date.is_none() {
        return Err(MangoError::NothingToEdit);
    }
    if !exists {
        return Err(MangoError::EditTargetMissing(id));
    }
    if let Some(d) = &date {
        if parse_date(d.as_str()).is_err() {
            return Err(MangoError::InvalidDateFormat);
        }
    }
    let mut amounts: Vec<(i64, i64)> = Vec::new();
    if let Some(a) = amount_cents {
        if a <= 0 {
            return Err(MangoError::EditAmountNotPositive);
        }
        if entries.len() != 2 {
            return Err(MangoError::ComplexTransaction);
        }
        let mut i: usize = 0;
        while i < entries.len()
            invariant
                i <= entries.len(),
                a > 0,
                amounts@.len() == i,
                forall|j: int|
                    0 <= j < i ==> (#[trigger] amounts@[j]).0 == entries@[j].0 && amounts@[j].1
                        == signed_amount(entries@[j].1 as int, a as int),
            decreases entries.len() - i,
        {
            let (entry_id, old) = entries[i];
            let updated = if old >= 0 {
                a
            } else {
                -a
            };
            amounts.push((entry_id, updated));
            i += 1;
        }
    }
    Ok(EditPlan { description, date, amounts })
}

/// An amount edit keeps a transaction of two entries balanced: when the
/// old native amounts summed to zero and were not both zero, the amounts
/// that the edit sets (each keeping its entry's sign) sum to zero too.
pub proof fn lemma_edit_keeps_balance(old: Seq<(i64, i64)>, new: Seq<(i64, i64)>, amount: int)
    requires
        old.len() == 2,
        old[0].1 + old[1].1 == 0,
        old[0].1 != 0,
        new.len() == old.len(),
        forall|i: int| 0 <= i < old.len() ==> (#[trigger] new[i]).1 == signed_amount(
            old[i].1 as int,
            amount,
        ),
    ensures
        new[0].1 + new[1].1 == 0,
{
    assert(new[0].1 == signed_amount(old[0].1 as int, amount));
    assert(new[1].1 == signed_amount(old[1].1 as int, amount));
}

/// What a deletion removes.
pub enum DeleteTarget {
    /// The transaction with this id.
    Single(i64),
    /// Every transaction of this group.
    Group(String),
}

/// Deleting transaction `id` removes its whole group when it belongs to one
/// (a schedule is deleted as a whole), and just the transaction otherwise.
pub fn plan_delete(id: i64, found: bool, group: Option<String>) -> (r: Result<DeleteTarget, MangoError>)
    ensures
        !found ==> r == Err::<DeleteTarget, MangoError>(MangoError::TransactionNotFound(id)),
        found ==> match group {
            Some(g) => r matches Ok(DeleteTarget::Group(x)) && x@ == g@,
            None => r matches Ok(DeleteTarget::Single(x)) && x == id,
        },
{
    if !found {
        return Err(MangoError::TransactionNotFound(id));
    }
    match group {
        Some(g) => Ok(DeleteTarget::Group(g)),
        None => Ok(DeleteTarget::Single(id)),
    }
}

/// Removing a count of rows: none removed means the transaction did not exist.
pub fn check_deleted(id: i64, removed: u64) -> (r: Result<(), MangoError>)
    ensures
        r is Ok <==> removed > 0,
        r matches Err(e) ==> e == MangoError::TransactionNotFound(id),
{
    if removed == 0 {
        Err(MangoError::TransactionNotFound(id))
    } else {
        Ok(())
    }
}

} // verus!
