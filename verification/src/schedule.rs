//! Schedules of monthly installments: financed purchases and loans. An
//! amount is split into equal shares, and the remainder of the division
//! goes to the last share.

use vstd::prelude::*;
use crate::dates::{
    add_months, add_months_in_range, chrono_parsed_date, date_plus_months, date_text, format_date,
    max_year, min_year, parse_date, today, Date,
};
use crate::commands::account_movement;
use crate::error::MangoError;
use crate::transactions::{
    entry_is, lemma_native_sum_three, lemma_native_sum_two, make_entry, native_sum,
    numbered_description, numbered_text, start_date, EntryInput, TransactionInput,
};


verus! {

/// Integer division rounding toward zero, as Rust's `/` does.
pub open spec fn trunc_div(a: int, n: int) -> int {
    if a >= 0 {
        a / n
    } else {
        -((-a) / n)
    }
}

/// The remainder that goes with `trunc_div`, as Rust's `%` gives it.
pub open spec fn trunc_rem(a: int, n: int) -> int {
    if a >= 0 {
        a % n
    } else {
        -((-a) % n)
    }
}

/// The part of `amount` that installment `i` (counted from one) of `n`
/// carries.
pub open spec fn share(amount: int, n: int, i: int) -> int {
    if i == n {
        trunc_div(amount, n) + trunc_rem(amount, n)
    } else {
        trunc_div(amount, n)
    }
}

/// The sum of the first `k` shares.
pub open spec fn shares_total(amount: int, n: int, k: int) -> int
    decreases k,
{
    if k <= 0 {
        0
    } else {
        shares_total(amount, n, k - 1) + share(amount, n, k)
    }
}

/// Every share of `amount` can be negated in an `i64`.
pub open spec fn shares_negatable(amount: int, n: int) -> bool {
    forall|i: int| 1 <= i <= n ==> #[trigger] share(amount, n, i) > i64::MIN
}

/// The difference of the shares of `total` and `part` fits in an `i64` for
/// every installment.
pub open spec fn differences_fit(total: int, part: int, n: int) -> bool {
    forall|i: int|
        1 <= i <= n ==> i64::MIN <= #[trigger] share(total, n, i) - share(part, n, i) <= i64::MAX
}

proof fn lemma_trunc_parts(a: int, n: int)
    requires
        n > 0,
    ensures
        a == n * trunc_div(a, n) + trunc_rem(a, n),
        a >= 0 ==> 0 <= trunc_div(a, n) && 0 <= trunc_rem(a, n),
        a < 0 ==> trunc_div(a, n) <= 0 && trunc_rem(a, n) <= 0,
{
    if a >= 0 {
        vstd::arithmetic::div_mod::lemma_fundamental_div_mod(a, n);
        vstd::arithmetic::div_mod::lemma_div_pos_is_pos(a, n);
        vstd::arithmetic::div_mod::lemma_mod_pos_bound(a, n);
    } else {
        let b = -a;
        vstd::arithmetic::div_mod::lemma_fundamental_div_mod(b, n);
        vstd::arithmetic::div_mod::lemma_div_pos_is_pos(b, n);
        vstd::arithmetic::div_mod::lemma_mod_pos_bound(b, n);
        let q = b / n;
        assert(n * (-q) == -(n * q)) by (nonlinear_arith);
    }
}

/// A share lies between zero and the amount.
pub proof fn lemma_share_bounds(a: int, n: int, i: int)
    requires
        n > 0,
        1 <= i <= n,
    ensures
        a >= 0 ==> 0 <= share(a, n, i) <= a,
        a < 0 ==> a <= share(a, n, i) <= 0,
{
    lemma_trunc_parts(a, n);
    let q = trunc_div(a, n);
    let r = trunc_rem(a, n);
    if a >= 0 {
        assert(q <= a && q + r <= a) by (nonlinear_arith)
            requires
                a == n * q + r,
                q >= 0,
                r >= 0,
                n >= 1,
        ;
    } else {
        assert(a <= q && a <= q + r) by (nonlinear_arith)
            requires
                a == n * q + r,
                q <= 0,
                r <= 0,
                n >= 1,
        ;
    }
}

proof fn lemma_shares_prefix(a: int, n: int, k: int)
    requires
        n > 0,
        0 <= k < n,
    ensures
        shares_total(a, n, k) == k * trunc_div(a, n),
    decreases k,
{
    let q = trunc_div(a, n);
    if k > 0 {
        lemma_shares_prefix(a, n, k - 1);
        assert(share(a, n, k) == q);
        assert(shares_total(a, n, k) == shares_total(a, n, k - 1) + q);
        assert((k - 1) * q + q == k * q) by (nonlinear_arith);
    } else {
        assert(0 * q == 0);
    }
}

/// The shares of an amount add up to the amount.
pub proof fn lemma_shares_sum(a: int, n: int)
    requires
        n > 0,
    ensures
        shares_total(a, n, n) == a,
{
    lemma_shares_prefix(a, n, n - 1);
    lemma_trunc_parts(a, n);
    let q = trunc_div(a, n);
    assert((n - 1) * q + q == n * q) by (nonlinear_arith);
}

/// The sum, over transactions, of the amount of their `j`-th entry.
pub open spec fn entry_total(plans: Seq<TransactionInput>, j: int) -> int
    decreases plans.len(),
{
    if plans.len() == 0 {
        0
    } else {
        entry_total(plans.drop_last(), j) + plans.last().entries@[j].amount_native
    }
}

/// The three entries of installment `i` of `n`: the share of `total` taken,
/// the share of `part` and the difference given.
pub open spec fn share_entries(t: TransactionInput, total: int, part: int, n: int, i: int) -> bool {
    &&& t.entries@.len() == 3
    &&& t.entries@[0].amount_native == -share(total, n, i)
    &&& t.entries@[1].amount_native == share(part, n, i)
    &&& t.entries@[2].amount_native == share(total, n, i) - share(part, n, i)
}

/// Installment `i` of `n` of a financed purchase.
pub open spec fn is_installment(
    t: TransactionInput,
    total: int,
    cash: int,
    n: int,
    i: int,
    account: Seq<char>,
    category: Seq<char>,
    interest_account: Seq<char>,
    description: Seq<char>,
    start: Date,
    group: Seq<char>,
) -> bool {
    &&& t.date@ == date_text(add_months(start, (i - 1) as nat))
    &&& t.description@ == numbered_text(description, "Installment"@, i, n)
    &&& t.installment_current == Some(i as i64)
    &&& t.installment_total == Some(n as i64)
    &&& t.parent_group_id matches Some(g) && g@ == group
    &&& t.entries@.len() == 3
    &&& entry_is(t.entries@[0], account, -share(total, n, i), false)
    &&& entry_is(t.entries@[1], category, share(cash, n, i), false)
    &&& entry_is(t.entries@[2], interest_account, share(total, n, i) - share(cash, n, i), false)
}

proof fn lemma_add_months_range_mono(d: Date, k: nat, n: nat)
    requires
        k <= n,
        d.valid(),
        add_months_in_range(d, n),
    ensures
        add_months_in_range(d, k),
        k <= 0xffff_ffff,
{
}

/// The monthly installments of a purchase financed for `total_cents` whose
/// cash price is `cash_cents`: installment `i` is dated `i - 1` months after
/// `start` and takes its share of the total from `account`, giving its share
/// of the cash price to `category` and the difference to `interest_account`.
pub fn installment_plan(
    total_cents: i64,
    cash_cents: i64,
    count: i64,
    account: &String,
    category: &String,
    interest_account: &String,
    description: &String,
    start: Date,
    group_id: &String,
) -> (plans: Vec<TransactionInput>)
    requires
        count > 0,
        shares_negatable(total_cents as int, count as int),
        differences_fit(total_cents as int, cash_cents as int, count as int),
        start.valid(),
        add_months_in_range(start, (count - 1) as nat),
    ensures
        plans@.len() == count,
        forall|k: int|
            0 <= k < count ==> is_installment(
                #[trigger] plans@[k],
                total_cents as int,
                cash_cents as int,
                count as int,
                k + 1,
                account@,
                category@,
                interest_account@,
                description@,
                start,
                group_id@,
            ),
        forall|k: int| 0 <= k < count ==> native_sum(#[trigger] plans@[k].entries@) == 0,
        plans@[0].date@ == date_text(start),
        forall|k: int|
            0 <= k < count ==> {
                &&& (#[trigger] plans@[k]).entries@.len() == 3
                &&& plans@[k].entries@[0].account_name@ == account@
                &&& plans@[k].entries@[1].account_name@ == category@
                &&& plans@[k].entries@[2].account_name@ == interest_account@
            },
        account@ != category@ && account@ != interest_account@ && category@ != interest_account@
            ==> {
            &&& forall|k: int|
                0 <= k < count ==> {
                    &&& account_movement((#[trigger] plans@[k]).entries@, category@) == share(
                        cash_cents as int,
                        count as int,
                        k + 1,
                    )
                    &&& account_movement(plans@[k].entries@, interest_account@) == share(
                        total_cents as int,
                        count as int,
                        k + 1,
                    ) - share(cash_cents as int, count as int, k + 1)
                }
            &&& account_total(plans@, account@) == -total_cents
            &&& account_total(plans@, category@) == cash_cents
            &&& account_total(plans@, interest_account@) == total_cents - cash_cents
        },
{
    let monthly_total = total_cents / count;
    let remainder_total = total_cents % count;
    let monthly_cash = cash_cents / count;
    let remainder_cash = cash_cents % count;
    let mut plans: Vec<TransactionInput> = Vec::new();
    let mut i: i64 = 1;
    while i <= count
        invariant
            1 <= i <= count + 1,
            count > 0,
            monthly_total == trunc_div(total_cents as int, count as int),
            remainder_total == trunc_rem(total_cents as int, count as int),
            monthly_cash == trunc_div(cash_cents as int, count as int),
            remainder_cash == trunc_rem(cash_cents as int, count as int),
            shares_negatable(total_cents as int, count as int),
            differences_fit(total_cents as int, cash_cents as int, count as int),
            start.valid(),
            add_months_in_range(start, (count - 1) as nat),
            plans@.len() == i - 1,
            forall|k: int|
                0 <= k < i - 1 ==> is_installment(
                    #[trigger] plans@[k],
                    total_cents as int,
                    cash_cents as int,
                    count as int,
                    k + 1,
                    account@,
                    category@,
                    interest_account@,
                    description@,
                    start,
                    group_id@,
                ),
            forall|k: int| 0 <= k < i - 1 ==> native_sum(#[trigger] plans@[k].entries@) == 0,
        decreases count + 1 - i,
    {
        proof {
            lemma_share_bounds(total_cents as int, count as int, i as int);
            lemma_share_bounds(cash_cents as int, count as int, i as int);
            assert(share(total_cents as int, count as int, i as int) > i64::MIN);
            assert(i64::MIN <= share(total_cents as int, count as int, i as int) - share(
                cash_cents as int,
                count as int,
                i as int,
            ) <= i64::MAX);
            lemma_add_months_range_mono(start, (i - 1) as nat, (count - 1) as nat);
        }
        let current_total = if i == count {
            monthly_total + remainder_total
        } else {
            monthly_total
        };
        let current_cash = if i == count {
            monthly_cash + remainder_cash
        } else {
            monthly_cash
        };
        let current_interest = current_total - current_cash;
        let day = date_plus_months(start, (i - 1) as u32);
        let date = format_date(day);
        let text = numbered_description(description, "Installment", i, count);
        let mut entries: Vec<EntryInput> = Vec::new();
        entries.push(make_entry(account, -current_total, false));
        entries.push(make_entry(category, current_cash, false));
        entries.push(make_entry(interest_account, current_interest, false));
        proof {
            assert(entries@ == seq![entries@[0], entries@[1], entries@[2]]);
            lemma_native_sum_three(entries@[0], entries@[1], entries@[2]);
        }
        let t = TransactionInput {
            date,
            description: text,
            installment_current: Some(i),
            installment_total: Some(count),
            parent_group_id: Some(group_id.clone()),
            entries,
        };
        plans.push(t);
        i += 1;
    }
    proof {
        assert(installment_schedule(plans@, total_cents as int, cash_cents as int, count as int, account@, category@, interest_account@, description@, start, group_id@));
        if account@ != category@ && account@ != interest_account@ && category@ != interest_account@ {
            lemma_installment_accounts(plans@, total_cents as int, cash_cents as int, count as int, account@, category@, interest_account@, description@, start, group_id@);
        }
    }
    plans
}

/// Over a whole financed purchase, the liability account is charged the
/// total, the category receives the cash price and the interest account the
/// difference.
pub proof fn lemma_installment_plan_totals(
    plans: Seq<TransactionInput>,
    total: int,
    cash: int,
    n: int,
    account: Seq<char>,
    category: Seq<char>,
    interest_account: Seq<char>,
    description: Seq<char>,
    start: Date,
    group: Seq<char>,
)
    requires
        n > 0,
        plans.len() == n,
        forall|k: int|
            0 <= k < n ==> is_installment(
                #[trigger] plans[k],
                total,
                cash,
                n,
                k + 1,
                account,
                category,
                interest_account,
                description,
                start,
                group,
            ),
    ensures
        entry_total(plans, 0) == -total,
        entry_total(plans, 1) == cash,
        entry_total(plans, 2) == total - cash,
{
    assert forall|j: int| 0 <= j < n implies share_entries(#[trigger] plans[j], total, cash, n, j + 1) by {
        assert(is_installment(plans[j], total, cash, n, j + 1, account, category, interest_account, description, start, group));
    }
    lemma_columns(plans, total, cash, n, n);
    lemma_shares_sum(total, n);
    lemma_shares_sum(cash, n);
    assert(plans.take(n) == plans);
}

proof fn lemma_columns(plans: Seq<TransactionInput>, total: int, part: int, n: int, k: int)
    requires
        n > 0,
        0 <= k <= n,
        plans.len() == n,
        forall|j: int| 0 <= j < n ==> share_entries(#[trigger] plans[j], total, part, n, j + 1),
    ensures
        entry_total(plans.take(k), 0) == -shares_total(total, n, k),
        entry_total(plans.take(k), 1) == shares_total(part, n, k),
        entry_total(plans.take(k), 2) == shares_total(total, n, k) - shares_total(part, n, k),
    decreases k,
{
    if k > 0 {
        lemma_columns(plans, total, part, n, k - 1);
        assert(plans.take(k).drop_last() == plans.take(k - 1));
        assert(plans.take(k).last() == plans[k - 1]);
        assert(share_entries(plans[k - 1], total, part, n, k));
    }
}

/// Repayment `i` of `n` of a loan.
pub open spec fn is_repayment(
    t: TransactionInput,
    total: int,
    principal: int,
    n: int,
    i: int,
    bank_account: Seq<char>,
    loan_account: Seq<char>,
    interest_account: Seq<char>,
    description: Seq<char>,
    start: Date,
    group: Seq<char>,
) -> bool {
    &&& t.date@ == date_text(add_months(start, i as nat))
    &&& t.description@ == numbered_text(description, "Repayment"@, i, n)
    &&& t.installment_current == Some(i as i64)
    &&& t.installment_total == Some(n as i64)
    &&& t.parent_group_id matches Some(g) && g@ == group
    &&& t.entries@.len() == 3
    &&& entry_is(t.entries@[0], bank_account, -share(total, n, i), false)
    &&& entry_is(t.entries@[1], loan_account, share(principal, n, i), false)
    &&& entry_is(t.entries@[2], interest_account, share(total, n, i) - share(principal, n, i), false)
}

/// The receipt of a loan: the principal arrives on the bank account and is
/// owed on the loan account.
pub open spec fn is_loan_receipt(
    t: TransactionInput,
    principal: int,
    bank_account: Seq<char>,
    loan_account: Seq<char>,
    description: Seq<char>,
    start: Date,
    group: Seq<char>,
) -> bool {
    &&& t.date@ == date_text(start)
    &&& t.description@ == description + " (Loan Received)"@
    &&& t.installment_current is None
    &&& t.installment_total is None
    &&& t.parent_group_id matches Some(g) && g@ == group
    &&& t.entries@.len() == 2
    &&& entry_is(t.entries@[0], bank_account, principal, false)
    &&& entry_is(t.entries@[1], loan_account, -principal, false)
}

/// A loan of `principal_cents` repaid with `total_cents` in `count` monthly
/// repayments: first the receipt, dated `start`, then repayment `i` dated
/// `i` months later, taking its share of the total from the bank account
/// and splitting it between the loan account (its share of the principal)
/// and the interest account.
pub fn loan_plan(
    principal_cents: i64,
    total_cents: i64,
    count: i64,
    bank_account: &String,
    loan_account: &String,
    interest_account: &String,
    description: &String,
    start: Date,
    group_id: &String,
) -> (plans: Vec<TransactionInput>)
    requires
        count > 0,
        principal_cents > i64::MIN,
        shares_negatable(total_cents as int, count as int),
        differences_fit(total_cents as int, principal_cents as int, count as int),
        start.valid(),
        add_months_in_range(start, count as nat),
    ensures
        plans@.len() == count + 1,
        is_loan_receipt(
            plans@[0],
            principal_cents as int,
            bank_account@,
            loan_account@,
            description@,
            start,
            group_id@,
        ),
        forall|k: int|
            1 <= k <= count ==> is_repayment(
                #[trigger] plans@[k],
                total_cents as int,
                principal_cents as int,
                count as int,
                k,
                bank_account@,
                loan_account@,
                interest_account@,
                description@,
                start,
                group_id@,
            ),
        forall|k: int| 0 <= k <= count ==> native_sum(#[trigger] plans@[k].entries@) == 0,
        plans@[0].date@ == date_text(start),
        plans@[0].entries@.len() == 2,
        plans@[0].entries@[0].account_name@ == bank_account@,
        plans@[0].entries@[0].amount_native == principal_cents,
        plans@[0].entries@[1].account_name@ == loan_account@,
        plans@[0].entries@[1].amount_native == -principal_cents,
        forall|k: int|
            1 <= k <= count ==> {
                &&& (#[trigger] plans@[k]).entries@.len() == 3
                &&& plans@[k].entries@[0].account_name@ == bank_account@
                &&& plans@[k].entries@[1].account_name@ == loan_account@
                &&& plans@[k].entries@[2].account_name@ == interest_account@
            },
        bank_account@ != loan_account@ && bank_account@ != interest_account@ && loan_account@
            != interest_account@ ==> {
            &&& forall|k: int|
                1 <= k <= count ==> {
                    &&& account_movement((#[trigger] plans@[k]).entries@, loan_account@) == share(
                        principal_cents as int,
                        count as int,
                        k,
                    )
                    &&& account_movement(plans@[k].entries@, interest_account@) == share(
                        total_cents as int,
                        count as int,
                        k,
                    ) - share(principal_cents as int, count as int, k)
                }
            &&& account_total(plans@, bank_account@) == principal_cents - total_cents
            &&& account_total(plans@, loan_account@) == 0
            &&& account_total(plans@, interest_account@) == total_cents - principal_cents
        },
{
    let mut plans: Vec<TransactionInput> = Vec::new();
    let mut receipt_entries: Vec<EntryInput> = Vec::new();
    receipt_entries.push(make_entry(bank_account, principal_cents, false));
    receipt_entries.push(make_entry(loan_account, -principal_cents, false));
    proof {
        assert(receipt_entries@ == seq![receipt_entries@[0], receipt_entries@[1]]);
        lemma_native_sum_two(receipt_entries@[0], receipt_entries@[1]);
    }
    let mut receipt_text = description.clone();
    receipt_text.append(" (Loan Received)");
    plans.push(
        TransactionInput {
            date: format_date(start),
            description: receipt_text,
            installment_current: None,
            installment_total: None,
            parent_group_id: Some(group_id.clone()),
            entries: receipt_entries,
        },
    );
    let monthly_total = total_cents / count;
    let remainder_total = total_cents % count;
    let monthly_principal = principal_cents / count;
    let remainder_principal = principal_cents % count;
    let mut i: i64 = 1;
    while i <= count
        invariant
            1 <= i <= count + 1,
            count > 0,
            monthly_total == trunc_div(total_cents as int, count as int),
            remainder_total == trunc_rem(total_cents as int, count as int),
            monthly_principal == trunc_div(principal_cents as int, count as int),
            remainder_principal == trunc_rem(principal_cents as int, count as int),
            shares_negatable(total_cents as int, count as int),
            differences_fit(total_cents as int, principal_cents as int, count as int),
            start.valid(),
            add_months_in_range(start, count as nat),
            plans@.len() == i,
            is_loan_receipt(
                plans@[0],
                principal_cents as int,
                bank_account@,
                loan_account@,
                description@,
                start,
                group_id@,
            ),
            forall|k: int|
                1 <= k < i ==> is_repayment(
                    #[trigger] plans@[k],
                    total_cents as int,
                    principal_cents as int,
                    count as int,
                    k,
                    bank_account@,
                    loan_account@,
                    interest_account@,
                    description@,
                    start,
                    group_id@,
                ),
            forall|k: int| 0 <= k < i ==> native_sum(#[trigger] plans@[k].entries@) == 0,
        decreases count + 1 - i,
    {
        proof {
            lemma_share_bounds(total_cents as int, count as int, i as int);
            lemma_share_bounds(principal_cents as int, count as int, i as int);
            assert(share(total_cents as int, count as int, i as int) > i64::MIN);
            assert(i64::MIN <= share(total_cents as int, count as int, i as int) - share(
                principal_cents as int,
                count as int,
                i as int,
            ) <= i64::MAX);
            lemma_add_months_range_mono(start, i as nat, count as nat);
        }
        let current_total = if i == count {
            monthly_total + remainder_total
        } else {
            monthly_total
        };
        let current_principal = if i == count {
            monthly_principal + remainder_principal
        } else {
            monthly_principal
        };
        let current_interest = current_total - current_principal;
        let day = date_plus_months(start, i as u32);
        let date = format_date(day);
        let text = numbered_description(description, "Repayment", i, count);
        let mut entries: Vec<EntryInput> = Vec::new();
        entries.push(make_entry(bank_account, -current_total, false));
        entries.push(make_entry(loan_account, current_principal, false));
        entries.push(make_entry(interest_account, current_interest, false));
        proof {
            assert(entries@ == seq![entries@[0], entries@[1], entries@[2]]);
            lemma_native_sum_three(entries@[0], entries@[1], entries@[2]);
        }
        plans.push(
            TransactionInput {
                date,
                description: text,
                installment_current: Some(i),
                installment_total: Some(count),
                parent_group_id: Some(group_id.clone()),
                entries,
            },
        );
        i += 1;
    }
    proof {
        assert(loan_schedule(plans@, principal_cents as int, total_cents as int, count as int, bank_account@, loan_account@, interest_account@, description@, start, group_id@));
        if bank_account@ != loan_account@ && bank_account@ != interest_account@ && loan_account@ != interest_account@ {
            lemma_loan_accounts(plans@, principal_cents as int, total_cents as int, count as int, bank_account@, loan_account@, interest_account@, description@, start, group_id@);
        }
    }
    plans
}

/// Over a whole loan, the bank account ends with the principal minus the
/// total repaid, the loan account is settled to zero, and the interest
/// account carries the total minus the principal.
pub proof fn lemma_loan_plan_totals(
    plans: Seq<TransactionInput>,
    principal: int,
    total: int,
    n: int,
    bank_account: Seq<char>,
    loan_account: Seq<char>,
    interest_account: Seq<char>,
    description: Seq<char>,
    start: Date,
    group: Seq<char>,
)
    requires
        n > 0,
        plans.len() == n + 1,
        is_loan_receipt(plans[0], principal, bank_account, loan_account, description, start, group),
        forall|k: int|
            1 <= k <= n ==> is_repayment(
                #[trigger] plans[k],
                total,
                principal,
                n,
                k,
                bank_account,
                loan_account,
                interest_account,
                description,
                start,
                group,
            ),
    ensures
        plans[0].entries@[0].amount_native + entry_total(plans.skip(1), 0) == principal - total,
        plans[0].entries@[1].amount_native + entry_total(plans.skip(1), 1) == 0,
        entry_total(plans.skip(1), 2) == total - principal,
{
    let rest = plans.skip(1);
    assert forall|j: int| 0 <= j < n implies share_entries(#[trigger] rest[j], total, principal, n, j + 1) by {
        assert(rest[j] == plans[j + 1]);
        assert(is_repayment(plans[j + 1], total, principal, n, j + 1, bank_account, loan_account, interest_account, description, start, group));
    }
    lemma_columns(rest, total, principal, n, n);
    lemma_shares_sum(total, n);
    lemma_shares_sum(principal, n);
    assert(rest.take(n) == rest);
}

/// What a sequence of transactions moves, in all, on the account named
/// `name`.
pub open spec fn account_total(plans: Seq<TransactionInput>, name: Seq<char>) -> int
    decreases plans.len(),
{
    if plans.len() == 0 {
        0
    } else {
        account_total(plans.drop_last(), name) + account_movement(plans.last().entries@, name)
    }
}

/// The movement on one account of two entries, each counted when it is on
/// that account.
proof fn lemma_movement_two(e: Seq<EntryInput>, name: Seq<char>)
    requires
        e.len() == 2,
    ensures
        account_movement(e, name) == (if e[0].account_name@ == name {
            e[0].amount_native as int
        } else {
            0
        }) + (if e[1].account_name@ == name {
            e[1].amount_native as int
        } else {
            0
        }),
{
    let first = e.drop_last();
    assert(first.drop_last() == Seq::<EntryInput>::empty());
    assert(first.last() == e[0]);
    assert(e.last() == e[1]);
    assert(account_movement(Seq::<EntryInput>::empty(), name) == 0);
    assert(account_movement(first, name) == (if e[0].account_name@ == name {
        e[0].amount_native as int
    } else {
        0
    }));
}

/// The movement on one account of three entries, each counted when it is
/// on that account.
proof fn lemma_movement_three(e: Seq<EntryInput>, name: Seq<char>)
    requires
        e.len() == 3,
    ensures
        account_movement(e, name) == (if e[0].account_name@ == name {
            e[0].amount_native as int
        } else {
            0
        }) + (if e[1].account_name@ == name {
            e[1].amount_native as int
        } else {
            0
        }) + (if e[2].account_name@ == name {
            e[2].amount_native as int
        } else {
            0
        }),
{
    lemma_movement_two(e.drop_last(), name);
    assert(e.drop_last()[0] == e[0]);
    assert(e.drop_last()[1] == e[1]);
    assert(e.last() == e[2]);
}

proof fn lemma_installment_accounts_prefix(
    plans: Seq<TransactionInput>,
    total: int,
    cash: int,
    n: int,
    account: Seq<char>,
    category: Seq<char>,
    interest_account: Seq<char>,
    description: Seq<char>,
    start: Date,
    group: Seq<char>,
    k: int,
)
    requires
        n > 0,
        0 <= k <= n,
        installment_schedule(plans, total, cash, n, account, category, interest_account, description, start, group),
        account != category,
        account != interest_account,
        category != interest_account,
    ensures
        account_total(plans.take(k), account) == -shares_total(total, n, k),
        account_total(plans.take(k), category) == shares_total(cash, n, k),
        account_total(plans.take(k), interest_account) == shares_total(total, n, k) - shares_total(cash, n, k),
    decreases k,
{
    if k > 0 {
        lemma_installment_accounts_prefix(plans, total, cash, n, account, category, interest_account, description, start, group, k - 1);
        assert(plans.take(k).drop_last() == plans.take(k - 1));
        assert(plans.take(k).last() == plans[k - 1]);
        assert(is_installment(plans[k - 1], total, cash, n, k, account, category, interest_account, description, start, group));
        let e = plans[k - 1].entries@;
        lemma_movement_three(e, account);
        lemma_movement_three(e, category);
        lemma_movement_three(e, interest_account);
    }
}

/// A financed purchase charges its accounts by name: in each installment
/// the category receives that installment's share of the cash price and
/// the interest account the rest of what the installment takes; over the
/// whole purchase the account is charged the total, the category receives
/// the cash price and the interest account the difference (when the three
/// accounts are distinct).
pub proof fn lemma_installment_accounts(
    plans: Seq<TransactionInput>,
    total: int,
    cash: int,
    n: int,
    account: Seq<char>,
    category: Seq<char>,
    interest_account: Seq<char>,
    description: Seq<char>,
    start: Date,
    group: Seq<char>,
)
    requires
        n > 0,
        installment_schedule(plans, total, cash, n, account, category, interest_account, description, start, group),
        account != category,
        account != interest_account,
        category != interest_account,
    ensures
        forall|k: int|
            0 <= k < n ==> {
                &&& account_movement((#[trigger] plans[k]).entries@, account) == -share(total, n, k + 1)
                &&& account_movement(plans[k].entries@, category) == share(cash, n, k + 1)
                &&& account_movement(plans[k].entries@, interest_account) == share(total, n, k + 1)
                    - share(cash, n, k + 1)
            },
        account_total(plans, account) == -total,
        account_total(plans, category) == cash,
        account_total(plans, interest_account) == total - cash,
{
    assert forall|k: int| 0 <= k < n implies {
        &&& account_movement((#[trigger] plans[k]).entries@, account) == -share(total, n, k + 1)
        &&& account_movement(plans[k].entries@, category) == share(cash, n, k + 1)
        &&& account_movement(plans[k].entries@, interest_account) == share(total, n, k + 1) - share(cash, n, k + 1)
    } by {
        assert(is_installment(plans[k], total, cash, n, k + 1, account, category, interest_account, description, start, group));
        lemma_movement_three(plans[k].entries@, account);
        lemma_movement_three(plans[k].entries@, category);
        lemma_movement_three(plans[k].entries@, interest_account);
    }
    lemma_installment_accounts_prefix(plans, total, cash, n, account, category, interest_account, description, start, group, n);
    lemma_shares_sum(total, n);
    lemma_shares_sum(cash, n);
    assert(plans.take(n) == plans);
}

proof fn lemma_loan_accounts_prefix(
    plans: Seq<TransactionInput>,
    principal: int,
    total: int,
    n: int,
    bank_account: Seq<char>,
    loan_account: Seq<char>,
    interest_account: Seq<char>,
    description: Seq<char>,
    start: Date,
    group: Seq<char>,
    k: int,
)
    requires
        n > 0,
        0 <= k <= n,
        loan_schedule(plans, principal, total, n, bank_account, loan_account, interest_account, description, start, group),
        bank_account != loan_account,
        bank_account != interest_account,
        loan_account != interest_account,
    ensures
        account_total(plans.take(k + 1), bank_account) == principal - shares_total(total, n, k),
        account_total(plans.take(k + 1), loan_account) == -principal + shares_total(principal, n, k),
        account_total(plans.take(k + 1), interest_account) == shares_total(total, n, k)
            - shares_total(principal, n, k),
    decreases k,
{
    if k > 0 {
        lemma_loan_accounts_prefix(plans, principal, total, n, bank_account, loan_account, interest_account, description, start, group, k - 1);
        assert(plans.take(k + 1).drop_last() == plans.take(k));
        assert(plans.take(k + 1).last() == plans[k]);
        assert(is_repayment(plans[k], total, principal, n, k, bank_account, loan_account, interest_account, description, start, group));
        let e = plans[k].entries@;
        lemma_movement_three(e, bank_account);
        lemma_movement_three(e, loan_account);
        lemma_movement_three(e, interest_account);
    } else {
        assert(plans.take(1).drop_last() == Seq::<TransactionInput>::empty());
        assert(plans.take(1).last() == plans[0]);
        assert(account_total(Seq::<TransactionInput>::empty(), bank_account) == 0);
        assert(account_total(Seq::<TransactionInput>::empty(), loan_account) == 0);
        assert(account_total(Seq::<TransactionInput>::empty(), interest_account) == 0);
        let e = plans[0].entries@;
        lemma_movement_two(e, bank_account);
        lemma_movement_two(e, loan_account);
        lemma_movement_two(e, interest_account);
    }
}

/// A loan moves its accounts by name: the receipt brings the principal to
/// the bank and owes it on the loan account; in each repayment the loan
/// account receives that repayment's share of the principal and the
/// interest account the rest of what the bank pays; over the whole loan
/// the loan account comes back to zero, the interest account holds the
/// total minus the principal and the bank has paid the difference (when
/// the three accounts are distinct).
pub proof fn lemma_loan_accounts(
    plans: Seq<TransactionInput>,
    principal: int,
    total: int,
    n: int,
    bank_account: Seq<char>,
    loan_account: Seq<char>,
    interest_account: Seq<char>,
    description: Seq<char>,
    start: Date,
    group: Seq<char>,
)
    requires
        n > 0,
        loan_schedule(plans, principal, total, n, bank_account, loan_account, interest_account, description, start, group),
        bank_account != loan_account,
        bank_account != interest_account,
        loan_account != interest_account,
    ensures
        account_movement(plans[0].entries@, bank_account) == principal,
        account_movement(plans[0].entries@, loan_account) == -principal,
        account_movement(plans[0].entries@, interest_account) == 0,
        forall|k: int|
            1 <= k <= n ==> {
                &&& account_movement((#[trigger] plans[k]).entries@, bank_account) == -share(total, n, k)
                &&& account_movement(plans[k].entries@, loan_account) == share(principal, n, k)
                &&& account_movement(plans[k].entries@, interest_account) == share(total, n, k)
                    - share(principal, n, k)
            },
        account_total(plans, bank_account) == principal - total,
        account_total(plans, loan_account) == 0,
        account_total(plans, interest_account) == total - principal,
{
    lemma_movement_two(plans[0].entries@, bank_account);
    lemma_movement_two(plans[0].entries@, loan_account);
    lemma_movement_two(plans[0].entries@, interest_account);
    assert forall|k: int| 1 <= k <= n implies {
        &&& account_movement((#[trigger] plans[k]).entries@, bank_account) == -share(total, n, k)
        &&& account_movement(plans[k].entries@, loan_account) == share(principal, n, k)
        &&& account_movement(plans[k].entries@, interest_account) == share(total, n, k) - share(principal, n, k)
    } by {
        assert(is_repayment(plans[k], total, principal, n, k, bank_account, loan_account, interest_account, description, start, group));
        lemma_movement_three(plans[k].entries@, bank_account);
        lemma_movement_three(plans[k].entries@, loan_account);
        lemma_movement_three(plans[k].entries@, interest_account);
    }
    lemma_loan_accounts_prefix(plans, principal, total, n, bank_account, loan_account, interest_account, description, start, group, n);
    lemma_shares_sum(total, n);
    lemma_shares_sum(principal, n);
    assert(plans.take(n + 1) == plans);
}

/// The transactions are the installments of a financed purchase starting
/// on `start`, grouped under `group`.
pub open spec fn installment_schedule(
    plans: Seq<TransactionInput>,
    total: int,
    cash: int,
    n: int,
    account: Seq<char>,
    category: Seq<char>,
    interest_account: Seq<char>,
    description: Seq<char>,
    start: Date,
    group: Seq<char>,
) -> bool {
    &&& plans.len() == n
    &&& forall|k: int|
        0 <= k < n ==> is_installment(
            #[trigger] plans[k],
            total,
            cash,
            n,
            k + 1,
            account,
            category,
            interest_account,
            description,
            start,
            group,
        )
}

/// The transactions are the receipt and the repayments of a loan starting
/// on `start`, grouped under `group`.
pub open spec fn loan_schedule(
    plans: Seq<TransactionInput>,
    principal: int,
    total: int,
    n: int,
    bank_account: Seq<char>,
    loan_account: Seq<char>,
    interest_account: Seq<char>,
    description: Seq<char>,
    start: Date,
    group: Seq<char>,
) -> bool {
    &&& plans.len() == n + 1
    &&& is_loan_receipt(plans[0], principal, bank_account, loan_account, description, start, group)
    &&& forall|k: int|
        1 <= k <= n ==> is_repayment(
            #[trigger] plans[k],
            total,
            principal,
            n,
            k,
            bank_account,
            loan_account,
            interest_account,
            description,
            start,
            group,
        )
}

/// The start that a date option fixes: the date read from the text, or
/// nothing fixed (today) when there is no text.
pub open spec fn parsed_start(date: Option<String>) -> Option<(i32, u32, u32)> {
    match date {
        Some(d) => chrono_parsed_date(d@),
        None => None,
    }
}

/// The start date is the one fixed, if any.
pub open spec fn start_fits(start: Date, fixed: Option<(i32, u32, u32)>) -> bool {
    &&& start.valid()
    &&& fixed matches Some(f) ==> (start.year, start.month, start.day) == f
}

/// The transactions are the installments of a financed purchase starting
/// on a valid day (the fixed one, if any) and sharing a group id.
pub open spec fn installments_on_some_day(
    plans: Seq<TransactionInput>,
    total: int,
    cash: int,
    n: int,
    account: Seq<char>,
    category: Seq<char>,
    interest_account: Seq<char>,
    description: Seq<char>,
    fixed: Option<(i32, u32, u32)>,
) -> bool {
    exists|start: Date, group: Seq<char>|
        start_fits(start, fixed) && #[trigger] installment_schedule(
            plans,
            total,
            cash,
            n,
            account,
            category,
            interest_account,
            description,
            start,
            group,
        )
}

/// The transactions are the receipt and repayments of a loan starting on a
/// valid day (the fixed one, if any) and sharing a group id.
pub open spec fn loan_on_some_day(
    plans: Seq<TransactionInput>,
    principal: int,
    total: int,
    n: int,
    bank_account: Seq<char>,
    loan_account: Seq<char>,
    interest_account: Seq<char>,
    description: Seq<char>,
    fixed: Option<(i32, u32, u32)>,
) -> bool {
    exists|start: Date, group: Seq<char>|
        start_fits(start, fixed) && #[trigger] loan_schedule(
            plans,
            principal,
            total,
            n,
            bank_account,
            loan_account,
            interest_account,
            description,
            start,
            group,
        )
}

/// `uuid::Uuid::new_v4`, written as text: a fresh random identifier for a
/// group of transactions, in the hyphenated form of 36 characters (hyphens
/// after the 8th, 12th, 16th and 20th hex digit). Its digits are random and
/// not stated.
#[verifier::external_body]
fn new_group_id() -> (id: String)
    ensures
        id@.len() == 36,
        id@[8] == '-' && id@[13] == '-' && id@[18] == '-' && id@[23] == '-',
{
    uuid::Uuid::new_v4().to_string()
}

/// The terms of a financed purchase: at least one installment, and a total
/// no lower than the cash price.
pub fn check_installment_terms(count: i64, cash_cents: i64, total_cents: i64) -> (r: Result<
    (),
    MangoError,
>)
    ensures
        count <= 0 ==> r == Err::<(), MangoError>(MangoError::NoInstallments),
        count > 0 && total_cents < cash_cents ==> r == Err::<(), MangoError>(
            MangoError::TotalBelowCash,
        ),
        count > 0 && total_cents >= cash_cents ==> r is Ok,
{
    if count <= 0 {
        return Err(MangoError::NoInstallments);
    }
    if total_cents < cash_cents {
        return Err(MangoError::TotalBelowCash);
    }
    Ok(())
}

/// The terms of a loan: at least one repayment, and a total no lower than
/// the principal.
pub fn check_loan_terms(count: i64, principal_cents: i64, total_cents: i64) -> (r: Result<
    (),
    MangoError,
>)
    ensures
        count <= 0 ==> r == Err::<(), MangoError>(MangoError::NoInstallments),
        count > 0 && total_cents < principal_cents ==> r == Err::<(), MangoError>(
            MangoError::TotalBelowPrincipal,
        ),
        count > 0 && total_cents >= principal_cents ==> r is Ok,
{
    if count <= 0 {
        return Err(MangoError::NoInstallments);
    }
    if total_cents < principal_cents {
        return Err(MangoError::TotalBelowPrincipal);
    }
    Ok(())
}

/// Whether every share of `total` can be negated and every difference of
/// shares of `total` and `part` fits, tested on the two shares that occur.
fn shares_in_range(total: i64, part: i64, count: i64) -> (ok: bool)
    requires
        count > 0,
    ensures
        ok == (shares_negatable(total as int, count as int) && differences_fit(
            total as int,
            part as int,
            count as int,
        )),
{
    let q_total = total / count;
    let q_part = part / count;
    proof {
        lemma_share_bounds(total as int, count as int, count as int);
        lemma_share_bounds(part as int, count as int, count as int);
        lemma_share_bounds(total as int, count as int, 1);
        lemma_share_bounds(part as int, count as int, 1);
    }
    let last_total = q_total + total % count;
    let last_part = q_part + part % count;
    let first_ok = count == 1 || q_total > i64::MIN;
    let first_diff: i128 = q_total as i128 - q_part as i128;
    let last_diff: i128 = last_total as i128 - last_part as i128;
    let first_diff_ok = count == 1 || (i64::MIN as i128 <= first_diff && first_diff
        <= i64::MAX as i128);
    let last_diff_ok = i64::MIN as i128 <= last_diff && last_diff <= i64::MAX as i128;
    let ok = first_ok && last_total > i64::MIN && first_diff_ok && last_diff_ok;
    proof {
        if ok {
            assert forall|i: int| 1 <= i <= count implies #[trigger] share(
                total as int,
                count as int,
                i,
            ) > i64::MIN by {}
            assert forall|i: int| 1 <= i <= count implies i64::MIN <= #[trigger] share(
                total as int,
                count as int,
                i,
            ) - share(part as int, count as int, i) <= i64::MAX by {}
        } else {
            if !(last_total > i64::MIN) {
                assert(share(total as int, count as int, count as int) <= i64::MIN);
            } else if !last_diff_ok {
                assert(!(i64::MIN <= share(total as int, count as int, count as int) - share(
                    part as int,
                    count as int,
                    count as int,
                ) <= i64::MAX));
            } else if !first_ok {
                assert(share(total as int, count as int, 1) <= i64::MIN);
            } else {
                assert(!(i64::MIN <= share(total as int, count as int, 1) - share(
                    part as int,
                    count as int,
                    1,
                ) <= i64::MAX));
            }
        }
    }
    ok
}

/// Whether the date `months` months after `start` is within the range of
/// `chrono`.
fn months_in_range(start: Date, months: i64) -> (ok: bool)
    requires
        start.valid(),
        months >= 0,
    ensures
        ok == add_months_in_range(start, months as nat),
{
    let t: i128 = start.year as i128 * 12 + start.month as i128 - 1 + months as i128;
    let ok = -262143i128 * 12 <= t && t < 262143i128 * 12;
    proof {
        let ti = t as int;
        assert(ti == start.year * 12 + start.month - 1 + months);
        assert(ok == (min_year() <= ti / 12 <= max_year()));
    }
    ok
}

/// The day a schedule starts on when `today` is the current day: the date
/// read from the given text, today when none is given, or nothing when the
/// text is not a `YYYY-MM-DD` date.
pub open spec fn chosen_start(today: Date, date: Option<String>) -> Option<Date> {
    match date {
        None => Some(today),
        Some(d) => match chrono_parsed_date(d@) {
            Some(p) => Some(Date { year: p.0, month: p.1, day: p.2 }),
            None => None,
        },
    }
}

/// The outcome of planning a financed purchase on the day `today` with the
/// group id `group`: the first refusal that applies (terms, date text,
/// amounts, dates), or the installments starting on the chosen day.
pub open spec fn installments_outcome(
    r: Result<Vec<TransactionInput>, MangoError>,
    today: Date,
    total: int,
    cash: int,
    n: int,
    account: Seq<char>,
    category: Seq<char>,
    interest_account: Seq<char>,
    description: Seq<char>,
    date: Option<String>,
    group: Seq<char>,
) -> bool {
    if n <= 0 {
        r == Err::<Vec<TransactionInput>, MangoError>(MangoError::NoInstallments)
    } else if total < cash {
        r == Err::<Vec<TransactionInput>, MangoError>(MangoError::TotalBelowCash)
    } else {
        match chosen_start(today, date) {
            None => r == Err::<Vec<TransactionInput>, MangoError>(MangoError::InvalidDateFormat),
            Some(start) => if !(shares_negatable(total, n) && differences_fit(total, cash, n)) {
                r == Err::<Vec<TransactionInput>, MangoError>(MangoError::AmountOutOfRange)
            } else if !add_months_in_range(start, (n - 1) as nat) {
                r == Err::<Vec<TransactionInput>, MangoError>(MangoError::DateOutOfRange)
            } else {
                r matches Ok(plans) && start.valid() && installment_schedule(
                    plans@,
                    total,
                    cash,
                    n,
                    account,
                    category,
                    interest_account,
                    description,
                    start,
                    group,
                )
            },
        }
    }
}

/// The outcome of planning a loan on the day `today` with the group id
/// `group`: the first refusal that applies (terms, date text, amounts,
/// dates), or the receipt and repayments starting on the chosen day.
pub open spec fn loan_outcome(
    r: Result<Vec<TransactionInput>, MangoError>,
    today: Date,
    principal: int,
    total: int,
    n: int,
    bank_account: Seq<char>,
    loan_account: Seq<char>,
    interest_account: Seq<char>,
    description: Seq<char>,
    date: Option<String>,
    group: Seq<char>,
) -> bool {
    if n <= 0 {
        r == Err::<Vec<TransactionInput>, MangoError>(MangoError::NoInstallments)
    } else if total < principal {
        r == Err::<Vec<TransactionInput>, MangoError>(MangoError::TotalBelowPrincipal)
    } else {
        match chosen_start(today, date) {
            None => r == Err::<Vec<TransactionInput>, MangoError>(MangoError::InvalidDateFormat),
            Some(start) => if !(principal > i64::MIN && shares_negatable(total, n)
                && differences_fit(total, principal, n)) {
                r == Err::<Vec<TransactionInput>, MangoError>(MangoError::AmountOutOfRange)
            } else if !add_months_in_range(start, n as nat) {
                r == Err::<Vec<TransactionInput>, MangoError>(MangoError::DateOutOfRange)
            } else {
                r matches Ok(plans) && start.valid() && loan_schedule(
                    plans@,
                    principal,
                    total,
                    n,
                    bank_account,
                    loan_account,
                    interest_account,
                    description,
                    start,
                    group,
                )
            },
        }
    }
}

/// The day a schedule starts on, `today` when no date is given.
fn start_date_on(today: Date, date: &Option<String>) -> (r: Result<Date, MangoError>)
    requires
        today.valid(),
    ensures
        match chosen_start(today, *date) {
            Some(d) => r == Ok::<Date, MangoError>(d) && d.valid(),
            None => r == Err::<Date, MangoError>(MangoError::InvalidDateFormat),
        },
{
    match date {
        Some(s) => parse_date(s.as_str()),
        None => Ok(today),
    }
}

/// The group of transactions of a financed purchase planned on the day
/// `today` under the group id `group_id`.
pub fn plan_installments_on(
    total_cents: i64,
    cash_cents: i64,
    count: i64,
    account: &String,
    category: &String,
    interest_account: &String,
    description: &String,
    date: &Option<String>,
    today: Date,
    group_id: &String,
) -> (r: Result<Vec<TransactionInput>, MangoError>)
    requires
        today.valid(),
    ensures
        installments_outcome(
            r,
            today,
            total_cents as int,
            cash_cents as int,
            count as int,
            account@,
            category@,
            interest_account@,
            description@,
            *date,
            group_id@,
        ),
{
    check_installment_terms(count, cash_cents, total_cents)?;
    let start = start_date_on(today, date)?;
    if !shares_in_range(total_cents, cash_cents, count) {
        return Err(MangoError::AmountOutOfRange);
    }
    if !months_in_range(start, count - 1) {
        return Err(MangoError::DateOutOfRange);
    }
    let plans = installment_plan(
        total_cents,
        cash_cents,
        count,
        account,
        category,
        interest_account,
        description,
        start,
        group_id,
    );
    assert(installment_schedule(plans@, total_cents as int, cash_cents as int, count as int, account@, category@, interest_account@, description@, start, group_id@));
    Ok(plans)
}

/// The group of transactions of a loan planned on the day `today` under the
/// group id `group_id`.
pub fn plan_loan_on(
    principal_cents: i64,
    total_cents: i64,
    count: i64,
    bank_account: &String,
    loan_account: &String,
    interest_account: &String,
    description: &String,
    date: &Option<String>,
    today: Date,
    group_id: &String,
) -> (r: Result<Vec<TransactionInput>, MangoError>)
    requires
        today.valid(),
    ensures
        loan_outcome(
            r,
            today,
            principal_cents as int,
            total_cents as int,
            count as int,
            bank_account@,
            loan_account@,
            interest_account@,
            description@,
            *date,
            group_id@,
        ),
{
    check_loan_terms(count, principal_cents, total_cents)?;
    let start = start_date_on(today, date)?;
    if principal_cents == i64::MIN || !shares_in_range(total_cents, principal_cents, count) {
        return Err(MangoError::AmountOutOfRange);
    }
    if !months_in_range(start, count) {
        return Err(MangoError::DateOutOfRange);
    }
    let plans = loan_plan(
        principal_cents,
        total_cents,
        count,
        bank_account,
        loan_account,
        interest_account,
        description,
        start,
        group_id,
    );
    assert(loan_schedule(plans@, principal_cents as int, total_cents as int, count as int, bank_account@, loan_account@, interest_account@, description@, start, group_id@));
    Ok(plans)
}

/// Planning a financed purchase gave `r` on some valid day with some group id.
pub open spec fn installments_on_some_today(
    r: Result<Vec<TransactionInput>, MangoError>,
    total: int,
    cash: int,
    n: int,
    account: Seq<char>,
    category: Seq<char>,
    interest_account: Seq<char>,
    description: Seq<char>,
    date: Option<String>,
) -> bool {
    exists|today: Date, group: Seq<char>|
        today.valid() && #[trigger] installments_outcome(
            r,
            today,
            total,
            cash,
            n,
            account,
            category,
            interest_account,
            description,
            date,
            group,
        )
}

/// Planning a loan gave `r` on some valid day with some group id.
pub open spec fn loan_on_some_today(
    r: Result<Vec<TransactionInput>, MangoError>,
    principal: int,
    total: int,
    n: int,
    bank_account: Seq<char>,
    loan_account: Seq<char>,
    interest_account: Seq<char>,
    description: Seq<char>,
    date: Option<String>,
) -> bool {
    exists|today: Date, group: Seq<char>|
        today.valid() && #[trigger] loan_outcome(
            r,
            today,
            principal,
            total,
            n,
            bank_account,
            loan_account,
            interest_account,
            description,
            date,
            group,
        )
}

/// The group of transactions of a financed purchase, identified by a fresh
/// random id and starting on `date` (or today): refused when the terms are
/// wrong or the date is not `YYYY-MM-DD`, and when a share or a date of the
/// schedule would leave the range of the ledger. The result is that of
/// `plan_installments_on` for the current day and a fresh group id.
pub fn plan_installments(
    total_cents: i64,
    cash_cents: i64,
    count: i64,
    account: &String,
    category: &String,
    interest_account: &String,
    description: &String,
    date: &Option<String>,
) -> (r: Result<Vec<TransactionInput>, MangoError>)
    ensures
        count <= 0 ==> r == Err::<Vec<TransactionInput>, MangoError>(MangoError::NoInstallments),
        count > 0 && total_cents < cash_cents ==> r == Err::<Vec<TransactionInput>, MangoError>(
            MangoError::TotalBelowCash,
        ),
        count > 0 && total_cents >= cash_cents ==> match date {
            Some(d) => chrono_parsed_date(d@) is None ==> r == Err::<
                Vec<TransactionInput>,
                MangoError,
            >(MangoError::InvalidDateFormat),
            None => true,
        },
        count > 0 && total_cents >= cash_cents && !(shares_negatable(
            total_cents as int,
            count as int,
        ) && differences_fit(total_cents as int, cash_cents as int, count as int)) ==> r is Err,
        r is Ok ==> installments_on_some_day(
            r->Ok_0@,
            total_cents as int,
            cash_cents as int,
            count as int,
            account@,
            category@,
            interest_account@,
            description@,
            parsed_start(*date),
        ),
        count > 0 && total_cents >= cash_cents && shares_negatable(total_cents as int, count as int)
            && differences_fit(total_cents as int, cash_cents as int, count as int) && (
        date matches Some(d) && chrono_parsed_date(d@) matches Some(p) && add_months_in_range(
            Date { year: p.0, month: p.1, day: p.2 },
            (count - 1) as nat,
        )) ==> r is Ok,
        r matches Err(e) ==> (e == MangoError::NoInstallments || e == MangoError::TotalBelowCash
            || e == MangoError::InvalidDateFormat || e == MangoError::AmountOutOfRange || e
            == MangoError::DateOutOfRange),
        r matches Err(e) && e == MangoError::AmountOutOfRange ==> !(shares_negatable(
            total_cents as int,
            count as int,
        ) && differences_fit(total_cents as int, cash_cents as int, count as int)),
        r matches Err(e) && e == MangoError::NoInstallments ==> count <= 0,
        r matches Err(e) && e == MangoError::TotalBelowCash ==> count > 0 && total_cents
            < cash_cents,
        r matches Err(e) && e == MangoError::InvalidDateFormat ==> (date matches Some(d)
            && chrono_parsed_date(d@) is None),
        r matches Err(e) && e == MangoError::DateOutOfRange ==> count > 0 && total_cents
            >= cash_cents && shares_negatable(total_cents as int, count as int)
            && differences_fit(total_cents as int, cash_cents as int, count as int),
        count > 0 && total_cents >= cash_cents && shares_negatable(total_cents as int, count as int)
            && differences_fit(total_cents as int, cash_cents as int, count as int) && date is None
            ==> (r is Ok || r == Err::<Vec<TransactionInput>, MangoError>(
            MangoError::DateOutOfRange,
        )),
        count == 1 && total_cents >= cash_cents && shares_negatable(total_cents as int, count as int)
            && differences_fit(total_cents as int, cash_cents as int, count as int) && date is None
            ==> r is Ok,
        installments_on_some_today(
            r,
            total_cents as int,
            cash_cents as int,
            count as int,
            account@,
            category@,
            interest_account@,
            description@,
            *date,
        ),
{
    let group_id = new_group_id();
    let day = today();
    let r = plan_installments_on(
        total_cents,
        cash_cents,
        count,
        account,
        category,
        interest_account,
        description,
        date,
        day,
        &group_id,
    );
    assert(installments_outcome(r, day, total_cents as int, cash_cents as int, count as int, account@, category@, interest_account@, description@, *date, group_id@));
    proof {
        if r is Ok {
            let start = chosen_start(day, *date)->0;
            assert(start_fits(start, parsed_start(*date)));
            assert(installment_schedule(r->Ok_0@, total_cents as int, cash_cents as int, count as int, account@, category@, interest_account@, description@, start, group_id@));
        }
    }
    r
}

/// The group of transactions of a loan (receipt, then repayments),
/// identified by a fresh random id and starting on `date` (or today):
/// refused when the terms are wrong or the date is not `YYYY-MM-DD`, and
/// when an amount or a date of the schedule would leave the range of the
/// ledger. The result is that of `plan_loan_on` for the current day and a
/// fresh group id.
pub fn plan_loan(
    principal_cents: i64,
    total_cents: i64,
    count: i64,
    bank_account: &String,
    loan_account: &String,
    interest_account: &String,
    description: &String,
    date: &Option<String>,
) -> (r: Result<Vec<TransactionInput>, MangoError>)
    ensures
        count <= 0 ==> r == Err::<Vec<TransactionInput>, MangoError>(MangoError::NoInstallments),
        count > 0 && total_cents < principal_cents ==> r == Err::<
            Vec<TransactionInput>,
            MangoError,
        >(MangoError::TotalBelowPrincipal),
        count > 0 && total_cents >= principal_cents ==> match date {
            Some(d) => chrono_parsed_date(d@) is None ==> r == Err::<
                Vec<TransactionInput>,
                MangoError,
            >(MangoError::InvalidDateFormat),
            None => true,
        },
        count > 0 && total_cents >= principal_cents && !(principal_cents > i64::MIN
            && shares_negatable(total_cents as int, count as int) && differences_fit(
            total_cents as int,
            principal_cents as int,
            count as int,
        )) ==> r is Err,
        r is Ok ==> loan_on_some_day(
            r->Ok_0@,
            principal_cents as int,
            total_cents as int,
            count as int,
            bank_account@,
            loan_account@,
            interest_account@,
            description@,
            parsed_start(*date),
        ),
        count > 0 && total_cents >= principal_cents && principal_cents > i64::MIN
            && shares_negatable(total_cents as int, count as int) && differences_fit(
            total_cents as int,
            principal_cents as int,
            count as int,
        ) && (date matches Some(d) && chrono_parsed_date(d@) matches Some(p)
            && add_months_in_range(Date { year: p.0, month: p.1, day: p.2 }, count as nat))
            ==> r is Ok,
        r matches Err(e) ==> (e == MangoError::NoInstallments || e
            == MangoError::TotalBelowPrincipal || e == MangoError::InvalidDateFormat || e
            == MangoError::AmountOutOfRange || e == MangoError::DateOutOfRange),
        r matches Err(e) && e == MangoError::AmountOutOfRange ==> !(principal_cents > i64::MIN
            && shares_negatable(total_cents as int, count as int) && differences_fit(
            total_cents as int,
            principal_cents as int,
            count as int,
        )),
        r matches Err(e) && e == MangoError::NoInstallments ==> count <= 0,
        r matches Err(e) && e == MangoError::TotalBelowPrincipal ==> count > 0 && total_cents
            < principal_cents,
        r matches Err(e) && e == MangoError::InvalidDateFormat ==> (date matches Some(d)
            && chrono_parsed_date(d@) is None),
        r matches Err(e) && e == MangoError::DateOutOfRange ==> count > 0 && total_cents
            >= principal_cents && principal_cents > i64::MIN && shares_negatable(
            total_cents as int,
            count as int,
        ) && differences_fit(total_cents as int, principal_cents as int, count as int),
        count > 0 && total_cents >= principal_cents && principal_cents > i64::MIN
            && shares_negatable(total_cents as int, count as int) && differences_fit(
            total_cents as int,
            principal_cents as int,
            count as int,
        ) && date is None ==> (r is Ok || r == Err::<Vec<TransactionInput>, MangoError>(
            MangoError::DateOutOfRange,
        )),
        loan_on_some_today(
            r,
            principal_cents as int,
            total_cents as int,
            count as int,
            bank_account@,
            loan_account@,
            interest_account@,
            description@,
            *date,
        ),
{
    let day = today();
    let group_id = new_group_id();
    let r = plan_loan_on(
        principal_cents,
        total_cents,
        count,
        bank_account,
        loan_account,
        interest_account,
        description,
        date,
        day,
        &group_id,
    );
    assert(loan_outcome(r, day, principal_cents as int, total_cents as int, count as int, bank_account@, loan_account@, interest_account@, description@, *date, group_id@));
    proof {
        if r is Ok {
            let start = chosen_start(day, *date)->0;
            assert(start_fits(start, parsed_start(*date)));
            assert(loan_schedule(r->Ok_0@, principal_cents as int, total_cents as int, count as int, bank_account@, loan_account@, interest_account@, description@, start, group_id@));
        }
    }
    r
}

} // verus!
