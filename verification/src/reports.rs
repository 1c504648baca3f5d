//! The arithmetic of the reports: balance sheet, cash flow, expense
//! distribution, monthly history and budget totals. Amounts are cents in
//! the base currency unless said otherwise.

use vstd::prelude::*;
use crate::commands::is_text;

verus! {

/// The sum of the amounts of the rows of type `ty`, among `(type, amount)` rows.
pub open spec fn type_sum(rows: Seq<(String, i64)>, ty: Seq<char>) -> int
    decreases rows.len(),
{
    if rows.len() == 0 {
        0
    } else {
        type_sum(rows.drop_last(), ty) + (if rows.last().0@ == ty {
            rows.last().1 as int
        } else {
            0
        })
    }
}

/// Every running sum of the amounts of type `ty` fits in an `i64`.
pub open spec fn type_sums_fit(rows: Seq<(String, i64)>, ty: Seq<char>) -> bool {
    forall|k: int|
        0 <= k <= rows.len() ==> i64::MIN <= #[trigger] type_sum(rows.take(k), ty) <= i64::MAX
}

/// The totals of a balance sheet.
pub struct BalanceTotals {
    pub assets: i64,
    pub liabilities: i64,
    /// Assets plus liabilities (liabilities are negative balances).
    pub net_worth: i64,
}

/// Totals of the balances of the asset and liability accounts; `rows` holds
/// each account's type and balance.
pub fn balance_totals(rows: &Vec<(String, i64)>) -> (t: BalanceTotals)
    requires
        type_sums_fit(rows@, "asset"@),
        type_sums_fit(rows@, "liability"@),
        i64::MIN <= type_sum(rows@, "asset"@) + type_sum(rows@, "liability"@) <= i64::MAX,
    ensures
        t.assets == type_sum(rows@, "asset"@),
        t.liabilities == type_sum(rows@, "liability"@),
        t.net_worth == t.assets + t.liabilities,
{
    let mut assets: i64 = 0;
    let mut liabilities: i64 = 0;
    let mut i: usize = 0;
    while i < rows.len()
        invariant
            i <= rows.len(),
            type_sums_fit(rows@, "asset"@),
            type_sums_fit(rows@, "liability"@),
            assets == type_sum(rows@.take(i as int), "asset"@),
            liabilities == type_sum(rows@.take(i as int), "liability"@),
        decreases rows.len() - i,
    {
        let ghost next = rows@.take(i as int + 1);
        assert(next.drop_last() == rows@.take(i as int));
        assert(next.last() == rows@[i as int]);
        assert(i64::MIN <= type_sum(next, "asset"@) <= i64::MAX);
        assert(i64::MIN <= type_sum(next, "liability"@) <= i64::MAX);
        proof {
            reveal_strlit("asset");
            reveal_strlit("liability");
            assert("asset"@.len() == 5);
            assert("asset"@ != "liability"@);
        }
        let (ty, amount) = (&rows[i].0, rows[i].1);
        if is_text(ty, "asset") {
            assets = assets + amount;
        } else if is_text(ty, "liability") {
            liabilities = liabilities + amount;
        }
        i += 1;
    }
    assert(rows@.take(rows.len() as int) == rows@);
    BalanceTotals { assets, liabilities, net_worth: assets + liabilities }
}

/// The word shown for an account type in the balance sheet.
pub fn type_label(account_type: &String) -> (s: String)
    ensures
        s@ == (if account_type@ == "asset"@ {
            "Asset"@
        } else if account_type@ == "liability"@ {
            "Liability"@
        } else {
            account_type@
        }),
{
    if is_text(account_type, "asset") {
        String::from_str("Asset")
    } else if is_text(account_type, "liability") {
        String::from_str("Liability")
    } else {
        account_type.clone()
    }
}

/// The amount of the last row of type `ty`, if any.
pub open spec fn last_of_type(rows: Seq<(String, i64)>, ty: Seq<char>) -> Option<i64>
    decreases rows.len(),
{
    if rows.len() == 0 {
        None
    } else if rows.last().0@ == ty {
        Some(rows.last().1)
    } else {
        last_of_type(rows.drop_last(), ty)
    }
}

/// Income of a period: the income accounts carry it as a negative amount.
pub open spec fn income_of(rows: Seq<(String, i64)>) -> int {
    match last_of_type(rows, "income"@) {
        Some(v) => -v,
        None => 0,
    }
}

/// Expenses of a period.
pub open spec fn expense_of(rows: Seq<(String, i64)>) -> int {
    match last_of_type(rows, "expense"@) {
        Some(v) => v as int,
        None => 0,
    }
}

/// The totals of an income statement.
pub struct CashflowSummary {
    pub income: i64,
    pub expense: i64,
    /// Income minus expenses.
    pub savings: i64,
}

/// The income statement of a period from the totals per account type
/// (`income` and `expense`; other rows are ignored).
pub fn cashflow_summary(rows: &Vec<(String, i64)>) -> (s: CashflowSummary)
    requires
        forall|i: int|
            0 <= i < rows@.len() && (#[trigger] rows@[i]).0@ == "income"@ ==> rows@[i].1
                > i64::MIN,
        i64::MIN <= income_of(rows@) - expense_of(rows@) <= i64::MAX,
    ensures
        s.income == income_of(rows@),
        s.expense == expense_of(rows@),
        s.savings == s.income - s.expense,
{
    let mut income: i64 = 0;
    let mut expense: i64 = 0;
    let mut i: usize = 0;
    while i < rows.len()
        invariant
            i <= rows.len(),
            forall|j: int|
                0 <= j < rows@.len() && (#[trigger] rows@[j]).0@ == "income"@ ==> rows@[j].1
                    > i64::MIN,
            income == income_of(rows@.take(i as int)),
            expense == expense_of(rows@.take(i as int)),
        decreases rows.len() - i,
    {
        let ghost next = rows@.take(i as int + 1);
        assert(next.drop_last() == rows@.take(i as int));
        assert(next.last() == rows@[i as int]);
        proof {
            reveal_strlit("income");
            reveal_strlit("expense");
            assert("income"@.len() == 6);
            assert("income"@ != "expense"@);
        }
        let total = rows[i].1;
        if is_text(&rows[i].0, "income") {
            income = -total;
        } else if is_text(&rows[i].0, "expense") {
            expense = total;
        }
        i += 1;
    }
    assert(rows@.take(rows.len() as int) == rows@);
    CashflowSummary { income, expense, savings: income - expense }
}

/// What the income statement says about the savings rate.
#[derive(Clone, Copy, Debug, PartialEq, Eq, Structural)]
pub enum SavingsNote {
    /// There is income: the savings rate is shown.
    Rate,
    /// There are expenses but no income.
    NoIncome,
    /// There is neither.
    Empty,
}

/// The note of an income statement.
pub fn savings_note(s: &CashflowSummary) -> (n: SavingsNote)
    ensures
        n == (if s.income > 0 {
            SavingsNote::Rate
        } else if s.expense > 0 {
            SavingsNote::NoIncome
        } else {
            SavingsNote::Empty
        }),
{
    if s.income > 0 {
        SavingsNote::Rate
    } else if s.expense > 0 {
        SavingsNote::NoIncome
    } else {
        SavingsNote::Empty
    }
}

/// The sum of amounts.
pub open spec fn amounts_sum(s: Seq<i64>) -> int
    decreases s.len(),
{
    if s.len() == 0 {
        0
    } else {
        amounts_sum(s.drop_last()) + s.last()
    }
}

/// The total of the expenses of all categories.
pub fn expense_total(totals: &Vec<i64>) -> (t: i64)
    requires
        forall|k: int|
            0 <= k <= totals@.len() ==> i64::MIN <= #[trigger] amounts_sum(totals@.take(k))
                <= i64::MAX,
    ensures
        t == amounts_sum(totals@),
{
    let mut t: i64 = 0;
    let mut i: usize = 0;
    while i < totals.len()
        invariant
            i <= totals.len(),
            forall|k: int|
                0 <= k <= totals@.len() ==> i64::MIN <= #[trigger] amounts_sum(totals@.take(k))
                    <= i64::MAX,
            t == amounts_sum(totals@.take(i as int)),
        decreases totals.len() - i,
    {
        let ghost next = totals@.take(i as int + 1);
        assert(next.drop_last() == totals@.take(i as int));
        assert(i64::MIN <= amounts_sum(next) <= i64::MAX);
        t = t + totals[i];
        i += 1;
    }
    assert(totals@.take(totals.len() as int) == totals@);
    t
}

/// How a category's spending compares with its budget.
#[derive(Clone, Copy, Debug, PartialEq, Eq, Structural)]
pub enum BudgetStatus {
    NoBudget,
    WithinBudget,
    OverBudget,
}

/// A category is over budget when it spent more than its limit.
pub fn budget_status(spent: i64, limit: Option<i64>) -> (s: BudgetStatus)
    ensures
        s == (match limit {
            None => BudgetStatus::NoBudget,
            Some(l) => if spent > l {
                BudgetStatus::OverBudget
            } else {
                BudgetStatus::WithinBudget
            },
        }),
{
    match limit {
        None => BudgetStatus::NoBudget,
        Some(l) => if spent > l {
            BudgetStatus::OverBudget
        } else {
            BudgetStatus::WithinBudget
        },
    }
}

/// A month of the historical report.
pub struct HistoryRow {
    pub month: String,
    pub income: i64,
    pub expense: i64,
    /// Income minus expenses.
    pub savings: i64,
}

/// The months of the historical report, oldest first, from rows that come
/// newest first as `(month, income, expenses)`.
pub fn history_rows(rows: &Vec<(String, i64, i64)>) -> (r: Vec<HistoryRow>)
    requires
        forall|i: int|
            0 <= i < rows@.len() ==> i64::MIN <= (#[trigger] rows@[i]).1 - rows@[i].2
                <= i64::MAX,
    ensures
        r@.len() == rows@.len(),
        forall|i: int|
            0 <= i < r@.len() ==> {
                let src = rows@[rows@.len() - 1 - i];
                &&& (#[trigger] r@[i]).month@ == src.0@
                &&& r@[i].income == src.1
                &&& r@[i].expense == src.2
                &&& r@[i].savings == src.1 - src.2
            },
{
    let mut r: Vec<HistoryRow> = Vec::new();
    let mut i: usize = rows.len();
    while i > 0
        invariant
            i <= rows.len(),
            forall|j: int|
                0 <= j < rows@.len() ==> i64::MIN <= (#[trigger] rows@[j]).1 - rows@[j].2
                    <= i64::MAX,
            r@.len() == rows@.len() - i,
            forall|k: int|
                0 <= k < r@.len() ==> {
                    let src = rows@[rows@.len() - 1 - k];
                    &&& (#[trigger] r@[k]).month@ == src.0@
                    &&& r@[k].income == src.1
                    &&& r@[k].expense == src.2
                    &&& r@[k].savings == src.1 - src.2
                },
        decreases i,
    {
        i -= 1;
        let row = &rows[i];
        assert(i64::MIN <= rows@[i as int].1 - rows@[i as int].2 <= i64::MAX);
        r.push(
            HistoryRow {
                month: row.0.clone(),
                income: row.1,
                expense: row.2,
                savings: row.1 - row.2,
            },
        );
    }
    r
}

/// The sum of the limits of the rows in currency `c`, among
/// `(currency, limit)` rows.
pub open spec fn currency_sum(rows: Seq<(String, i64)>, c: Seq<char>) -> int
    decreases rows.len(),
{
    if rows.len() == 0 {
        0
    } else {
        currency_sum(rows.drop_last(), c) + (if rows.last().0@ == c {
            rows.last().1 as int
        } else {
            0
        })
    }
}

/// Each total is the sum of the limits in its currency.
pub open spec fn totals_match(rows: Seq<(String, i64)>, r: Seq<(String, i64)>) -> bool {
    forall|i: int| 0 <= i < r.len() ==> (#[trigger] r[i]).1 == currency_sum(rows, r[i].0@)
}

/// No currency has two totals.
pub open spec fn totals_distinct(r: Seq<(String, i64)>) -> bool {
    forall|i: int, j: int| 0 <= i < j < r.len() ==> (#[trigger] r[i]).0@ != (#[trigger] r[j]).0@
}

/// Every currency of the rows has a total.
pub open spec fn rows_covered(rows: Seq<(String, i64)>, r: Seq<(String, i64)>) -> bool {
    forall|k: int|
        0 <= k < rows.len() ==> exists|i: int| 0 <= i < r.len() && (#[trigger] r[i]).0@ == (
        #[trigger] rows[k]).0@
}

/// Every total is of a currency of the rows.
pub open spec fn totals_from_rows(rows: Seq<(String, i64)>, r: Seq<(String, i64)>) -> bool {
    forall|i: int|
        0 <= i < r.len() ==> exists|k: int| 0 <= k < rows.len() && (#[trigger] rows[k]).0@ == (
        #[trigger] r[i]).0@
}

/// The totals per currency: one per currency that occurs, each the sum of
/// the limits in that currency.
pub open spec fn totals_by_currency(rows: Seq<(String, i64)>, r: Seq<(String, i64)>) -> bool {
    &&& totals_match(rows, r)
    &&& totals_distinct(r)
    &&& rows_covered(rows, r)
    &&& totals_from_rows(rows, r)
}

/// Every running total of every currency fits in an `i64`.
pub open spec fn currency_sums_fit(rows: Seq<(String, i64)>) -> bool {
    forall|k: int, c: Seq<char>|
        0 <= k <= rows.len() ==> i64::MIN <= #[trigger] currency_sum(rows.take(k), c) <= i64::MAX
}

/// The total of the budget limits in each currency.
#[verifier::rlimit(60)]
pub fn budget_totals(rows: &Vec<(String, i64)>) -> (r: Vec<(String, i64)>)
    requires
        currency_sums_fit(rows@),
    ensures
        totals_by_currency(rows@, r@),
{
    let mut r: Vec<(String, i64)> = Vec::new();
    let mut k: usize = 0;
    while k < rows.len()
        invariant
            k <= rows.len(),
            currency_sums_fit(rows@),
            totals_by_currency(rows@.take(k as int), r@),
        decreases rows.len() - k,
    {
        let ghost prefix = rows@.take(k as int);
        let ghost next = rows@.take(k as int + 1);
        assert(next.drop_last() == prefix);
        assert(next.last() == rows@[k as int]);
        let c = &rows[k].0;
        let v = rows[k].1;
        let mut j: usize = 0;
        let mut found = false;
        while j < r.len() && !found
            invariant
                j <= r.len(),
                !found ==> forall|m: int| 0 <= m < j ==> (#[trigger] r@[m]).0@ != c@,
                found ==> j < r.len() && r@[j as int].0@ == c@,
            decreases r.len() - j + (if found {
                0int
            } else {
                1int
            }),
        {
            if r[j].0 == *c {
                found = true;
            } else {
                j += 1;
            }
        }
        proof {
            assert(next == prefix.push(rows@[k as int]));
            lemma_currency_sum_push(prefix, rows@[k as int], c@);
            assert(i64::MIN <= currency_sum(next, c@) <= i64::MAX);
        }
        let ghost old_r = r@;
        if found {
            let total = r[j].1 + v;
            let name = r[j].0.clone();
            r.set(j, (name, total));
            proof {
                lemma_totals_found(prefix, rows@[k as int], old_r, r@, j as int);
            }
        } else {
            r.push((c.clone(), v));
            proof {
                assert(r@ == old_r.push(rows@[k as int]));
                lemma_totals_new(prefix, rows@[k as int], old_r, r@);
            }
        }
        k += 1;
    }
    assert(rows@.take(rows.len() as int) == rows@);
    r
}

proof fn lemma_currency_sum_push(p: Seq<(String, i64)>, row: (String, i64), d: Seq<char>)
    ensures
        currency_sum(p.push(row), d) == currency_sum(p, d) + (if row.0@ == d {
            row.1 as int
        } else {
            0
        }),
{
    assert(p.push(row).drop_last() == p);
}

proof fn lemma_totals_found(
    p: Seq<(String, i64)>,
    row: (String, i64),
    old_r: Seq<(String, i64)>,
    new_r: Seq<(String, i64)>,
    j: int,
)
    requires
        totals_by_currency(p, old_r),
        0 <= j < old_r.len(),
        old_r[j].0@ == row.0@,
        new_r.len() == old_r.len(),
        new_r[j].0 == old_r[j].0,
        new_r[j].1 == old_r[j].1 + row.1,
        forall|i: int| 0 <= i < new_r.len() && i != j ==> new_r[i] == old_r[i],
    ensures
        totals_by_currency(p.push(row), new_r),
{
    lemma_found_match(p, row, old_r, new_r, j);
    lemma_found_distinct(old_r, new_r, j);
    lemma_found_covered(p, row, old_r, new_r, j);
    lemma_found_from_rows(p, row, old_r, new_r, j);
}

proof fn lemma_found_match(
    p: Seq<(String, i64)>,
    row: (String, i64),
    old_r: Seq<(String, i64)>,
    new_r: Seq<(String, i64)>,
    j: int,
)
    requires
        totals_match(p, old_r),
        totals_distinct(old_r),
        0 <= j < old_r.len(),
        old_r[j].0@ == row.0@,
        new_r.len() == old_r.len(),
        new_r[j].0 == old_r[j].0,
        new_r[j].1 == old_r[j].1 + row.1,
        forall|i: int| 0 <= i < new_r.len() && i != j ==> new_r[i] == old_r[i],
    ensures
        totals_match(p.push(row), new_r),
{
    assert forall|i: int| 0 <= i < new_r.len() implies (#[trigger] new_r[i]).1 == currency_sum(
        p.push(row),
        new_r[i].0@,
    ) by {
        lemma_currency_sum_push(p, row, new_r[i].0@);
        if i != j {
            assert(new_r[i] == old_r[i]);
            if i < j {
                assert(old_r[i].0@ != old_r[j].0@);
            } else {
                assert(old_r[j].0@ != old_r[i].0@);
            }
        }
    }
}

proof fn lemma_found_distinct(old_r: Seq<(String, i64)>, new_r: Seq<(String, i64)>, j: int)
    requires
        totals_distinct(old_r),
        0 <= j < old_r.len(),
        new_r.len() == old_r.len(),
        new_r[j].0 == old_r[j].0,
        forall|i: int| 0 <= i < new_r.len() && i != j ==> new_r[i] == old_r[i],
    ensures
        totals_distinct(new_r),
{
    assert forall|a: int, b: int| 0 <= a < b < new_r.len() implies (#[trigger] new_r[a]).0@
        != (#[trigger] new_r[b]).0@ by {
        assert(new_r[a].0 == old_r[a].0);
        assert(new_r[b].0 == old_r[b].0);
        assert(old_r[a].0@ != old_r[b].0@);
    }
}

proof fn lemma_found_covered(
    p: Seq<(String, i64)>,
    row: (String, i64),
    old_r: Seq<(String, i64)>,
    new_r: Seq<(String, i64)>,
    j: int,
)
    requires
        rows_covered(p, old_r),
        0 <= j < old_r.len(),
        old_r[j].0@ == row.0@,
        new_r.len() == old_r.len(),
        new_r[j].0 == old_r[j].0,
        forall|i: int| 0 <= i < new_r.len() && i != j ==> new_r[i] == old_r[i],
    ensures
        rows_covered(p.push(row), new_r),
{
    let n = p.push(row);
    assert forall|m: int| 0 <= m < n.len() implies exists|i: int|
        0 <= i < new_r.len() && (#[trigger] new_r[i]).0@ == (#[trigger] n[m]).0@ by {
        if m < p.len() {
            assert(n[m] == p[m]);
            let i = choose|i: int| 0 <= i < old_r.len() && (#[trigger] old_r[i]).0@ == p[m].0@;
            assert(new_r[i].0 == old_r[i].0);
            assert(new_r[i].0@ == n[m].0@);
        } else {
            assert(new_r[j].0@ == n[m].0@);
        }
    }
}

proof fn lemma_found_from_rows(
    p: Seq<(String, i64)>,
    row: (String, i64),
    old_r: Seq<(String, i64)>,
    new_r: Seq<(String, i64)>,
    j: int,
)
    requires
        totals_from_rows(p, old_r),
        0 <= j < old_r.len(),
        new_r.len() == old_r.len(),
        new_r[j].0 == old_r[j].0,
        forall|i: int| 0 <= i < new_r.len() && i != j ==> new_r[i] == old_r[i],
    ensures
        totals_from_rows(p.push(row), new_r),
{
    let n = p.push(row);
    assert forall|i: int| 0 <= i < new_r.len() implies exists|m: int|
        0 <= m < n.len() && (#[trigger] n[m]).0@ == (#[trigger] new_r[i]).0@ by {
        let m = choose|m: int| 0 <= m < p.len() && (#[trigger] p[m]).0@ == old_r[i].0@;
        assert(n[m] == p[m]);
        assert(new_r[i].0 == old_r[i].0);
        assert(n[m].0@ == new_r[i].0@);
    }
}

proof fn lemma_totals_new(
    p: Seq<(String, i64)>,
    row: (String, i64),
    old_r: Seq<(String, i64)>,
    new_r: Seq<(String, i64)>,
)
    requires
        totals_by_currency(p, old_r),
        forall|m: int| 0 <= m < old_r.len() ==> (#[trigger] old_r[m]).0@ != row.0@,
        new_r == old_r.push(row),
    ensures
        totals_by_currency(p.push(row), new_r),
{
    assert forall|k: int| 0 <= k < p.len() implies (#[trigger] p[k]).0@ != row.0@ by {
        let i = choose|i: int| 0 <= i < old_r.len() && (#[trigger] old_r[i]).0@ == p[k].0@;
        assert(old_r[i].0@ != row.0@);
    }
    lemma_absent_currency(p, row.0@);
    lemma_new_match(p, row, old_r, new_r);
    lemma_new_distinct(row, old_r, new_r);
    lemma_new_covered(p, row, old_r, new_r);
    lemma_new_from_rows(p, row, old_r, new_r);
}

proof fn lemma_new_match(
    p: Seq<(String, i64)>,
    row: (String, i64),
    old_r: Seq<(String, i64)>,
    new_r: Seq<(String, i64)>,
)
    requires
        totals_match(p, old_r),
        currency_sum(p, row.0@) == 0,
        forall|m: int| 0 <= m < old_r.len() ==> (#[trigger] old_r[m]).0@ != row.0@,
        new_r == old_r.push(row),
    ensures
        totals_match(p.push(row), new_r),
{
    assert forall|i: int| 0 <= i < new_r.len() implies (#[trigger] new_r[i]).1 == currency_sum(
        p.push(row),
        new_r[i].0@,
    ) by {
        lemma_currency_sum_push(p, row, new_r[i].0@);
        if i < old_r.len() {
            assert(new_r[i] == old_r[i]);
        }
    }
}

proof fn lemma_new_distinct(row: (String, i64), old_r: Seq<(String, i64)>, new_r: Seq<(String, i64)>)
    requires
        totals_distinct(old_r),
        forall|m: int| 0 <= m < old_r.len() ==> (#[trigger] old_r[m]).0@ != row.0@,
        new_r == old_r.push(row),
    ensures
        totals_distinct(new_r),
{
    assert forall|a: int, b: int| 0 <= a < b < new_r.len() implies (#[trigger] new_r[a]).0@
        != (#[trigger] new_r[b]).0@ by {
        assert(new_r[a] == old_r[a]);
        if b < old_r.len() {
            assert(new_r[b] == old_r[b]);
        }
    }
}

proof fn lemma_new_covered(
    p: Seq<(String, i64)>,
    row: (String, i64),
    old_r: Seq<(String, i64)>,
    new_r: Seq<(String, i64)>,
)
    requires
        rows_covered(p, old_r),
        new_r.len() == old_r.len() + 1,
        new_r[old_r.len() as int] == row,
        forall|i: int| 0 <= i < old_r.len() ==> new_r[i] == old_r[i],
    ensures
        rows_covered(p.push(row), new_r),
{
    let n = p.push(row);
    assert forall|m: int| 0 <= m < n.len() implies exists|i: int|
        0 <= i < new_r.len() && (#[trigger] new_r[i]).0@ == (#[trigger] n[m]).0@ by {
        if m < p.len() {
            assert(n[m] == p[m]);
            let i = choose|i: int| 0 <= i < old_r.len() && (#[trigger] old_r[i]).0@ == p[m].0@;
            assert(new_r[i] == old_r[i]);
            assert(new_r[i].0@ == n[m].0@);
        } else {
            let l = old_r.len() as int;
            assert(new_r[l] == n[m]);
            assert(new_r[l].0@ == n[m].0@);
        }
    }
}

proof fn lemma_new_from_rows(
    p: Seq<(String, i64)>,
    row: (String, i64),
    old_r: Seq<(String, i64)>,
    new_r: Seq<(String, i64)>,
)
    requires
        totals_from_rows(p, old_r),
        new_r.len() == old_r.len() + 1,
        new_r[old_r.len() as int] == row,
        forall|i: int| 0 <= i < old_r.len() ==> new_r[i] == old_r[i],
    ensures
        totals_from_rows(p.push(row), new_r),
{
    let n = p.push(row);
    assert forall|i: int| 0 <= i < new_r.len() implies exists|m: int|
        0 <= m < n.len() && (#[trigger] n[m]).0@ == (#[trigger] new_r[i]).0@ by {
        if i < old_r.len() {
            assert(new_r[i] == old_r[i]);
            let m = choose|m: int| 0 <= m < p.len() && (#[trigger] p[m]).0@ == old_r[i].0@;
            assert(n[m] == p[m]);
            assert(n[m].0@ == new_r[i].0@);
        } else {
            let m = p.len() as int;
            assert(n[m] == new_r[i]);
            assert(n[m].0@ == new_r[i].0@);
        }
    }
}

/// A currency that no row has sums to zero.
proof fn lemma_absent_currency(rows: Seq<(String, i64)>, c: Seq<char>)
    requires
        forall|k: int| 0 <= k < rows.len() ==> (#[trigger] rows[k]).0@ != c,
    ensures
        currency_sum(rows, c) == 0,
    decreases rows.len(),
{
    if rows.len() > 0 {
        let p = rows.drop_last();
        assert forall|k: int| 0 <= k < p.len() implies (#[trigger] p[k]).0@ != c by {
            assert(p[k] == rows[k]);
        }
        lemma_absent_currency(p, c);
    }
}

} // verus!
