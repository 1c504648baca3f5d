use mango::accounts::{check_account_delete, check_budget, new_account, normalize_currency, plan_account_update};
use mango::commands::{
    adjustment_amount, check_adjustable, check_asset, check_deleted, check_liability, check_same_currency,
    check_transfer_amount, plan_adjustment, plan_delete, plan_edit, plan_payment, plan_transfer, statement_period,
    transfer_method, DeleteTarget, TransferMethod,
};
use mango::error::MangoError;
use mango::transactions::{plan_expense, plan_income, transaction_date};

fn s(x: &str) -> String {
    x.to_string()
}

#[test]
fn expenses_and_incomes() {
    let t = plan_expense(1500, &s("Bank"), &s("Food"), s("Lunch"), Some(s("2026-05-25"))).unwrap();
    assert_eq!(t.date, "2026-05-25");
    assert_eq!(t.description, "Lunch");
    assert_eq!((t.entries[0].account_name.as_str(), t.entries[0].amount_native), ("Bank", -1500));
    assert_eq!((t.entries[1].account_name.as_str(), t.entries[1].amount_native), ("Food", 1500));
    assert!(t.parent_group_id.is_none());
    assert!(matches!(plan_expense(0, &s("Bank"), &s("Food"), s("x"), None), Err(MangoError::ExpenseNotPositive)));
    assert!(matches!(
        plan_expense(10, &s("Bank"), &s("Food"), s("x"), Some(s("2026/05/25"))),
        Err(MangoError::InvalidDateFormat)
    ));
    let t = plan_income(300000, &s("Bank"), &s("Salary"), s("June"), None).unwrap();
    assert_eq!(t.entries[0].amount_native, 300000);
    assert_eq!(t.entries[1].amount_native, -300000);
    assert_eq!(t.date.len(), 10);
    assert!(matches!(plan_income(-5, &s("Bank"), &s("Salary"), s("x"), None), Err(MangoError::IncomeNotPositive)));
    assert!(matches!(transaction_date(Some(s("2026-13-01"))), Err(MangoError::InvalidDateFormat)));
}

#[test]
fn paying_a_statement() {
    assert!(check_liability(&s("Card"), &s("liability")).is_ok());
    assert!(matches!(check_liability(&s("Bank"), &s("asset")), Err(MangoError::NotLiability(n)) if n == "Bank"));
    assert!(check_asset(&s("Bank"), &s("asset")).is_ok());
    assert!(matches!(check_asset(&s("Card"), &s("liability")), Err(MangoError::NotAsset(_))));
    assert!(check_same_currency(&s("USD"), &s("USD")).is_ok());
    assert!(matches!(check_same_currency(&s("USD"), &s("ARS")), Err(MangoError::CrossCurrencyPayment)));
    assert_eq!(statement_period(5, 2026).unwrap(), (s("2026-05-01"), s("2026-05-31")));
    assert!(matches!(statement_period(13, 2026), Err(MangoError::MonthOutOfRange)));
    assert!(plan_payment(&s("Card"), &s("Bank"), 5, 2026, 0, None).is_none());
    let t = plan_payment(&s("Card"), &s("Bank"), 5, 2026, -110000, Some(s("2026-05-25"))).unwrap();
    assert_eq!(t.description, "Payment for Card statement 5/2026");
    assert_eq!(t.date, "2026-05-25");
    assert_eq!((t.entries[0].account_name.as_str(), t.entries[0].amount_native), ("Bank", -110000));
    assert_eq!((t.entries[1].account_name.as_str(), t.entries[1].amount_native), ("Card", 110000));
}

#[test]
fn adjusting_a_balance() {
    assert!(check_adjustable(&s("Stocks"), &s("asset")).is_ok());
    assert!(matches!(check_adjustable(&s("Food"), &s("expense")), Err(MangoError::AdjustNonAsset(_))));
    let a = adjustment_amount(10000, 15000).unwrap();
    assert_eq!(a, 5000);
    assert_eq!(10000 + a, 15000);
    assert_eq!(adjustment_amount(15000, 15000), None);
    assert_eq!(adjustment_amount(15000, -2500), Some(-17500));
    let t = plan_adjustment(&s("Stocks"), a, None, &s("ARS"), &s("ARS"), None).unwrap();
    assert_eq!(t.description, "Balance adjustment for account 'Stocks'");
    assert_eq!((t.entries[0].account_name.as_str(), t.entries[0].amount_native), ("Stocks", 5000));
    assert_eq!((t.entries[1].account_name.as_str(), t.entries[1].amount_native), ("Equity Adjustments", -5000));
    let t = plan_adjustment(&s("Savings"), -500, Some(s("Revalue")), &s("USD"), &s("ARS"), Some(-750000)).unwrap();
    assert_eq!(t.description, "Revalue");
    assert!(t.entries[0].has_rate);
    assert_eq!(t.entries[1].amount_native, 750000);
    assert!(matches!(plan_adjustment(&s("Savings"), -500, None, &s("USD"), &s("ARS"), None), Err(MangoError::AdjustNeedsRate)));
}

#[test]
fn transfers() {
    assert!(matches!(check_transfer_amount(0), Err(MangoError::TransferNotPositive)));
    assert!(check_transfer_amount(1).is_ok());
    let (usd, ars) = (s("USD"), s("ARS"));
    assert_eq!(transfer_method(&usd, &usd, &ars, false, false).unwrap(), TransferMethod::SameCurrency);
    assert_eq!(transfer_method(&ars, &usd, &ars, true, true).unwrap(), TransferMethod::CostFromBase);
    assert_eq!(transfer_method(&usd, &ars, &ars, true, false).unwrap(), TransferMethod::CostToBase);
    assert_eq!(transfer_method(&ars, &usd, &ars, false, true).unwrap(), TransferMethod::RateFromBase);
    assert_eq!(transfer_method(&usd, &ars, &ars, false, true).unwrap(), TransferMethod::RateToBase);
    assert!(matches!(transfer_method(&usd, &s("EUR"), &ars, false, true), Err(MangoError::TransferOutsideBase)));
    assert!(matches!(transfer_method(&usd, &ars, &ars, false, false), Err(MangoError::TransferNeedsRate)));
    let t = plan_transfer(&s("Bank"), &s("Savings"), s("Dollars"), s("2026-05-25"), 10000000, 6897);
    assert_eq!(t.entries[0].amount_native, -10000000);
    assert_eq!(t.entries[1].amount_native, 6897);
    assert!(t.entries[0].has_rate && t.entries[1].has_rate);
}

#[test]
fn editing_and_deleting() {
    assert!(matches!(plan_edit(3, None, None, None, true, &vec![]), Err(MangoError::NothingToEdit)));
    assert!(matches!(plan_edit(3, Some(s("x")), None, None, false, &vec![]), Err(MangoError::EditTargetMissing(3))));
    assert!(matches!(plan_edit(3, None, None, Some(s("bad")), true, &vec![]), Err(MangoError::InvalidDateFormat)));
    assert!(matches!(plan_edit(3, None, Some(0), None, true, &vec![(1, 5), (2, -5)]), Err(MangoError::EditAmountNotPositive)));
    assert!(matches!(plan_edit(3, None, Some(7), None, true, &vec![(1, 5), (2, -3), (3, -2)]), Err(MangoError::ComplexTransaction)));
    let p = plan_edit(3, Some(s("New")), Some(700), Some(s("2026-01-02")), true, &vec![(1, -500), (2, 500)]).unwrap();
    assert_eq!(p.description.as_deref(), Some("New"));
    assert_eq!(p.date.as_deref(), Some("2026-01-02"));
    assert_eq!(p.amounts, vec![(1, -700), (2, 700)]);
    assert!(matches!(plan_delete(9, false, None), Err(MangoError::TransactionNotFound(9))));
    assert!(matches!(plan_delete(9, true, None), Ok(DeleteTarget::Single(9))));
    assert!(matches!(plan_delete(9, true, Some(s("g"))), Ok(DeleteTarget::Group(g)) if g == "g"));
    assert!(check_deleted(9, 2).is_ok());
    assert!(matches!(check_deleted(9, 0), Err(MangoError::TransactionNotFound(9))));
}

#[test]
fn accounts_and_budgets() {
    let a = new_account(s("Banco"), &s("Asset"), &s("ars")).unwrap();
    assert_eq!((a.name.as_str(), a.account_type.as_str(), a.currency.as_str()), ("Banco", "asset", "ARS"));
    assert!(matches!(new_account(s("X"), &s("savings"), &s("usd")), Err(MangoError::InvalidAccountType(t)) if t == "savings"));
    assert_eq!(normalize_currency(&s("eur")), "EUR");
    assert!(matches!(plan_account_update(&s("Old"), None, None, true), Err(MangoError::NothingToUpdate)));
    assert!(matches!(plan_account_update(&s("Old"), Some(s("New")), None, false), Err(MangoError::AccountNotFound(_))));
    let u = plan_account_update(&s("Old"), Some(s("New")), Some(s("usd")), true).unwrap();
    assert_eq!(u.rename.as_deref(), Some("New"));
    assert_eq!(u.currency.as_deref(), Some("USD"));
    assert_eq!(u.target, "New");
    let u = plan_account_update(&s("Old"), None, Some(s("usd")), true).unwrap();
    assert_eq!(u.target, "Old");
    assert!(check_account_delete(&s("Cash"), 0).is_ok());
    assert!(matches!(check_account_delete(&s("Cash"), 2), Err(MangoError::AccountInUse { count: 2, .. })));
    assert!(check_budget(&s("Food"), &s("expense"), 100).is_ok());
    assert!(matches!(check_budget(&s("Food"), &s("expense"), 0), Err(MangoError::BudgetNotPositive)));
    assert!(matches!(check_budget(&s("Bank"), &s("asset"), 100), Err(MangoError::BudgetNotExpense { .. })));
}

#[test]
fn adjusting_twice_to_the_same_balance_needs_nothing() {
    let current: i64 = 12345;
    let target: i64 = 20000;
    let a = adjustment_amount(current, target).unwrap();
    let t = plan_adjustment(&s("Wallet"), a, None, &s("USD"), &s("USD"), None).unwrap();
    let moved: i64 = t.entries.iter().filter(|e| e.account_name == "Wallet").map(|e| e.amount_native).sum();
    assert_eq!(current + moved, target);
    assert_eq!(adjustment_amount(current + moved, target), None);
}

#[test]
fn amount_edit_keeps_two_entries_balanced() {
    let old = vec![(7, -2500), (8, 2500)];
    let plan = plan_edit(3, None, Some(4000), None, true, &old).unwrap();
    assert_eq!(plan.amounts, vec![(7, -4000), (8, 4000)]);
    assert_eq!(plan.amounts[0].1 + plan.amounts[1].1, 0);
}

#[test]
fn undated_expense_and_income_are_dated_today() {
    let today = mango::dates::format_date(mango::dates::today());
    let t = plan_expense(1500, &s("Bank"), &s("Food"), s("Lunch"), None).unwrap();
    assert_eq!(t.date, today);
    assert_eq!(t.date.len(), 10);
    let t = plan_income(1500, &s("Bank"), &s("Salary"), s("Pay"), None).unwrap();
    assert_eq!(t.date, today);
}
