use mango::error::MangoError;
use mango::ledger::{check_initialized, check_stored_sum, currency_or_default, prepare_entries, ResolvedEntry};

fn entry(name: &str, id: Option<i64>, currency: &str, amount: i64, rate_base: Option<i64>) -> ResolvedEntry {
    ResolvedEntry {
        account_name: name.to_string(),
        account_id: id,
        currency: currency.to_string(),
        amount_native: amount,
        rate_base,
    }
}

#[test]
fn balanced_entries_are_accepted() {
    let base = "USD".to_string();
    let entries = vec![entry("Cash", Some(1), "USD", -1000, None), entry("Groceries", Some(2), "USD", 1000, None)];
    let prepared = prepare_entries(&base, &entries).unwrap();
    assert_eq!(prepared.len(), 2);
    assert_eq!(prepared[0].account_id, 1);
    assert_eq!(prepared[0].amount_base, -1000);
    assert!(!prepared[0].uses_rate);
    assert_eq!(prepared[1].amount_base, 1000);
}

#[test]
fn unbalanced_entries_are_rejected() {
    let base = "USD".to_string();
    let entries = vec![entry("Cash", Some(1), "USD", -1000, None), entry("Groceries", Some(2), "USD", 999, None)];
    assert!(matches!(prepare_entries(&base, &entries), Err(MangoError::Unbalanced(-1))));
}

#[test]
fn foreign_entries_use_their_converted_amount() {
    let base = "ARS".to_string();
    let entries = vec![entry("Bank", Some(1), "ARS", -145000, None), entry("Savings", Some(2), "USD", 100, Some(145000))];
    let prepared = prepare_entries(&base, &entries).unwrap();
    assert_eq!(prepared[1].amount_native, 100);
    assert_eq!(prepared[1].amount_base, 145000);
    assert!(prepared[1].uses_rate);
}

#[test]
fn missing_accounts_and_rates_are_reported_in_order() {
    let base = "ARS".to_string();
    let entries = vec![entry("Savings", Some(2), "USD", 100, None), entry("Nowhere", None, "ARS", -100, None)];
    match prepare_entries(&base, &entries) {
        Err(MangoError::MissingExchangeRate { account, currency, base_currency }) => {
            assert_eq!(account, "Savings");
            assert_eq!(currency, "USD");
            assert_eq!(base_currency, "ARS");
        }
        _ => panic!("expected a missing exchange rate"),
    }
    let entries = vec![entry("Nowhere", None, "ARS", -100, None), entry("Savings", Some(2), "USD", 100, None)];
    match prepare_entries(&base, &entries) {
        Err(MangoError::AccountNotFound(name)) => assert_eq!(name, "Nowhere"),
        _ => panic!("expected a missing account"),
    }
}

#[test]
fn stored_sums_and_defaults() {
    assert!(check_stored_sum(7, 0).is_ok());
    assert!(matches!(check_stored_sum(7, 3), Err(MangoError::StoredUnbalanced { transaction_id: 7, sum: 3 })));
    assert_eq!(currency_or_default(None), "USD");
    assert_eq!(currency_or_default(Some("EUR".to_string())), "EUR");
    assert!(check_initialized(true).is_ok());
    assert!(matches!(check_initialized(false), Err(MangoError::NotInitialized)));
}

#[test]
fn planned_expenses_pass_the_integrity_check() {
    let plan = mango::transactions::plan_expense(
        2599,
        &"Cash".to_string(),
        &"Groceries".to_string(),
        "Market".to_string(),
        Some("2026-05-25".to_string()),
    )
    .unwrap();
    let resolved: Vec<ResolvedEntry> = plan
        .entries
        .iter()
        .enumerate()
        .map(|(i, e)| entry(&e.account_name, Some(i as i64 + 1), "USD", e.amount_native, None))
        .collect();
    let prepared = prepare_entries(&"USD".to_string(), &resolved).unwrap();
    let sum: i64 = prepared.iter().map(|p| p.amount_base).sum();
    assert_eq!(sum, 0);
}

#[test]
fn running_sums_must_fit_until_the_first_problem() {
    let base = "USD".to_string();
    let big = vec![entry("A", Some(1), "USD", i64::MAX, None), entry("B", Some(2), "USD", 1, None)];
    assert!(!mango::ledger::entry_sums_fit(&base, &big));
    let stopped = vec![
        entry("A", Some(1), "USD", i64::MAX, None),
        entry("Nowhere", None, "USD", 1, None),
        entry("B", Some(2), "USD", 1, None),
    ];
    assert!(mango::ledger::entry_sums_fit(&base, &stopped));
    let fine = vec![entry("A", Some(1), "USD", 5, None), entry("B", Some(2), "USD", -5, None)];
    assert!(mango::ledger::entry_sums_fit(&base, &fine));
}
