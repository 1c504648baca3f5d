use mango::reports::{
    balance_totals, budget_status, budget_totals, cashflow_summary, expense_total, history_rows, savings_note,
    type_label, BudgetStatus, SavingsNote,
};
use mango::text::{csv_description, entry_detail, list_title, live_rate_pairs};

fn s(x: &str) -> String {
    x.to_string()
}

#[test]
fn balance_sheet_totals() {
    let rows = vec![(s("asset"), 500000), (s("asset"), 2500), (s("liability"), -120000)];
    let t = balance_totals(&rows);
    assert_eq!(t.assets, 502500);
    assert_eq!(t.liabilities, -120000);
    assert_eq!(t.net_worth, 382500);
    assert_eq!(type_label(&s("asset")), "Asset");
    assert_eq!(type_label(&s("liability")), "Liability");
    assert_eq!(type_label(&s("equity")), "equity");
}

#[test]
fn cash_flow() {
    let c = cashflow_summary(&vec![(s("expense"), 15000), (s("income"), -300000)]);
    assert_eq!((c.income, c.expense, c.savings), (300000, 15000, 285000));
    assert_eq!(savings_note(&c), SavingsNote::Rate);
    let c = cashflow_summary(&vec![(s("expense"), 15000)]);
    assert_eq!(c.savings, -15000);
    assert_eq!(savings_note(&c), SavingsNote::NoIncome);
    assert_eq!(savings_note(&cashflow_summary(&vec![])), SavingsNote::Empty);
}

#[test]
fn expense_distribution() {
    assert_eq!(expense_total(&vec![100, 250, 650]), 1000);
    assert_eq!(budget_status(100, None), BudgetStatus::NoBudget);
    assert_eq!(budget_status(100, Some(100)), BudgetStatus::WithinBudget);
    assert_eq!(budget_status(101, Some(100)), BudgetStatus::OverBudget);
}

#[test]
fn history_is_oldest_first() {
    let rows = history_rows(&vec![(s("2026-05"), 1000, 400), (s("2026-04"), 900, 1000)]);
    assert_eq!(rows[0].month, "2026-04");
    assert_eq!(rows[0].savings, -100);
    assert_eq!(rows[1].month, "2026-05");
    assert_eq!(rows[1].savings, 600);
}

#[test]
fn budget_totals_per_currency() {
    let totals = budget_totals(&vec![(s("USD"), 100), (s("ARS"), 5000), (s("USD"), 250)]);
    assert_eq!(totals, vec![(s("USD"), 350), (s("ARS"), 5000)]);
}

#[test]
fn texts() {
    assert_eq!(entry_detail(&s("Bank"), -150050, &s("ARS")), "Bank: -$1.500,50 ARS");
    assert_eq!(csv_description(s("Rent, June")), "\"Rent, June\"");
    assert_eq!(csv_description(s("Rent")), "Rent");
    assert_eq!(list_title(20, None, None), "\n=== RECENT TRANSACTIONS (Last 20) ===");
    assert_eq!(list_title(20, Some(5), Some(2026)), "\n=== TRANSACTIONS (Month: 5, Year: 2026) ===");
    assert_eq!(list_title(20, None, Some(2025)), "\n=== TRANSACTIONS (Year: 2025) ===");
}

#[test]
fn live_rates() {
    let pairs = live_rate_pairs(&s("usd:1500, EUR : 1600,bad,x:y:z"));
    assert_eq!(pairs, vec![(s("USD"), s("1500")), (s("EUR"), s("1600"))]);
    assert_eq!(live_rate_pairs(&s("")), vec![]);
    let pairs = live_rate_pairs(&s("\u{3000}gbp\t:\u{a0}1.2\n"));
    assert_eq!(pairs, vec![(s("GBP"), s("1.2"))]);
}

#[test]
fn search_patterns() {
    assert_eq!(mango::text::search_pattern(&s("rent")), "%rent%");
}
