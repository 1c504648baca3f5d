use mango::dates::Date;
use mango::error::MangoError;
use mango::schedule::{
    check_installment_terms, check_loan_terms, installment_plan, loan_plan, plan_installments, plan_installments_on,
    plan_loan, plan_loan_on,
};

fn s(x: &str) -> String {
    x.to_string()
}

#[test]
fn test_installments_remainder_split() {
    let total_cents = 120000;
    let cash_cents = 100000;
    let installments = 3;

    let start = Date { year: 2026, month: 5, day: 25 };
    let plans = installment_plan(
        total_cents,
        cash_cents,
        installments,
        &s("Credit Card"),
        &s("Tech"),
        &s("Interest"),
        &s("Laptop"),
        start,
        &s("group"),
    );
    assert_eq!(plans.len() as i64, installments);

    let monthly_total = -plans[0].entries[0].amount_native;
    let remainder_total = -plans[2].entries[0].amount_native - monthly_total;
    let monthly_cash = plans[0].entries[1].amount_native;
    let remainder_cash = plans[2].entries[1].amount_native - monthly_cash;

    assert_eq!(monthly_total, 40000);
    assert_eq!(remainder_total, 0);

    assert_eq!(monthly_cash, 33333);
    assert_eq!(remainder_cash, 1);

    let mut reconstructed_total = 0;
    let mut reconstructed_cash = 0;
    let mut reconstructed_interest = 0;

    for p in &plans {
        let cur_total = -p.entries[0].amount_native;
        let cur_cash = p.entries[1].amount_native;
        let cur_interest = p.entries[2].amount_native;
        assert_eq!(cur_interest, cur_total - cur_cash);

        reconstructed_total += cur_total;
        reconstructed_cash += cur_cash;
        reconstructed_interest += cur_interest;
    }

    assert_eq!(reconstructed_total, total_cents);
    assert_eq!(reconstructed_cash, cash_cents);
    assert_eq!(reconstructed_interest, total_cents - cash_cents);
}

#[test]
fn installment_dates_descriptions_and_group() {
    let plans = installment_plan(
        120000,
        100000,
        3,
        &s("Credit Card"),
        &s("Tech"),
        &s("Interest"),
        &s("Laptop"),
        Date { year: 2026, month: 1, day: 31 },
        &s("g-1"),
    );
    let dates: Vec<&str> = plans.iter().map(|p| p.date.as_str()).collect();
    assert_eq!(dates, vec!["2026-01-31", "2026-02-28", "2026-03-31"]);
    assert_eq!(plans[1].description, "Laptop (Installment 2/3)");
    assert_eq!(plans[2].installment_current, Some(3));
    assert_eq!(plans[2].installment_total, Some(3));
    assert_eq!(plans[0].parent_group_id.as_deref(), Some("g-1"));
    assert_eq!(plans[0].entries[0].account_name, "Credit Card");
    assert_eq!(plans[0].entries[1].account_name, "Tech");
    assert_eq!(plans[0].entries[2].account_name, "Interest");
    for p in &plans {
        let sum: i64 = p.entries.iter().map(|e| e.amount_native).sum();
        assert_eq!(sum, 0);
    }
}

#[test]
fn loan_receipt_and_repayments() {
    let plans = loan_plan(
        1000000,
        1100000,
        10,
        &s("Bank"),
        &s("Personal Loan"),
        &s("Interest"),
        &s("Test Loan"),
        Date { year: 2026, month: 5, day: 25 },
        &s("loan-group"),
    );
    assert_eq!(plans.len(), 11);
    assert_eq!(plans[0].description, "Test Loan (Loan Received)");
    assert_eq!(plans[0].date, "2026-05-25");
    assert_eq!(plans[0].entries[0].amount_native, 1000000);
    assert_eq!(plans[0].entries[1].amount_native, -1000000);
    assert_eq!(plans[1].date, "2026-06-25");
    assert_eq!(plans[1].description, "Test Loan (Repayment 1/10)");
    assert_eq!(plans[1].entries[0].amount_native, -110000);
    assert_eq!(plans[1].entries[1].amount_native, 100000);
    assert_eq!(plans[1].entries[2].amount_native, 10000);
    assert_eq!(plans[10].date, "2027-03-25");
    let bank: i64 = plans.iter().map(|p| p.entries[0].amount_native).sum();
    let loan: i64 = plans.iter().map(|p| p.entries[1].amount_native).sum();
    let interest: i64 = plans[1..].iter().map(|p| p.entries[2].amount_native).sum();
    assert_eq!(bank, 1000000 - 1100000);
    assert_eq!(loan, 0);
    assert_eq!(interest, 100000);
}

#[test]
fn negative_amounts_split_toward_zero() {
    let plans = installment_plan(
        -100,
        -100,
        3,
        &s("A"),
        &s("B"),
        &s("C"),
        &s("D"),
        Date { year: 2026, month: 1, day: 1 },
        &s("g"),
    );
    let totals: Vec<i64> = plans.iter().map(|p| -p.entries[0].amount_native).collect();
    assert_eq!(totals, vec![-33, -33, -34]);
}

#[test]
fn schedule_terms_are_checked() {
    assert!(matches!(check_installment_terms(0, 1, 2), Err(MangoError::NoInstallments)));
    assert!(matches!(check_installment_terms(2, 5, 4), Err(MangoError::TotalBelowCash)));
    assert!(check_installment_terms(2, 4, 4).is_ok());
    assert!(matches!(check_loan_terms(-1, 1, 2), Err(MangoError::NoInstallments)));
    assert!(matches!(check_loan_terms(3, 5, 4), Err(MangoError::TotalBelowPrincipal)));
    assert!(check_loan_terms(3, 4, 5).is_ok());
}

#[test]
fn plan_installments_fresh_groups_and_errors() {
    let date = Some(s("2026-05-25"));
    let a = plan_installments(1000, 900, 2, &s("Card"), &s("Tech"), &s("Interest"), &s("Phone"), &date).unwrap();
    let b = plan_installments(1000, 900, 2, &s("Card"), &s("Tech"), &s("Interest"), &s("Phone"), &date).unwrap();
    let ga = a[0].parent_group_id.clone().unwrap();
    let gb = b[0].parent_group_id.clone().unwrap();
    assert_eq!(ga.len(), 36);
    assert_ne!(ga, gb);
    assert_eq!(a[1].parent_group_id, a[0].parent_group_id);
    assert_eq!(a[1].date, "2026-06-25");
    assert!(matches!(
        plan_installments(1000, 900, 2, &s("Card"), &s("Tech"), &s("Interest"), &s("Phone"), &Some(s("25/05/2026"))),
        Err(MangoError::InvalidDateFormat)
    ));
    assert!(matches!(
        plan_installments(1000, 900, 0, &s("Card"), &s("Tech"), &s("Interest"), &s("Phone"), &date),
        Err(MangoError::NoInstallments)
    ));
    assert!(matches!(
        plan_installments(i64::MIN, i64::MIN, 1, &s("Card"), &s("Tech"), &s("Interest"), &s("Phone"), &date),
        Err(MangoError::AmountOutOfRange)
    ));
    assert!(matches!(
        plan_installments(10, 5, 4_000_000, &s("Card"), &s("Tech"), &s("Interest"), &s("Phone"), &date),
        Err(MangoError::DateOutOfRange)
    ));
}

#[test]
fn plan_loan_fresh_group_and_errors() {
    let date = Some(s("2026-05-25"));
    let plans = plan_loan(1000, 1200, 2, &s("Bank"), &s("Loan"), &s("Interest"), &s("Car"), &date).unwrap();
    assert_eq!(plans.len(), 3);
    assert_eq!(plans[2].date, "2026-07-25");
    assert!(plans.iter().all(|p| p.parent_group_id == plans[0].parent_group_id));
    assert!(matches!(
        plan_loan(1000, 900, 2, &s("Bank"), &s("Loan"), &s("Interest"), &s("Car"), &date),
        Err(MangoError::TotalBelowPrincipal)
    ));
    assert!(matches!(
        plan_loan(i64::MIN, 0, 2, &s("Bank"), &s("Loan"), &s("Interest"), &s("Car"), &date),
        Err(MangoError::AmountOutOfRange)
    ));
    assert!(matches!(
        plan_loan(1000, 1200, 2, &s("Bank"), &s("Loan"), &s("Interest"), &s("Car"), &Some(s("2026-02-30"))),
        Err(MangoError::InvalidDateFormat)
    ));
}

#[test]
fn plan_installments_without_date_starts_today() {
    let plans = plan_installments(1000, 900, 1, &s("Card"), &s("Tech"), &s("Interest"), &s("Phone"), &None).unwrap();
    assert_eq!(plans.len(), 1);
    assert_eq!(plans[0].description, "Phone (Installment 1/1)");
    assert_eq!(plans[0].date, mango::dates::format_date(mango::dates::today()));
    let plans = plan_installments(1000, 900, 3, &s("Card"), &s("Tech"), &s("Interest"), &s("Phone"), &None).unwrap();
    assert_eq!(plans.len(), 3);
    assert_eq!(plans[0].date, mango::dates::format_date(mango::dates::today()));
}

#[test]
fn plan_loan_without_date_starts_today() {
    let plans = plan_loan(1000, 1200, 1, &s("Bank"), &s("Loan"), &s("Interest"), &s("Car"), &None).unwrap();
    assert_eq!(plans.len(), 2);
    assert_eq!(plans[0].date, mango::dates::format_date(mango::dates::today()));
    assert!(matches!(
        plan_loan(1000, 1200, 0, &s("Bank"), &s("Loan"), &s("Interest"), &s("Car"), &None),
        Err(MangoError::NoInstallments)
    ));
}

#[test]
fn plan_installments_on_a_given_day() {
    let day = Date { year: 2026, month: 1, day: 31 };
    let g = s("group-1");
    let plans =
        plan_installments_on(1000, 900, 3, &s("Card"), &s("Tech"), &s("Interest"), &s("Phone"), &None, day, &g)
            .unwrap();
    let dates: Vec<&str> = plans.iter().map(|p| p.date.as_str()).collect();
    assert_eq!(dates, vec!["2026-01-31", "2026-02-28", "2026-03-31"]);
    assert!(plans.iter().all(|p| p.parent_group_id == Some(s("group-1"))));
    assert_eq!(plans[2].entries[0].amount_native, -334);
    let dated = plan_installments_on(
        1000, 900, 1, &s("Card"), &s("Tech"), &s("Interest"), &s("Phone"), &Some(s("2025-07-04")), day, &g,
    )
    .unwrap();
    assert_eq!(dated[0].date, "2025-07-04");
    let last = Date { year: 262142, month: 12, day: 15 };
    assert!(plan_installments_on(1000, 900, 1, &s("Card"), &s("Tech"), &s("Interest"), &s("Phone"), &None, last, &g)
        .is_ok());
    assert!(matches!(
        plan_installments_on(1000, 900, 2, &s("Card"), &s("Tech"), &s("Interest"), &s("Phone"), &None, last, &g),
        Err(MangoError::DateOutOfRange)
    ));
    assert!(matches!(
        plan_installments_on(1000, 900, 2, &s("Card"), &s("Tech"), &s("Interest"), &s("Phone"), &Some(s("x")), last, &g),
        Err(MangoError::InvalidDateFormat)
    ));
}

#[test]
fn plan_loan_on_a_given_day() {
    let day = Date { year: 2026, month: 3, day: 10 };
    let g = s("group-2");
    let plans = plan_loan_on(1000, 1200, 2, &s("Bank"), &s("Loan"), &s("Interest"), &s("Car"), &None, day, &g).unwrap();
    let dates: Vec<&str> = plans.iter().map(|p| p.date.as_str()).collect();
    assert_eq!(dates, vec!["2026-03-10", "2026-04-10", "2026-05-10"]);
    assert_eq!(plans[0].entries[0].amount_native, 1000);
    let last = Date { year: 262142, month: 12, day: 15 };
    assert!(matches!(
        plan_loan_on(1000, 1200, 1, &s("Bank"), &s("Loan"), &s("Interest"), &s("Car"), &None, last, &g),
        Err(MangoError::DateOutOfRange)
    ));
    assert!(matches!(
        plan_loan_on(1000, 900, 1, &s("Bank"), &s("Loan"), &s("Interest"), &s("Car"), &None, last, &g),
        Err(MangoError::TotalBelowPrincipal)
    ));
}

#[test]
fn new_group_ids_are_hyphenated_uuids() {
    let plans = plan_installments(1000, 900, 1, &s("Card"), &s("Tech"), &s("Interest"), &s("Phone"), &None).unwrap();
    let g = plans[0].parent_group_id.clone().unwrap();
    assert_eq!(g.len(), 36);
    for i in [8, 13, 18, 23] {
        assert_eq!(g.as_bytes()[i], b'-');
    }
}
