//! Every way in which a ledger operation can be refused.

use vstd::prelude::*;

verus! {

/// Why a ledger operation was refused.
#[derive(Debug)]
pub enum MangoError {
    /// A month outside 1..=12 was asked for.
    MonthOutOfRange,
    /// The first day of the asked period does not exist in the calendar.
    InvalidDate,
    /// The day after the asked period does not exist in the calendar.
    InvalidEndDate,
    /// A date was not written as `YYYY-MM-DD`.
    InvalidDateFormat,
    /// No account has this name.
    AccountNotFound(String),
    /// An entry in a foreign currency came without an exchange rate.
    MissingExchangeRate { account: String, currency: String, base_currency: String },
    /// The entries of a transaction do not sum to zero in the base currency.
    Unbalanced(i64),
    /// The stored entries of a transaction do not sum to zero.
    StoredUnbalanced { transaction_id: i64, sum: i64 },
    /// The database holds no ledger yet.
    NotInitialized,
    /// The account type is not one of asset, liability, income, expense, equity.
    InvalidAccountType(String),
    /// An account with this name exists already.
    AccountExists(String),
    /// An account update named neither a new name nor a new currency.
    NothingToUpdate,
    /// An account that still has entries cannot be deleted.
    AccountInUse { name: String, count: i64 },
    /// Only asset accounts can have their balance adjusted.
    AdjustNonAsset(String),
    /// Adjusting an account in a foreign currency needs an exchange rate.
    AdjustNeedsRate,
    /// Budgets are only kept for expense accounts.
    BudgetNotExpense { category: String, account_type: String },
    /// A budget limit must be positive.
    BudgetNotPositive,
    /// The account to settle is not a liability.
    NotLiability(String),
    /// The account to pay from is not an asset.
    NotAsset(String),
    /// The liability and the paying account are in different currencies.
    CrossCurrencyPayment,
    /// A transfer amount must be positive.
    TransferNotPositive,
    /// An expense amount must be positive.
    ExpenseNotPositive,
    /// An income amount must be positive.
    IncomeNotPositive,
    /// A new amount for a transaction must be positive.
    EditAmountNotPositive,
    /// A cross-currency transfer must touch the base currency.
    TransferOutsideBase,
    /// A cross-currency transfer needs an exchange rate or a cost amount.
    TransferNeedsRate,
    /// No transaction has this id (when deleting).
    TransactionNotFound(i64),
    /// No transaction has this id (when editing).
    EditTargetMissing(i64),
    /// An edit named nothing to change.
    NothingToEdit,
    /// Only transactions of exactly two entries can have their amount edited.
    ComplexTransaction,
    /// A plan of installments needs at least one installment.
    NoInstallments,
    /// A loan cannot be repaid with less than its principal.
    TotalBelowPrincipal,
    /// A financed purchase cannot cost less than its cash price.
    TotalBelowCash,
    /// An amount of a schedule does not fit in the range of cents kept.
    AmountOutOfRange,
    /// A date of a schedule falls outside the calendar range kept.
    DateOutOfRange,
}

} // verus!
