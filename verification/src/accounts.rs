//! Accounts and budgets: what a new account, a change of an account, the
//! removal of an account and a budget limit must satisfy.

use vstd::prelude::*;
use crate::commands::is_text;
use crate::error::MangoError;

verus! {

/// What `str::to_lowercase` gives for a text (Unicode lower case).
pub uninterp spec fn lowercase(s: Seq<char>) -> Seq<char>;

/// What `str::to_uppercase` gives for a text (Unicode upper case).
pub uninterp spec fn uppercase(s: Seq<char>) -> Seq<char>;

/// `str::to_lowercase`; its result is named, not stated.
#[verifier::external_body]
fn text_to_lowercase(s: &str) -> (r: String)
    ensures
        r@ == lowercase(s@),
{
    s.to_lowercase()
}

/// `str::to_uppercase`; its result is named, not stated.
#[verifier::external_body]
fn text_to_uppercase(s: &str) -> (r: String)
    ensures
        r@ == uppercase(s@),
{
    s.to_uppercase()
}

/// A currency code as it is stored: in upper case.
pub fn normalize_currency(currency: &String) -> (r: String)
    ensures
        r@ == uppercase(currency@),
{
    text_to_uppercase(currency.as_str())
}

/// The five kinds of account.
pub open spec fn is_account_type(t: Seq<char>) -> bool {
    t == "asset"@ || t == "liability"@ || t == "income"@ || t == "expense"@ || t == "equity"@
}

/// An account to be created.
pub struct NewAccount {
    pub name: String,
    pub account_type: String,
    pub currency: String,
}

/// A new account: its type, read without regard to case, must be one of
/// the five kinds; type and currency are stored in lower and upper case.
pub fn new_account(name: String, account_type: &String, currency: &String) -> (r: Result<
    NewAccount,
    MangoError,
>)
    ensures
        r is Ok <==> is_account_type(lowercase(account_type@)),
        r matches Err(e) ==> e == MangoError::InvalidAccountType(*account_type),
        r matches Ok(a) ==> a.name@ == name@ && a.account_type@ == lowercase(account_type@)
            && a.currency@ == uppercase(currency@),
{
    let lower = text_to_lowercase(account_type.as_str());
    let valid = is_text(&lower, "asset") || is_text(&lower, "liability") || is_text(
        &lower,
        "income",
    ) || is_text(&lower, "expense") || is_text(&lower, "equity");
    if !valid {
        return Err(MangoError::InvalidAccountType(account_type.clone()));
    }
    Ok(NewAccount { name, account_type: lower, currency: normalize_currency(currency) })
}

/// The changes made to an account.
pub struct AccountUpdate {
    /// The new name, if the account is renamed.
    pub rename: Option<String>,
    /// The new currency (upper case), if it changes.
    pub currency: Option<String>,
    /// The name under which the account is found once renamed.
    pub target: String,
}

/// A change of account `old_name`: a new name, a new currency, or both;
/// the account must exist.
pub fn plan_account_update(
    old_name: &String,
    new_name: Option<String>,
    currency: Option<String>,
    exists: bool,
) -> (r: Result<AccountUpdate, MangoError>)
    ensures
        new_name is None && currency is None ==> r == Err::<AccountUpdate, MangoError>(
            MangoError::NothingToUpdate,
        ),
        !(new_name is None && currency is None) && !exists ==> r == Err::<
            AccountUpdate,
            MangoError,
        >(MangoError::AccountNotFound(*old_name)),
        !(new_name is None && currency is None) && exists ==> r is Ok,
        r matches Ok(u) ==> {
            &&& u.rename == new_name
            &&& (match currency {
                Some(c) => u.currency matches Some(x) && x@ == uppercase(c@),
                None => u.currency is None,
            })
            &&& u.target@ == (match new_name {
                Some(n) => n@,
                None => old_name@,
            })
        },
{
    if new_name.is_none() && currency.is_none() {
        return Err(MangoError::NothingToUpdate);
    }
    if !exists {
        return Err(MangoError::AccountNotFound(old_name.clone()));
    }
    let target = match &new_name {
        Some(n) => n.clone(),
        None => old_name.clone(),
    };
    let upper = match &currency {
        Some(c) => Some(normalize_currency(c)),
        None => None,
    };
    Ok(AccountUpdate { rename: new_name, currency: upper, target })
}

/// An account with entries cannot be deleted.
pub fn check_account_delete(name: &String, entry_count: i64) -> (r: Result<(), MangoError>)
    ensures
        r is Ok <==> entry_count <= 0,
        r matches Err(e) ==> e == (MangoError::AccountInUse { name: *name, count: entry_count }),
{
    if entry_count > 0 {
        Err(MangoError::AccountInUse { name: name.clone(), count: entry_count })
    } else {
        Ok(())
    }
}

/// A budget is set on an expense account, with a positive limit.
pub fn check_budget(category: &String, account_type: &String, limit_cents: i64) -> (r: Result<
    (),
    MangoError,
>)
    ensures
        account_type@ != "expense"@ ==> r == Err::<(), MangoError>(
            MangoError::BudgetNotExpense { category: *category, account_type: *account_type },
        ),
        account_type@ == "expense"@ && limit_cents <= 0 ==> r == Err::<(), MangoError>(
            MangoError::BudgetNotPositive,
        ),
        account_type@ == "expense"@ && limit_cents > 0 ==> r is Ok,
{
    if !is_text(account_type, "expense") {
        return Err(
            MangoError::BudgetNotExpense {
                category: category.clone(),
                account_type: account_type.clone(),
            },
        );
    }
    if limit_cents <= 0 {
        return Err(MangoError::BudgetNotPositive);
    }
    Ok(())
}

} // verus!
