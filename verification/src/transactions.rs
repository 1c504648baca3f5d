//! Transactions as the commands of the ledger build them, before they are
//! stored: a header and entries whose native amounts are in cents.

use vstd::prelude::*;
use crate::dates::{chrono_parsed_date, date_text, format_date, parse_date, today, Date};
use crate::error::MangoError;
use crate::money::{int_text, int_to_text};

verus! {

/// One entry of a transaction to be stored.
pub struct EntryInput {
    pub account_name: String,
    /// Amount in the currency of the account, in cents.
    pub amount_native: i64,
    /// The entry is stored with the exchange rate that the command gave for it.
    pub has_rate: bool,
}

/// A transaction to be stored.
pub struct TransactionInput {
    pub date: String,
    pub description: String,
    pub installment_current: Option<i64>,
    pub installment_total: Option<i64>,
    pub parent_group_id: Option<String>,
    pub entries: Vec<EntryInput>,
}

/// The sum of the native amounts of entries.
pub open spec fn native_sum(s: Seq<EntryInput>) -> int
    decreases s.len(),
{
    if s.len() == 0 {
        0
    } else {
        native_sum(s.drop_last()) + s.last().amount_native
    }
}

/// The entry moves `amount` cents on the account named `name`.
pub open spec fn entry_is(e: EntryInput, name: Seq<char>, amount: int, has_rate: bool) -> bool {
    &&& e.account_name@ == name
    &&& e.amount_native == amount
    &&& e.has_rate == has_rate
}

/// A transaction that stands alone: no installment numbers and no group.
pub open spec fn is_single(t: TransactionInput) -> bool {
    &&& t.installment_current is None
    &&& t.installment_total is None
    &&& t.parent_group_id is None
}

/// The two entries take `amount` from `from` and give it to `to`.
pub open spec fn moves(t: TransactionInput, from: Seq<char>, to: Seq<char>, amount: int) -> bool {
    &&& t.entries@.len() == 2
    &&& entry_is(t.entries@[0], from, -amount, false)
    &&& entry_is(t.entries@[1], to, amount, false)
}

pub proof fn lemma_native_sum_two(a: EntryInput, b: EntryInput)
    ensures
        native_sum(seq![a, b]) == a.amount_native + b.amount_native,
{
    assert(seq![a, b].drop_last() == seq![a]);
    assert(seq![a].drop_last() == Seq::<EntryInput>::empty());
    assert(seq![a].last() == a);
    assert(seq![a, b].last() == b);
    assert(native_sum(Seq::<EntryInput>::empty()) == 0);
    assert(native_sum(seq![a]) == a.amount_native);
}

pub proof fn lemma_native_sum_three(a: EntryInput, b: EntryInput, c: EntryInput)
    ensures
        native_sum(seq![a, b, c]) == a.amount_native + b.amount_native + c.amount_native,
{
    assert(seq![a, b, c].drop_last() == seq![a, b]);
    assert(seq![a, b, c].last() == c);
    lemma_native_sum_two(a, b);
}

/// An entry on `name` for `amount` cents.
pub fn make_entry(name: &String, amount: i64, has_rate: bool) -> (e: EntryInput)
    ensures
        entry_is(e, name@, amount as int, has_rate),
{
    EntryInput { account_name: name.clone(), amount_native: amount, has_rate }
}

/// A standalone transaction of two entries, moving `amount` from `from` to `to`.
pub fn simple_transfer(date: String, description: String, from: &String, to: &String, amount: i64) -> (t:
    TransactionInput)
    requires
        amount > i64::MIN,
    ensures
        t.date@ == date@,
        t.description@ == description@,
        is_single(t),
        moves(t, from@, to@, amount as int),
        native_sum(t.entries@) == 0,
{
    let mut entries: Vec<EntryInput> = Vec::new();
    entries.push(make_entry(from, -amount, false));
    entries.push(make_entry(to, amount, false));
    proof {
        assert(entries@ == seq![entries@[0], entries@[1]]);
        lemma_native_sum_two(entries@[0], entries@[1]);
    }
    TransactionInput {
        date,
        description,
        installment_current: None,
        installment_total: None,
        parent_group_id: None,
        entries,
    }
}

/// The date of a transaction: the given `YYYY-MM-DD` text, which must be a
/// date, or today's date.
pub fn transaction_date(date: Option<String>) -> (r: Result<String, MangoError>)
    ensures
        match date {
            Some(d) => {
                &&& (r is Ok <==> chrono_parsed_date(d@) is Some)
                &&& r matches Ok(s) ==> s@ == d@
                &&& r matches Err(e) ==> e == MangoError::InvalidDateFormat
            },
            None => r matches Ok(s) && exists|t: Date| #[trigger] t.valid() && s@ == date_text(t),
        },
{
    match date {
        Some(d) => {
            let parsed = parse_date(d.as_str());
            match parsed {
                Ok(_) => Ok(d),
                Err(e) => Err(e),
            }
        },
        None => {
            let t = today();
            let s = format_date(t);
            assert(t.valid());
            Ok(s)
        },
    }
}

/// The date on which a schedule starts: the given `YYYY-MM-DD` date or today.
pub fn start_date(date: &Option<String>) -> (r: Result<Date, MangoError>)
    ensures
        r matches Ok(d) ==> d.valid(),
        match date {
            Some(s) => {
                &&& (r is Ok <==> chrono_parsed_date(s@) is Some)
                &&& r matches Ok(d) ==> (d.year, d.month, d.day) == chrono_parsed_date(s@)->0
                &&& r matches Err(e) ==> e == MangoError::InvalidDateFormat
            },
            None => r is Ok,
        },
{
    match date {
        Some(s) => parse_date(s.as_str()),
        None => Ok(today()),
    }
}

/// `description` followed by ` (<label> i/n)`.
pub open spec fn numbered_text(description: Seq<char>, label: Seq<char>, i: int, n: int) -> Seq<
    char,
> {
    description + " ("@ + label + " "@ + int_text(i) + "/"@ + int_text(n) + ")"@
}

/// Builds the text `description (label i/n)`.
pub fn numbered_description(description: &String, label: &str, i: i64, n: i64) -> (s: String)
    ensures
        s@ == numbered_text(description@, label@, i as int, n as int),
{
    let mut s = description.clone();
    s.append(" (");
    s.append(label);
    s.append(" ");
    let a = int_to_text(i);
    s.append(a.as_str());
    s.append("/");
    let b = int_to_text(n);
    s.append(b.as_str());
    s.append(")");
    s
}

/// An expense: `amount` cents leave `account` and go to `category`.
pub fn plan_expense(
    amount_cents: i64,
    account: &String,
    category: &String,
    description: String,
    date: Option<String>,
) -> (r: Result<TransactionInput, MangoError>)
    ensures
        amount_cents <= 0 ==> r == Err::<TransactionInput, MangoError>(
            MangoError::ExpenseNotPositive,
        ),
        amount_cents > 0 ==> match date {
            Some(d) => (r is Ok <==> chrono_parsed_date(d@) is Some) && (r matches Ok(t)
                ==> t.date@ == d@) && (r matches Err(e) ==> e == MangoError::InvalidDateFormat),
            None => r is Ok,
        },
        r matches Ok(t) ==> {
            &&& t.description@ == description@
            &&& (date is None ==> exists|day: Date| #[trigger] day.valid() && t.date@ == date_text(day))
            &&& is_single(t)
            &&& moves(t, account@, category@, amount_cents as int)
            &&& native_sum(t.entries@) == 0
        },
{
    if amount_cents <= 0 {
        return Err(MangoError::ExpenseNotPositive);
    }
    let tx_date = transaction_date(date)?;
    Ok(simple_transfer(tx_date, description, account, category, amount_cents))
}

/// An income: `amount` cents arrive on `account` from `source`.
pub fn plan_income(
    amount_cents: i64,
    account: &String,
    source: &String,
    description: String,
    date: Option<String>,
) -> (r: Result<TransactionInput, MangoError>)
    ensures
        amount_cents <= 0 ==> r == Err::<TransactionInput, MangoError>(
            MangoError::IncomeNotPositive,
        ),
        amount_cents > 0 ==> match date {
            Some(d) => (r is Ok <==> chrono_parsed_date(d@) is Some) && (r matches Ok(t)
                ==> t.date@ == d@) && (r matches Err(e) ==> e == MangoError::InvalidDateFormat),
            None => r is Ok,
        },
        r matches Ok(t) ==> {
            &&& t.description@ == description@
            &&& (date is None ==> exists|day: Date| #[trigger] day.valid() && t.date@ == date_text(day))
            &&& is_single(t)
            &&& t.entries@.len() == 2
            &&& entry_is(t.entries@[0], account@, amount_cents as int, false)
            &&& entry_is(t.entries@[1], source@, -amount_cents, false)
            &&& native_sum(t.entries@) == 0
        },
{
    if amount_cents <= 0 {
        return Err(MangoError::IncomeNotPositive);
    }
    let tx_date = transaction_date(date)?;
    let mut entries: Vec<EntryInput> = Vec::new();
    entries.push(make_entry(account, amount_cents, false));
    entries.push(make_entry(source, -amount_cents, false));
    proof {
        assert(entries@ == seq![entries@[0], entries@[1]]);
        lemma_native_sum_two(entries@[0], entries@[1]);
    }
    Ok(
        TransactionInput {
            date: tx_date,
            description,
            installment_current: None,
            installment_total: None,
            parent_group_id: None,
            entries,
        },
    )
}

} // verus!
