//! Texts that the ledger shows or writes: entry details, list titles, CSV
//! fields, and the reading of live exchange rates.

use vstd::prelude::*;
use crate::accounts::{normalize_currency, uppercase};
use crate::dates::{today, Date};
use crate::money::{format_money, int_text, int_to_text, money_text, push_char, string_of_chars};

verus! {

/// `account: amount currency`, as a transaction's entry is listed.
pub open spec fn detail_text(account: Seq<char>, cents: int, currency: Seq<char>) -> Seq<char> {
    account + ": "@ + money_text(cents) + " "@ + currency
}

/// The listing of one entry of a transaction.
pub fn entry_detail(account: &String, cents: i64, currency: &String) -> (s: String)
    requires
        cents > i64::MIN,
    ensures
        s@ == detail_text(account@, cents as int, currency@),
{
    let mut s = account.clone();
    s.append(": ");
    let m = format_money(cents);
    s.append(m.as_str());
    s.append(" ");
    s.append(currency.as_str());
    s
}

/// The text contains the character `c`.
pub open spec fn has_char(s: Seq<char>, c: char) -> bool {
    exists|i: int| 0 <= i < s.len() && s[i] == c
}

fn contains_char(s: &String, c: char) -> (r: bool)
    ensures
        r == has_char(s@, c),
{
    let t = s.as_str();
    let n = t.unicode_len();
    let mut i: usize = 0;
    while i < n
        invariant
            n == t@.len(),
            t@ == s@,
            i <= n,
            forall|j: int| 0 <= j < i ==> s@[j] != c,
        decreases n - i,
    {
        if t.get_char(i) == c {
            return true;
        }
        i += 1;
    }
    false
}

/// A description as a CSV field: quoted when it holds a comma.
pub open spec fn csv_text(s: Seq<char>) -> Seq<char> {
    if has_char(s, ',') {
        seq!['"'] + s + seq!['"']
    } else {
        s
    }
}

/// Writes a description as a CSV field.
pub fn csv_description(description: String) -> (s: String)
    ensures
        s@ == csv_text(description@),
{
    if contains_char(&description, ',') {
        let mut s = String::new();
        push_char(&mut s, '"');
        s.append(description.as_str());
        push_char(&mut s, '"');
        assert(s@ == seq!['"'] + description@ + seq!['"']);
        s
    } else {
        description
    }
}

/// The title of a listing of transactions.
pub open spec fn list_title_text(limit: int, month: Option<u32>, year: Option<i32>, current_year: int) -> Seq<char> {
    if month is Some || year is Some {
        let y = match year {
            Some(y) => y as int,
            None => current_year,
        };
        let month_part = match month {
            Some(m) => "Month: "@ + int_text(m as int) + ", "@,
            None => Seq::<char>::empty(),
        };
        "\n=== TRANSACTIONS ("@ + month_part + "Year: "@ + int_text(y) + ") ==="@
    } else {
        "\n=== RECENT TRANSACTIONS (Last "@ + int_text(limit) + ") ==="@
    }
}

/// The title of a listing: a month or year filter (the year defaulting to
/// the current one), or the most recent `limit` transactions.
pub fn list_title(limit: u32, month: Option<u32>, year: Option<i32>) -> (s: String)
    ensures
        exists|t: Date|
            #![trigger t.valid()]
            t.valid() && s@ == list_title_text(limit as int, month, year, t.year as int),
{
    let day = today();
    let mut s: String;
    if month.is_some() || year.is_some() {
        let y = match year {
            Some(y) => y,
            None => day.year,
        };
        s = String::from_str("\n=== TRANSACTIONS (");
        if let Some(m) = month {
            s.append("Month: ");
            let mt = int_to_text(m as i64);
            s.append(mt.as_str());
            s.append(", ");
        }
        s.append("Year: ");
        let yt = int_to_text(y as i64);
        s.append(yt.as_str());
        s.append(") ===");
    } else {
        s = String::from_str("\n=== RECENT TRANSACTIONS (Last ");
        let lt = int_to_text(limit as i64);
        s.append(lt.as_str());
        s.append(") ===");
    }
    assert(day.valid() && s@ == list_title_text(limit as int, month, year, day.year as int));
    s
}

/// Splits a text at every occurrence of `sep`, as `str::split` does with a
/// character: `n` separators give `n + 1` pieces, possibly empty.
pub open spec fn split_text(s: Seq<char>, sep: char) -> Seq<Seq<char>>
    decreases s.len(),
{
    if s.len() == 0 {
        seq![Seq::<char>::empty()]
    } else {
        let p = split_text(s.drop_last(), sep);
        if s.last() == sep {
            p.push(Seq::<char>::empty())
        } else {
            p.update(p.len() - 1, p.last().push(s.last()))
        }
    }
}

proof fn lemma_split_nonempty(s: Seq<char>, sep: char)
    ensures
        split_text(s, sep).len() >= 1,
    decreases s.len(),
{
    if s.len() > 0 {
        lemma_split_nonempty(s.drop_last(), sep);
    }
}

/// The pieces of a string between the occurrences of `sep`.
pub fn split_chars(s: &String, sep: char) -> (r: Vec<Vec<char>>)
    ensures
        r@.len() == split_text(s@, sep).len(),
        forall|i: int| 0 <= i < r@.len() ==> (#[trigger] r@[i])@ == split_text(s@, sep)[i],
{
    let t = s.as_str();
    let n = t.unicode_len();
    let mut r: Vec<Vec<char>> = Vec::new();
    r.push(Vec::new());
    let mut i: usize = 0;
    assert(s@.take(0) == Seq::<char>::empty());
    while i < n
        invariant
            n == t@.len(),
            t@ == s@,
            i <= n,
            r@.len() == split_text(s@.take(i as int), sep).len(),
            r@.len() >= 1,
            forall|k: int| 0 <= k < r@.len() ==> (#[trigger] r@[k])@ == split_text(s@.take(i as int), sep)[k],
        decreases n - i,
    {
        let c = t.get_char(i);
        let ghost prev = s@.take(i as int);
        let ghost next = s@.take(i as int + 1);
        assert(next.drop_last() == prev);
        assert(next.last() == c);
        let ghost old_r = r@;
        if c == sep {
            r.push(Vec::new());
            proof {
                assert forall|k: int| 0 <= k < r@.len() implies (#[trigger] r@[k])@ == split_text(next, sep)[k] by {
                    if k < old_r.len() {
                        assert(r@[k] == old_r[k]);
                    }
                }
            }
        } else {
            let last = r.len() - 1;
            let mut piece = r[last].clone();
            piece.push(c);
            r.set(last, piece);
            proof {
                assert forall|k: int| 0 <= k < r@.len() implies (#[trigger] r@[k])@ == split_text(next, sep)[k] by {
                    if k < last {
                        assert(r@[k] == old_r[k]);
                    }
                }
            }
        }
        i += 1;
    }
    assert(s@.take(n as int) == s@);
    r
}

/// A character with the Unicode property `White_Space`.
pub open spec fn is_white_space(c: char) -> bool {
    let n = c as int;
    ||| 0x09 <= n <= 0x0D
    ||| n == 0x20
    ||| n == 0x85
    ||| n == 0xA0
    ||| n == 0x1680
    ||| 0x2000 <= n <= 0x200A
    ||| n == 0x2028
    ||| n == 0x2029
    ||| n == 0x202F
    ||| n == 0x205F
    ||| n == 0x3000
}

/// A text without its leading white space.
pub open spec fn trim_start(s: Seq<char>) -> Seq<char>
    decreases s.len(),
{
    if s.len() > 0 && is_white_space(s[0]) {
        trim_start(s.drop_first())
    } else {
        s
    }
}

/// A text without its trailing white space.
pub open spec fn trim_end(s: Seq<char>) -> Seq<char>
    decreases s.len(),
{
    if s.len() > 0 && is_white_space(s.last()) {
        trim_end(s.drop_last())
    } else {
        s
    }
}

/// A text without its leading and trailing white space.
pub open spec fn trimmed(s: Seq<char>) -> Seq<char> {
    trim_end(trim_start(s))
}

/// `str::trim`: the text without leading and trailing white space, white
/// space being the characters with the Unicode property `White_Space`.
#[verifier::external_body]
fn trim_text(s: &str) -> (r: String)
    ensures
        r@ == trimmed(s@),
{
    s.trim().to_string()
}

/// The pairs that a list of live rates such as `USD:1500, EUR:1600` names:
/// for each comma-separated part made of exactly two colon-separated
/// pieces, the currency (trimmed, upper case) and the rate text (trimmed),
/// in order.
pub open spec fn rate_pairs(s: Seq<char>) -> Seq<(Seq<char>, Seq<char>)> {
    rate_pairs_of(split_text(s, ','))
}

/// The rate pairs of a sequence of parts.
pub open spec fn rate_pairs_of(parts: Seq<Seq<char>>) -> Seq<(Seq<char>, Seq<char>)>
    decreases parts.len(),
{
    if parts.len() == 0 {
        Seq::empty()
    } else {
        let prev = rate_pairs_of(parts.drop_last());
        let pieces = split_text(parts.last(), ':');
        if pieces.len() == 2 {
            prev.push((uppercase(trimmed(pieces[0])), trimmed(pieces[1])))
        } else {
            prev
        }
    }
}

/// Reads a list of live exchange rates into currency and rate texts (the
/// rate texts are read as numbers by the caller).
pub fn live_rate_pairs(spec: &String) -> (r: Vec<(String, String)>)
    ensures
        r@.len() == rate_pairs(spec@).len(),
        forall|i: int|
            0 <= i < r@.len() ==> (#[trigger] r@[i]).0@ == rate_pairs(spec@)[i].0 && r@[i].1@
                == rate_pairs(spec@)[i].1,
{
    let parts = split_chars(spec, ',');
    let ghost all = split_text(spec@, ',');
    let mut r: Vec<(String, String)> = Vec::new();
    let mut i: usize = 0;
    while i < parts.len()
        invariant
            i <= parts.len(),
            parts@.len() == all.len(),
            forall|k: int| 0 <= k < parts@.len() ==> (#[trigger] parts@[k])@ == all[k],
            r@.len() == rate_pairs_of(all.take(i as int)).len(),
            forall|k: int|
                0 <= k < r@.len() ==> (#[trigger] r@[k]).0@ == rate_pairs_of(all.take(i as int))[k].0
                    && r@[k].1@ == rate_pairs_of(all.take(i as int))[k].1,
        decreases parts.len() - i,
    {
        let ghost prev = all.take(i as int);
        let ghost next = all.take(i as int + 1);
        assert(next.drop_last() == prev);
        assert(next.last() == all[i as int]);
        let part = string_of_chars(&parts[i]);
        let pieces = split_chars(&part, ':');
        let ghost old_r = r@;
        if pieces.len() == 2 {
            let a = string_of_chars(&pieces[0]);
            let b = string_of_chars(&pieces[1]);
            let currency = trim_text(a.as_str());
            let currency = normalize_currency(&currency);
            let rate = trim_text(b.as_str());
            r.push((currency, rate));
            proof {
                assert forall|k: int| 0 <= k < r@.len() implies (#[trigger] r@[k]).0@
                    == rate_pairs_of(next)[k].0 && r@[k].1@ == rate_pairs_of(next)[k].1 by {
                    if k < old_r.len() {
                        assert(r@[k] == old_r[k]);
                    }
                }
            }
        }
        i += 1;
    }
    assert(all.take(parts.len() as int) == all);
    r
}

/// The pattern that finds descriptions containing `query`.
pub fn search_pattern(query: &String) -> (p: String)
    ensures
        p@ == "%"@ + query@ + "%"@,
{
    let mut p = String::from_str("%");
    p.append(query.as_str());
    p.append("%");
    p
}

} // verus!
