//! Money amounts are kept as integer cents and shown as text such as
//! `-$1.234.567,89`: a `.` groups thousands and a `,` separates the cents.

use vstd::prelude::*;

verus! {

/// The character of a decimal digit.
pub open spec fn digit_char(d: int) -> char {
    if d == 0 {
        '0'
    } else if d == 1 {
        '1'
    } else if d == 2 {
        '2'
    } else if d == 3 {
        '3'
    } else if d == 4 {
        '4'
    } else if d == 5 {
        '5'
    } else if d == 6 {
        '6'
    } else if d == 7 {
        '7'
    } else if d == 8 {
        '8'
    } else {
        '9'
    }
}

/// Decimal representation of a natural number, without leading zeros.
pub open spec fn decimal_text(n: nat) -> Seq<char>
    decreases n,
{
    if n < 10 {
        seq![digit_char(n as int)]
    } else {
        decimal_text(n / 10).push(digit_char((n % 10) as int))
    }
}

/// Decimal representation of an integer, with a leading `-` when negative.
pub open spec fn int_text(n: int) -> Seq<char> {
    if n < 0 {
        seq!['-'] + decimal_text((-n) as nat)
    } else {
        decimal_text(n as nat)
    }
}

/// Digits with a `.` before every group of three counted from the right.
pub open spec fn group_thousands(s: Seq<char>) -> Seq<char>
    decreases s.len(),
{
    if s.len() <= 3 {
        s
    } else {
        group_thousands(s.take(s.len() - 3)) + seq!['.'] + s.skip(s.len() - 3)
    }
}

/// A number below one hundred written with two digits.
pub open spec fn two_digit_text(n: nat) -> Seq<char> {
    if n < 10 {
        seq!['0', digit_char(n as int)]
    } else {
        decimal_text(n)
    }
}

pub open spec fn abs(n: int) -> int {
    if n < 0 {
        -n
    } else {
        n
    }
}

/// How an amount of cents is shown: sign, `$`, grouped units and, unless
/// they are zero, the cents after a comma.
pub open spec fn money_text(cents: int) -> Seq<char> {
    let a = abs(cents);
    let units = a / 100;
    let rest = a % 100;
    (if cents < 0 {
        seq!['-']
    } else {
        seq![]
    }) + seq!['$'] + group_thousands(decimal_text(units as nat)) + (if rest == 0 {
        seq![]
    } else {
        seq![','] + two_digit_text(rest as nat)
    })
}

/// Appends one character to a string (`String::push`).
#[verifier::external_body]
pub(crate) fn push_char(s: &mut String, c: char)
    ensures
        final(s)@ == old(s)@.push(c),
{
    s.push(c)
}

/// Appends all the characters of `v` to `s`.
pub(crate) fn push_chars(s: &mut String, v: &Vec<char>)
    ensures
        final(s)@ == old(s)@ + v@,
{
    let ghost start = s@;
    let mut i: usize = 0;
    while i < v.len()
        invariant
            i <= v.len(),
            s@ == start + v@.take(i as int),
        decreases v.len() - i,
    {
        push_char(s, v[i]);
        assert(v@.take(i as int + 1) == v@.take(i as int).push(v@[i as int]));
        i += 1;
    }
    assert(v@.take(v.len() as int) == v@);
}

/// A string holding exactly the characters of `v`.
pub(crate) fn string_of_chars(v: &Vec<char>) -> (s: String)
    ensures
        s@ == v@,
{
    let mut s = String::new();
    push_chars(&mut s, v);
    s
}

fn digit_of(d: u64) -> (c: char)
    requires
        d < 10,
    ensures
        c == digit_char(d as int),
{
    if d == 0 {
        '0'
    } else if d == 1 {
        '1'
    } else if d == 2 {
        '2'
    } else if d == 3 {
        '3'
    } else if d == 4 {
        '4'
    } else if d == 5 {
        '5'
    } else if d == 6 {
        '6'
    } else if d == 7 {
        '7'
    } else if d == 8 {
        '8'
    } else {
        '9'
    }
}

/// The decimal digits of `n`.
pub(crate) fn decimal_digits(n: u64) -> (v: Vec<char>)
    ensures
        v@ == decimal_text(n as nat),
{
    let mut v: Vec<char> = Vec::new();
    let mut m: u64 = n / 10;
    v.insert(0, digit_of(n % 10));
    proof {
        if n >= 10 {
            assert(decimal_text(n as nat) == decimal_text(m as nat) + v@);
        }
    }
    while m > 0
        invariant
            decimal_text(n as nat) == (if m > 0 {
                decimal_text(m as nat)
            } else {
                Seq::<char>::empty()
            }) + v@,
        decreases m,
    {
        let d = digit_of(m % 10);
        let ghost old_v = v@;
        v.insert(0, d);
        proof {
            assert(v@ == seq![d] + old_v);
            if m >= 10 {
                assert(decimal_text(m as nat) == decimal_text((m / 10) as nat) + seq![d]);
                assert(decimal_text((m / 10) as nat) + seq![d] + old_v == decimal_text(
                    (m / 10) as nat,
                ) + v@);
            } else {
                assert(decimal_text(m as nat) == seq![d]);
                assert(Seq::<char>::empty() + v@ == v@);
            }
        }
        m = m / 10;
    }
    assert(Seq::<char>::empty() + v@ == v@);
    v
}

/// Putting one more digit in front of a digit string adds a separator in
/// front exactly when the string already holds a positive multiple of three.
pub proof fn lemma_group_prepend(c: char, t: Seq<char>)
    ensures
        group_thousands(seq![c] + t) == (if t.len() > 0 && t.len() % 3 == 0 {
            seq![c, '.'] + group_thousands(t)
        } else {
            seq![c] + group_thousands(t)
        }),
    decreases t.len(),
{
    let u = seq![c] + t;
    let l = t.len();
    if l + 1 <= 3 {
        assert(group_thousands(u) == u);
        assert(group_thousands(t) == t);
    } else if l == 3 {
        assert(u.take(1) == seq![c]);
        assert(u.skip(1) == t);
        assert(group_thousands(seq![c]) == seq![c]);
        assert(group_thousands(t) == t);
        assert(group_thousands(u) == group_thousands(u.take(1)) + seq!['.'] + u.skip(1));
        assert(seq![c] + seq!['.'] + t == seq![c, '.'] + t);
    } else {
        let tp = t.take(l - 3);
        assert(u.take(u.len() - 3) == seq![c] + tp);
        assert(u.skip(u.len() - 3) == t.skip(l - 3));
        assert(group_thousands(u) == group_thousands(u.take(u.len() - 3)) + seq!['.'] + u.skip(u.len() - 3));
        assert(group_thousands(t) == group_thousands(tp) + seq!['.'] + t.skip(l - 3));
        lemma_group_prepend(c, tp);
        assert(tp.len() % 3 == l % 3);
        if l % 3 == 0 {
            assert(seq![c, '.'] + group_thousands(tp) + seq!['.'] + t.skip(l - 3) == seq![c, '.']
                + (group_thousands(tp) + seq!['.'] + t.skip(l - 3)));
        } else {
            assert(seq![c] + group_thousands(tp) + seq!['.'] + t.skip(l - 3) == seq![c] + (
            group_thousands(tp) + seq!['.'] + t.skip(l - 3)));
        }
    }
}

fn group_digits(s: &Vec<char>) -> (r: Vec<char>)
    ensures
        r@ == group_thousands(s@),
{
    let mut r: Vec<char> = Vec::new();
    let mut i: usize = s.len();
    assert(s@.skip(s.len() as int) == Seq::<char>::empty());
    while i > 0
        invariant
            i <= s.len(),
            r@ == group_thousands(s@.skip(i as int)),
        decreases i,
    {
        i -= 1;
        let tail_len = s.len() - 1 - i;
        let ghost tail = s@.skip(i as int + 1);
        proof {
            assert(s@.skip(i as int) == seq![s@[i as int]] + tail);
            lemma_group_prepend(s@[i as int], tail);
        }
        if tail_len > 0 && tail_len % 3 == 0 {
            r.insert(0, '.');
        }
        r.insert(0, s[i]);
        proof {
            if tail_len > 0 && tail_len % 3 == 0 {
                assert(r@ == seq![s@[i as int], '.'] + group_thousands(tail));
            } else {
                assert(r@ == seq![s@[i as int]] + group_thousands(tail));
            }
        }
    }
    assert(s@.skip(0) == s@);
    r
}

/// The text of `n` in decimal, with a leading `-` when negative.
pub fn int_to_text(n: i64) -> (s: String)
    ensures
        s@ == int_text(n as int),
{
    let mut s = String::new();
    if n < 0 {
        push_char(&mut s, '-');
        let m: u64 = if n == i64::MIN {
            9223372036854775808u64
        } else {
            (-n) as u64
        };
        let d = decimal_digits(m);
        push_chars(&mut s, &d);
        assert(s@ == seq!['-'] + decimal_text((-n) as nat));
    } else {
        let d = decimal_digits(n as u64);
        push_chars(&mut s, &d);
        assert(s@ == decimal_text(n as nat));
    }
    s
}

/// Formats an amount of cents: `-` when negative, `$`, the whole units with
/// `.` between groups of three digits, and `,` followed by two digits of
/// cents unless the cents are zero (`123456789` gives `$1.234.567,89`).
pub fn format_money(cents: i64) -> (s: String)
    requires
        cents > i64::MIN,
    ensures
        s@ == money_text(cents as int),
{
    let is_negative = cents < 0;
    let abs_cents: u64 = if is_negative {
        (-cents) as u64
    } else {
        cents as u64
    };
    let units = abs_cents / 100;
    let rest = abs_cents % 100;
    let digits = decimal_digits(units);
    let grouped = group_digits(&digits);
    let mut s = String::new();
    if is_negative {
        push_char(&mut s, '-');
    }
    push_char(&mut s, '$');
    push_chars(&mut s, &grouped);
    let ghost before_rest = s@;
    if rest != 0 {
        push_char(&mut s, ',');
        if rest < 10 {
            push_char(&mut s, '0');
            push_char(&mut s, digit_of(rest));
            assert(s@ == before_rest + (seq![','] + two_digit_text(rest as nat)));
        } else {
            let d = decimal_digits(rest);
            push_chars(&mut s, &d);
            assert(s@ == before_rest + (seq![','] + two_digit_text(rest as nat)));
        }
    } else {
        assert(s@ == before_rest + Seq::<char>::empty());
    }
    proof {
        assert(abs(cents as int) == abs_cents);
        let sign: Seq<char> = if cents < 0 {
            seq!['-']
        } else {
            seq![]
        };
        assert(before_rest == sign + seq!['$'] + group_thousands(decimal_text(units as nat)));
    }
    s
}

/// A negative amount is shown as its opposite with a leading minus sign.
pub proof fn lemma_money_text_negation(cents: int)
    requires
        cents > 0,
    ensures
        money_text(-cents) == seq!['-'] + money_text(cents),
{
    let a = abs(cents);
    assert(abs(-cents) == a);
    let tail = seq!['$'] + group_thousands(decimal_text((a / 100) as nat)) + (if a % 100 == 0 {
        Seq::<char>::empty()
    } else {
        seq![','] + two_digit_text((a % 100) as nat)
    });
    assert(money_text(cents) == Seq::<char>::empty() + seq!['$'] + group_thousands(
        decimal_text((a / 100) as nat),
    ) + (if a % 100 == 0 {
        Seq::<char>::empty()
    } else {
        seq![','] + two_digit_text((a % 100) as nat)
    }));
    assert(money_text(cents) == tail);
    assert(money_text(-cents) == seq!['-'] + tail);
}

} // verus!
