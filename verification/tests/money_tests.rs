use mango::money::{format_money, int_to_text};

#[test]
fn formats_money_amounts() {
    assert_eq!(format_money(0), "$0");
    assert_eq!(format_money(5), "$0,05");
    assert_eq!(format_money(1550), "$15,50");
    assert_eq!(format_money(10000), "$100");
    assert_eq!(format_money(123456789), "$1.234.567,89");
    assert_eq!(format_money(100000000), "$1.000.000");
    assert_eq!(format_money(-5), "-$0,05");
    assert_eq!(format_money(-99999), "-$999,99");
    assert_eq!(format_money(i64::MAX), "$92.233.720.368.547.758,07");
}

#[test]
fn negative_amounts_mirror_positive_ones() {
    for c in [1i64, 99, 100, 123456, 100000000] {
        assert_eq!(format_money(-c), format!("-{}", format_money(c)));
    }
}

#[test]
fn integers_as_text() {
    assert_eq!(int_to_text(0), "0");
    assert_eq!(int_to_text(2026), "2026");
    assert_eq!(int_to_text(-45), "-45");
    assert_eq!(int_to_text(i64::MIN), "-9223372036854775808");
}
