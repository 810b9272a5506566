use poc1to2::decimal::{parse_i64, parse_u64, u64_to_string};
use poc1to2::name::split_char;
use poc1to2::plot::{PlotError, PlotName};

#[test]
fn split_keeps_every_segment() {
    let parts = split_char("a_b__c", '_');
    assert_eq!(parts, vec!["a", "b", "", "c"]);
}

#[test]
fn split_without_separator_is_whole() {
    assert_eq!(split_char("abc", '_'), vec!["abc"]);
}

#[test]
fn split_of_empty_is_one_empty_segment() {
    assert_eq!(split_char("", '_'), vec![""]);
}

#[test]
fn renders_zero_and_max() {
    assert_eq!(u64_to_string(0), "0");
    assert_eq!(u64_to_string(10), "10");
    assert_eq!(u64_to_string(18446744073709551615), "18446744073709551615");
}

#[test]
fn parse_u64_accepts_digits_and_plus() {
    assert_eq!(parse_u64("0"), Some(0));
    assert_eq!(parse_u64("+5"), Some(5));
    assert_eq!(parse_u64("11253871103436815155"), Some(11253871103436815155));
    assert_eq!(parse_u64("18446744073709551615"), Some(u64::MAX));
}

#[test]
fn parse_u64_rejects_bad_fields() {
    assert_eq!(parse_u64(""), None);
    assert_eq!(parse_u64("+"), None);
    assert_eq!(parse_u64("-1"), None);
    assert_eq!(parse_u64("12a"), None);
    assert_eq!(parse_u64("18446744073709551616"), None);
}

#[test]
fn parse_i64_handles_signs_and_range() {
    assert_eq!(parse_i64("10"), Some(10));
    assert_eq!(parse_i64("+10"), Some(10));
    assert_eq!(parse_i64("-10"), Some(-10));
    assert_eq!(parse_i64("9223372036854775807"), Some(i64::MAX));
    assert_eq!(parse_i64("-9223372036854775808"), Some(i64::MIN));
    assert_eq!(parse_i64("9223372036854775808"), None);
    assert_eq!(parse_i64("-9223372036854775809"), None);
    assert_eq!(parse_i64("-"), None);
    assert_eq!(parse_i64(""), None);
}

#[test]
fn decodes_four_fields() {
    let pn = PlotName::parse("11253871103436815155_0_10_10").unwrap();
    assert_eq!(pn.id, 11253871103436815155);
    assert_eq!(pn.offset, 0);
    assert_eq!(pn.nonces, 10);
    assert_eq!(pn.stagger, 10);
}

#[test]
fn extra_fields_are_ignored() {
    let pn = PlotName::parse("1_2_3_3_junk").unwrap();
    assert_eq!(pn.id, 1);
    assert_eq!(pn.offset, 2);
    assert_eq!(pn.nonces, 3);
    assert_eq!(pn.stagger, 3);
}

#[test]
fn rejects_non_numeric_account_id() {
    assert_eq!(PlotName::parse("abc_0_10_10"), Err(PlotError::BadId));
}

#[test]
fn rejects_too_few_fields() {
    assert_eq!(PlotName::parse("1_2_3"), Err(PlotError::WrongFormat));
    assert_eq!(PlotName::parse(""), Err(PlotError::WrongFormat));
}

#[test]
fn rejects_bad_offset_nonces_stagger() {
    assert_eq!(PlotName::parse("1_x_3_4"), Err(PlotError::BadOffset));
    assert_eq!(PlotName::parse("1_2_x_4"), Err(PlotError::BadNonces));
    assert_eq!(PlotName::parse("1_2_3_x"), Err(PlotError::BadStagger));
}
