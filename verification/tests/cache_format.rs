use messenger_core::store::{parse_u64_or_zero, u64_to_decimal, DbOTP};

#[test]
fn decimal_rendering_is_exact() {
    assert_eq!(u64_to_decimal(0), "0");
    assert_eq!(u64_to_decimal(7), "7");
    assert_eq!(u64_to_decimal(48213), "48213");
    assert_eq!(u64_to_decimal(u64::MAX), "18446744073709551615");
}

#[test]
fn decimal_parsing_is_exact_and_falls_back_to_zero() {
    assert_eq!(parse_u64_or_zero("0"), 0);
    assert_eq!(parse_u64_or_zero("048213"), 48213);
    assert_eq!(parse_u64_or_zero("18446744073709551615"), u64::MAX);
    // empty, non-digit and overflowing strings all read as zero
    assert_eq!(parse_u64_or_zero(""), 0);
    assert_eq!(parse_u64_or_zero("12a"), 0);
    assert_eq!(parse_u64_or_zero("18446744073709551616"), 0);
}

#[test]
fn cache_wire_form_round_trips() {
    let rec = DbOTP { otp: "048213".to_string(), created_at: 1000 };
    let wire = rec.encode();
    assert_eq!(wire, "048213:1000");
    let back = DbOTP::parse(&wire).unwrap();
    assert_eq!(back.otp, "048213");
    assert_eq!(back.created_at, 1000);
}

#[test]
fn cache_wire_form_rejects_a_string_without_separator() {
    assert!(DbOTP::parse("048213").is_none());
    assert!(DbOTP::parse("").is_none());
}

#[test]
fn cache_wire_form_takes_the_first_separator_and_tolerates_bad_tails() {
    let o = DbOTP::parse("ab:cd:12").unwrap();
    assert_eq!(o.otp, "ab");
    // "cd:12" is no number: the issue time reads as zero
    assert_eq!(o.created_at, 0);

    let o = DbOTP::parse(":123").unwrap();
    assert_eq!(o.otp, "");
    assert_eq!(o.created_at, 123);

    let o = DbOTP::parse("048213:").unwrap();
    assert_eq!(o.otp, "048213");
    assert_eq!(o.created_at, 0);
}
