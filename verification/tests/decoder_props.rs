use syslog_rfc3164::ParseErr;
use syslog_rfc3164::ProcIdType;
use syslog_rfc3164::facility::SyslogFacility;
use syslog_rfc3164::parse_message;
use syslog_rfc3164::parse_message_with_year;
use syslog_rfc3164::parser::parse_hostname;
use syslog_rfc3164::parser::parse_month;
use syslog_rfc3164::parser::parse_num;
use syslog_rfc3164::parser::parse_pri_val;
use syslog_rfc3164::parser::parse_term;
use syslog_rfc3164::parser::parse_timestamp;
use syslog_rfc3164::parser::take_while;
use syslog_rfc3164::severity::SyslogSeverity;

#[test]
fn pri_values_recombine() {
    for n in 0..192 {
        let line = format!("<{}>- - - - - -", n);
        let msg = parse_message(&line).expect("valid priority should decode");
        assert_eq!(msg.facility.to_int() * 8 + msg.severity.to_int(), n);
    }
    for n in [192, 500, 999] {
        let line = format!("<{}>- - - - - -", n);
        let err = parse_message(&line).unwrap_err();
        assert!(matches!(err, ParseErr::BadFacilityInPri));
    }
}

#[test]
fn pri_split_direct() {
    assert_eq!(
        parse_pri_val(78).unwrap(),
        (SyslogSeverity::SEV_INFO, SyslogFacility::LOG_CRON)
    );
    assert_eq!(
        parse_pri_val(0).unwrap(),
        (SyslogSeverity::SEV_EMERG, SyslogFacility::LOG_KERN)
    );
    assert_eq!(
        parse_pri_val(191).unwrap(),
        (SyslogSeverity::SEV_DEBUG, SyslogFacility::LOG_LOCAL7)
    );
    assert!(matches!(parse_pri_val(192), Err(ParseErr::BadFacilityInPri)));
    assert!(matches!(parse_pri_val(-1), Err(ParseErr::BadFacilityInPri)));
}

#[test]
fn dash_placeholders_consume_one_char() {
    let (ts, rest) = parse_timestamp("-rest", 117).unwrap();
    assert!(ts.is_none());
    assert_eq!(rest, "rest");
    let (host, rest) = parse_hostname("-rest").unwrap();
    assert!(host.is_none());
    assert_eq!(rest, "rest");
    let (tag, rest) = parse_term("-rest", 1, 255).unwrap();
    assert!(tag.is_none());
    assert_eq!(rest, "rest");
}

#[test]
fn fixed_year_decode_is_deterministic() {
    // Same calendar fields as the 2017 round trip, with the year supplied by
    // the caller instead of parsed from the line.
    let msg = parse_message_with_year("<1>Jan 8 12:14:16 host tag -", 2017).unwrap();
    assert_eq!(msg.timestamp, Some(1483877656));
    assert_eq!(msg.hostname, Some("host".to_owned()));
    assert_eq!(msg.proc_id, Some(ProcIdType::Name("tag".to_owned())));
}

#[test]
fn long_tokens_are_bounded_at_255() {
    let long = "a".repeat(256);
    let (cap, rest) = parse_hostname(&long[..]).unwrap();
    assert_eq!(cap.unwrap().len(), 255);
    assert_eq!(rest, "a");
    let (cap, rest) = parse_term(&long[..], 1, 255).unwrap();
    assert_eq!(cap.unwrap().len(), 255);
    assert_eq!(rest, "a");
}

#[test]
fn empty_capture_is_too_short() {
    // A bracket terminates the hostname token; before its first character it
    // leaves nothing to capture.
    assert!(matches!(parse_hostname("[123]"), Err(ParseErr::TooFewDigits)));
    assert!(matches!(parse_term(" x", 1, 255), Err(ParseErr::TooFewDigits)));
}

#[test]
fn structured_data_suffix_stays_in_message_body() {
    let msg = parse_message("<78>Jan  8 12:14:16 2017 host1[123] CROND hello [meta sequenceId=\"29\"] there")
        .expect("line with structured-data-looking suffix should decode");
    assert_eq!(msg.msg, "CROND hello [meta sequenceId=\"29\"] there");
}

#[test]
fn tag_run_to_end_of_input_is_the_token() {
    let (tag, rest) = parse_term("hello", 1, 255).unwrap();
    assert_eq!(tag.unwrap(), "hello");
    assert_eq!(rest, "");
    let (tag, rest) = parse_term("", 1, 255).unwrap();
    assert!(tag.is_none());
    assert_eq!(rest, "");
}

#[test]
fn hostname_run_to_end_of_input_is_an_error() {
    assert!(matches!(parse_hostname("justahost"), Err(ParseErr::UnexpectedEndOfInput)));
}

#[test]
fn numeric_field_errors() {
    assert!(matches!(parse_num(">", 1, 3), Err(ParseErr::TooFewDigits)));
    assert!(matches!(parse_num("12", 1, 3), Err(ParseErr::UnexpectedEndOfInput)));
    let (v, rest) = parse_num("12abc", 1, 3).unwrap();
    assert_eq!(v, 12);
    assert_eq!(rest, "abc");
    let (v, rest) = parse_num("0042x", 2, 4).unwrap();
    assert_eq!(v, 42);
    assert_eq!(rest, "x");
    assert!(matches!(parse_num("1234", 1, 3), Err(ParseErr::TooManyDigits)));
    assert!(matches!(parse_num("99999999999!", 1, 11), Err(ParseErr::IntConversionErr)));
}

#[test]
fn month_names_map_to_numbers() {
    let months = [
        "Jan", "Feb", "Mar", "Apr", "May", "Jun", "Jul", "Aug", "Sep", "Oct", "Nov", "Dec",
    ];
    for (i, name) in months.iter().enumerate() {
        let input = format!("{} ", name);
        let (num, rest) = parse_month(&input).unwrap();
        assert_eq!(num, (i + 1) as i32);
        assert_eq!(rest, " ");
    }
    assert!(matches!(parse_month("Xyz "), Err(ParseErr::MonthConversionErr(t)) if t == "Xyz"));
    assert!(matches!(parse_month("Ja"), Err(ParseErr::UnexpectedEndOfInput)));
}

#[test]
fn assembler_error_positions() {
    assert!(matches!(parse_message(""), Err(ParseErr::UnexpectedEndOfInput)));
    assert!(matches!(parse_message("x<1>"), Err(ParseErr::ExpectedTokenErr('<'))));
    assert!(matches!(parse_message("<>"), Err(ParseErr::TooFewDigits)));
    // The priority token has a fourth digit past the three-digit cap.
    assert!(matches!(
        parse_message("<4096>Jan 8 12:14:16 - - - - - -"),
        Err(ParseErr::TooManyDigits)
    ));
    assert!(matches!(
        parse_message("<1>Xyz 8 12:14:16 - - - - - -"),
        Err(ParseErr::MonthConversionErr(t)) if t == "Xyz"
    ));
}

#[test]
fn five_digit_year_probe_falls_back() {
    // Five digits after the seconds cannot be the four-digit year, so the
    // probe fails with too many digits, the decode falls back to the
    // supplied year, and the digits become the hostname.
    let msg = parse_message_with_year("<1>Jan 8 12:14:16 12345 host tag -", 2020).unwrap();
    assert_eq!(msg.hostname, Some("12345".to_owned()));
    assert_eq!(msg.proc_id, Some(ProcIdType::Name("host".to_owned())));
    assert_eq!(msg.tag, Some("tag".to_owned()));
    assert_eq!(msg.msg, "-");
    let with_year = parse_message_with_year("<1>Jan 8 12:14:16 2020 host tag -", 2017).unwrap();
    assert_eq!(msg.timestamp, with_year.timestamp);
}

#[test]
fn take_while_splits_at_first_mismatch() {
    let (cap, rest) = take_while("abc123", |c: char| c.is_ascii_alphabetic(), 10);
    assert_eq!(cap, "abc");
    assert_eq!(rest.unwrap(), "123");
    let (cap, rest) = take_while("abcdef", |c: char| c.is_ascii_alphabetic(), 3);
    assert_eq!(cap, "abc");
    assert_eq!(rest.unwrap(), "def");
    let (cap, rest) = take_while("abc", |c: char| c.is_ascii_alphabetic(), 10);
    assert_eq!(cap, "");
    assert!(rest.is_none());
}

#[test]
fn numeric_proc_id_prefers_pid_variant() {
    let msg = parse_message_with_year("<1>- host[123] tag -", 2020).unwrap();
    assert_eq!(msg.hostname, Some("host".to_owned()));
    assert_eq!(msg.proc_id, Some(ProcIdType::PID(123)));
    let msg = parse_message_with_year("<1>- host[abc] tag -", 2020).unwrap();
    assert_eq!(msg.proc_id, Some(ProcIdType::Name("abc".to_owned())));
}

#[test]
fn display_names_are_lowercase() {
    assert_eq!(SyslogSeverity::SEV_INFO.name(), "info");
    assert_eq!(SyslogSeverity::SEV_ALERT.name(), "alert");
    assert_eq!(SyslogFacility::LOG_KERN.name(), "kern");
    assert_eq!(SyslogFacility::LOG_CRON.name(), "cron");
    assert_eq!(SyslogFacility::from_int(9), Some(SyslogFacility::LOG_CRON));
    assert_eq!(SyslogSeverity::from_int(8), None);
    assert_eq!(SyslogFacility::from_int(24), None);
}
