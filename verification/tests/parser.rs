use syslog_rfc3164::ProcIdType;
use syslog_rfc3164::facility::SyslogFacility;
use syslog_rfc3164::message::SyslogMessage;
use syslog_rfc3164::parse_message;
use syslog_rfc3164::parser::parse_hostname;
use syslog_rfc3164::severity::SyslogSeverity;

#[test]
fn test_simple() {
    let msg = parse_message("<1>- - - - - -").expect("Should parse empty message");
    assert!(msg.facility == SyslogFacility::LOG_KERN);
    assert!(msg.severity == SyslogSeverity::SEV_ALERT);
    assert!(msg.timestamp.is_none());
    assert!(msg.hostname.is_none());
}

#[test]
fn test_timestamp_without_year() {
    let msg: SyslogMessage =
        parse_message("<1>Jan 8 12:14:16 host tag -").expect("Should parse empty message");
    let mut tm = time::empty_tm();
    tm.tm_mon = 0;
    tm.tm_mday = 8;
    tm.tm_hour = 12;
    tm.tm_min = 14;
    tm.tm_sec = 16;
    tm.tm_year = time::now().tm_year;

    assert_eq!(msg.timestamp, Some(tm.to_utc().to_timespec().sec));
    assert_eq!(msg.hostname, Some("host".into()));
}

#[test]
fn test_timestamp_with_year_in_message() {
    let msg =
        parse_message("<1>Jan 8 12:14:16 1995 host - - - -").expect("Should parse empty message");
    assert_eq!(msg.timestamp, Some(789567256));
}

#[test]
fn test_parsing_host_and_rest() {
    let data = "host1[123]";
    let res = parse_hostname(&data);
    let (hostname, procid) = res.unwrap();
    assert_eq!(hostname.unwrap(), "host1".to_owned());
    assert_eq!(procid, "[123]".to_owned());
}

#[test]
fn test_complex() {
    let msg = parse_message("<78>Jan  8 12:14:16 2017 host1[123] CROND some_message")
        .expect("Should parse complex message");
    assert_eq!(msg.facility, SyslogFacility::LOG_CRON);
    assert_eq!(msg.severity, SyslogSeverity::SEV_INFO);
    assert_eq!(msg.hostname, Some(String::from("host1")));
    assert_eq!(msg.proc_id, Some(ProcIdType::PID(123)));
    assert_eq!(msg.msg, String::from("CROND some_message"));
    assert_eq!(msg.timestamp, Some(1483877656));
}

#[test]
fn test_other_message() {
    let msg_text = r#"<190>Jan 8 12:14:16 batch6sj - - - [meta sequenceId="21881798" x-group="37051387"][origin x-service="tracking"] metascutellar conversationalist nephralgic exogenetic graphy streng outtaken acouasm amateurism prenotice Lyonese bedull antigrammatical diosphenol gastriloquial bayoneteer sweetener naggy roughhouser dighter addend sulphacid uneffectless ferroprussiate reveal Mazdaist plaudite Australasian distributival wiseman rumness Seidel topazine shahdom sinsion mesmerically pinguedinous ophthalmotonometer scuppler wound eciliate expectedly carriwitchet dictatorialism bindweb pyelitic idic atule kokoon poultryproof rusticial seedlip nitrosate splenadenoma holobenthic uneternal Phocaean epigenic doubtlessly indirection torticollar robomb adoptedly outspeak wappenschawing talalgia Goop domitic savola unstrafed carded unmagnified mythologically orchester obliteration imperialine undisobeyed galvanoplastical cycloplegia quinquennia foremean umbonal marcgraviaceous happenstance theoretical necropoles wayworn Igbira pseudoangelic raising unfrounced lamasary centaurial Japanolatry microlepidoptera"#;
    parse_message(msg_text).expect("should parse as text");
}

#[test]
fn test_bad_pri() {
    let msg = parse_message("<4096>Jan 8 12:14:16 - - - - - -");
    assert!(msg.is_err());
}

#[test]
fn test_good_match() {
    // we should be able to parse RFC3164 messages
    let msg = parse_message("<134>Feb 18 20:53:31 hostname.local nginx: I am a message");
    assert!(!msg.is_err());
}

#[test]
fn test_good_matchy() {
    // we should be able to parse RFC3164 messages
    let msg = parse_message("<190>May 13 21:45:18 coconut hotdog: hi");
    assert!(!msg.is_err());
}
