use smark::datetime::{
    parse_datetime, parse_rfc, DateTimeFormat, DateTimeWithFormat, UtcDateTime,
};

const RFC3329: &str = "2022-01-11T19:08:09+00:00";
const RFC2822: &str = "Tue, 11 Jan 2022 19:09:09 +0000";
const SUPPORT_DATETIME_0: &str = "2022/01/11 19:22:50";
const SUPPORT_DATE_0: &str = "2022/01/11";

#[test]
fn test_parse_rfc() {
    let (fmt, _) = parse_rfc(RFC3329).unwrap();
    assert_eq!(fmt, DateTimeFormat::RFC3339);
    let (fmt, _) = parse_rfc(RFC2822).unwrap();
    assert_eq!(fmt, DateTimeFormat::RFC2822);
}

#[test]
fn test_parse_datetime() {
    let (fmt, datetime) = parse_datetime(RFC3329, None).unwrap();
    assert_eq!(fmt, DateTimeFormat::RFC3339);
    assert_eq!(fmt.format(&datetime), RFC3329);
    let (fmt, datetime) = parse_datetime(RFC2822, None).unwrap();
    assert_eq!(fmt, DateTimeFormat::RFC2822);
    assert_eq!(fmt.format(&datetime), RFC2822);
    let (fmt, datetime) = parse_datetime(SUPPORT_DATETIME_0, None).unwrap();
    assert_eq!(
        fmt,
        DateTimeFormat::Custom("%Y/%m/%d %H:%M:%S".to_string())
    );
    assert_eq!(fmt.format(&datetime), SUPPORT_DATETIME_0)
}

#[test]
fn test_parse_date() {
    let (fmt, datetime) = parse_datetime(SUPPORT_DATE_0, None).unwrap();
    assert_eq!(fmt, DateTimeFormat::Custom("%Y/%m/%d".to_string()));
    assert_eq!(fmt.format(&datetime), SUPPORT_DATE_0)
}

#[test]
fn test_roundtrip_rfc3339_from_instant() {
    let dt = UtcDateTime {
        year: 2022,
        month: 1,
        day: 11,
        hour: 19,
        minute: 8,
        second: 9,
    };
    let text = DateTimeFormat::RFC3339.format(&dt);
    assert_eq!(text, RFC3329);
    let (fmt, parsed) = parse_rfc(&text).unwrap();
    assert_eq!(fmt, DateTimeFormat::RFC3339);
    assert_eq!(parsed, dt);
}

#[test]
fn test_roundtrip_rfc2822_from_instant() {
    let dt = UtcDateTime {
        year: 2022,
        month: 1,
        day: 11,
        hour: 19,
        minute: 9,
        second: 9,
    };
    let text = DateTimeFormat::RFC2822.format(&dt);
    assert_eq!(text, RFC2822);
    let (fmt, parsed) = parse_rfc(&text).unwrap();
    assert_eq!(fmt, DateTimeFormat::RFC2822);
    assert_eq!(parsed, dt);
}

#[test]
fn test_roundtrip_custom_pattern() {
    let dt = UtcDateTime {
        year: 2022,
        month: 1,
        day: 11,
        hour: 19,
        minute: 22,
        second: 50,
    };
    let fmt = DateTimeFormat::Custom("%Y/%m/%d %H:%M:%S".to_string());
    let text = fmt.format(&dt);
    assert_eq!(text, SUPPORT_DATETIME_0);
    let (parsed_fmt, parsed) = parse_datetime(&text, None).unwrap();
    assert_eq!(parsed_fmt, fmt);
    assert_eq!(parsed, dt);
}

#[test]
fn test_offset_is_normalized_to_utc() {
    let (_, dt) = parse_rfc("2022-01-11T19:08:09+09:00").unwrap();
    assert_eq!(
        dt,
        UtcDateTime {
            year: 2022,
            month: 1,
            day: 11,
            hour: 10,
            minute: 8,
            second: 9,
        }
    );
}

#[test]
fn test_rejects_nonsense() {
    assert!(parse_datetime("never oclock", None).is_err());
    assert!(parse_rfc("2022/01/11").is_err());
    assert!(parse_datetime("2022-13-40", None).is_err());
}

#[test]
fn test_marker_quirk() {
    assert_eq!(DateTimeFormat::RFC3339.to_string(), "RFC3329");
    assert_eq!(DateTimeFormat::from_marker("RFC3329"), DateTimeFormat::RFC3339);
    assert_eq!(DateTimeFormat::from_marker("RFC2822"), DateTimeFormat::RFC2822);
    assert_eq!(
        DateTimeFormat::from_marker("%Y/%m/%d"),
        DateTimeFormat::Custom("%Y/%m/%d".to_string())
    );
}

#[test]
fn test_from_str_keeps_notation() {
    let d = DateTimeWithFormat::from_str("2022/01/11").unwrap();
    assert_eq!(d.format(), DateTimeFormat::Custom("%Y/%m/%d".to_string()));
    assert_eq!(d.to_string(), "2022/01/11");
}
