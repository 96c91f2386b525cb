use chrono::{DateTime, Utc};
use plojo::telemetry::raw::{
    content_from_groups, parse_decimal_u32, parse_payload, parse_raw, unescape, RawError,
};
use plojo::telemetry::{Content, LogEntry};

fn millis(s: &str) -> i64 {
    s.parse::<DateTime<Utc>>().unwrap().timestamp_millis()
}

#[test]
fn parse_line_escaping() {
    assert_eq!(
        parse_raw(r#"2020-11-29T16:20:50.529-08:00 Stroke("EU") => [Replace(0, " haven\'t")]"#)
            .unwrap(),
        LogEntry {
            time: millis("2020-11-29T16:20:50.529-08:00"),
            stroke: "EU".to_string(),
            content: Content::Replace {
                text: r#" haven't"#.to_string(),
                backspace_num: 0,
            },
        }
    );
    assert_eq!(
        parse_raw(r#"2020-11-29T16:20:50.529-08:00 Stroke("KW-GS") => [Replace(0, " \"")]"#)
            .unwrap(),
        LogEntry {
            time: millis("2020-11-29T16:20:50.529-08:00"),
            stroke: "KW-GS".to_string(),
            content: Content::Replace {
                text: r#" ""#.to_string(),
                backspace_num: 0,
            },
        }
    );
}

#[test]
fn parse_line_empty() {
    assert_eq!(
        parse_raw(r#"2020-11-29T16:20:50.529-08:00 Stroke("*") => [Replace(3, "")]"#).unwrap(),
        LogEntry {
            time: millis("2020-11-29T16:20:50.529-08:00"),
            stroke: "*".to_string(),
            content: Content::Replace {
                text: r#""#.to_string(),
                backspace_num: 3,
            },
        }
    );
    assert_eq!(
        parse_raw(r#"2020-11-29T16:20:50.529-08:00 Stroke("KPA") => [NoOp]"#).unwrap(),
        LogEntry {
            time: millis("2020-11-29T16:20:50.529-08:00"),
            stroke: "KPA".to_string(),
            content: Content::NoOp,
        }
    );
}

#[test]
fn parse_lines_commands() {
    assert_eq!(
        parse_raw(r#"2020-12-01T21:26:55.194-08:00 Stroke("SRO*PL") => [Shell("osascript", ["-e", "set volume output volume (output volume of (get volume settings) - 5)"])]"#).unwrap(),
        LogEntry {
            time: millis("2020-12-01T21:26:55.194-08:00"),
            stroke: "SRO*PL".to_string(),
            content: Content::Command,
        }
    );
    assert_eq!(
        parse_raw(r#"2020-12-12T12:59:48.940-08:00 Stroke("PHR*UP") => [Replace(0, "ag -iQ \'\"\"\' --ignore dict_full.json ~/plojo/cli/runtime_files/"), Keys(Layout('a'), [Control]), Keys(Special(RightArrow), [Alt]), Keys(Special(RightArrow), [])]"#).unwrap(),
        LogEntry {
            time: millis("2020-12-12T12:59:48.940-08:00"),
            stroke: "PHR*UP".to_string(),
            content: Content::Command,
        }
    );
}

#[test]
fn parse_raw_errors() {
    assert_eq!(parse_raw("not a log line"), Err(RawError::RegexDoesNotMatch));
    assert_eq!(
        parse_raw(r#"yesterday Stroke("KPA") => [NoOp]"#),
        Err(RawError::BadTime)
    );
    assert_eq!(
        parse_raw(r#"2020-11-29T16:20:50.529-08:00 Stroke("KPA") => [Replace(99999999999, "a")]"#),
        Err(RawError::BadNumber)
    );
    assert_eq!(RawError::BadNumber.to_string(), "BadNumber");
}

#[test]
fn raw_time_in_utc() {
    // 16:20:50.529 at -08:00 is 00:20:50.529 the next day in UTC
    let entry = parse_raw(r#"2020-11-29T16:20:50.529-08:00 Stroke("KPA") => [NoOp]"#).unwrap();
    assert_eq!(entry.time, 1606695650529);
}

#[test]
fn payload_kinds() {
    assert_eq!(
        parse_payload(r#"[Replace(12, "a\"b")]"#),
        Ok(Content::Replace {
            backspace_num: 12,
            text: "a\"b".to_string()
        })
    );
    assert_eq!(parse_payload("[NoOp]"), Ok(Content::NoOp));
    assert_eq!(parse_payload("[PrintHello]"), Ok(Content::Command));
    assert_eq!(
        content_from_groups(
            "x",
            Some(vec![Some("x".to_string()), Some("7".to_string()), None])
        ),
        Err(RawError::NoPayload)
    );
}

#[test]
fn decimal_numbers() {
    assert_eq!(parse_decimal_u32("0"), Some(0));
    assert_eq!(parse_decimal_u32("4294967295"), Some(4294967295));
    assert_eq!(parse_decimal_u32("4294967296"), None);
    assert_eq!(parse_decimal_u32(""), None);
    assert_eq!(parse_decimal_u32("1a"), None);
}

#[test]
fn unescape_quotes() {
    assert_eq!(unescape(r#"\"hi\' \\"#), r#""hi' \\"#);
    assert_eq!(unescape(r#"\\""#), r#"\""#);
}
