use session_tracker::calendar::{
    civil_from_epoch_millis, is_leap, month_length, year_length, CivilDateTime, MAX_EPOCH_MILLIS,
};
use session_tracker::rfc3339::{format_civil, format_timestamp_millis, get_current_timestamp};

fn is_ascii_digit(c: char) -> bool {
    ('0'..='9').contains(&c)
}

fn has_rfc3339_shape(s: &str) -> bool {
    let cs: Vec<char> = s.chars().collect();
    if cs.len() != 24 {
        return false;
    }
    for (i, c) in cs.iter().enumerate() {
        let ok = match i {
            4 | 7 => *c == '-',
            10 => *c == 'T',
            13 | 16 => *c == ':',
            19 => *c == '.',
            23 => *c == 'Z',
            _ => is_ascii_digit(*c),
        };
        if !ok {
            return false;
        }
    }
    true
}

#[test]
fn epoch_start_formats_as_nineteen_seventy() {
    assert_eq!(format_timestamp_millis(0), "1970-01-01T00:00:00.000Z");
}

#[test]
fn known_instant_formats_exactly() {
    assert_eq!(
        format_timestamp_millis(1_000_000_000_555),
        "2001-09-09T01:46:40.555Z"
    );
}

#[test]
fn leap_day_formats_exactly() {
    assert_eq!(
        format_timestamp_millis(1_709_210_096_789),
        "2024-02-29T12:34:56.789Z"
    );
}

#[test]
fn century_leap_day_formats_exactly() {
    assert_eq!(
        format_timestamp_millis(951_868_799_999),
        "2000-02-29T23:59:59.999Z"
    );
}

#[test]
fn last_representable_millisecond() {
    assert_eq!(
        format_timestamp_millis(MAX_EPOCH_MILLIS - 1),
        "9999-12-31T23:59:59.999Z"
    );
}

#[test]
fn year_boundary_formats_exactly() {
    assert_eq!(
        format_timestamp_millis(946_684_799_001),
        "1999-12-31T23:59:59.001Z"
    );
}

#[test]
fn formatting_agrees_with_chrono() {
    let samples: [u64; 7] = [
        0,
        1,
        999,
        1_000_000_000_555,
        1_709_210_096_789,
        2_147_483_647_000,
        MAX_EPOCH_MILLIS - 1,
    ];
    for &ms in samples.iter() {
        let theirs = chrono::DateTime::from_timestamp_millis(ms as i64)
            .unwrap()
            .to_rfc3339_opts(chrono::SecondsFormat::Millis, true);
        assert_eq!(format_timestamp_millis(ms), theirs);
    }
}

#[test]
fn current_timestamp_has_rfc3339_shape() {
    let s = get_current_timestamp();
    assert!(has_rfc3339_shape(&s));
}

#[test]
fn current_timestamp_tracks_the_clock() {
    let before = chrono::Utc::now().timestamp_millis();
    let s = get_current_timestamp();
    let after = chrono::Utc::now().timestamp_millis();
    let parsed = chrono::DateTime::parse_from_rfc3339(&s).unwrap();
    let got = parsed.timestamp_millis();
    assert!(before <= got && got <= after);
}

#[test]
fn civil_conversion_known_values() {
    let c = civil_from_epoch_millis(1_709_210_096_789);
    assert_eq!(
        (c.year, c.month, c.day, c.hour, c.minute, c.second, c.millisecond),
        (2024, 2, 29, 12, 34, 56, 789)
    );
    let e = civil_from_epoch_millis(0);
    assert_eq!(
        (e.year, e.month, e.day, e.hour, e.minute, e.second, e.millisecond),
        (1970, 1, 1, 0, 0, 0, 0)
    );
}

#[test]
fn format_civil_renders_all_fields() {
    let c = CivilDateTime {
        year: 2038,
        month: 1,
        day: 19,
        hour: 3,
        minute: 14,
        second: 7,
        millisecond: 0,
    };
    assert_eq!(format_civil(&c), "2038-01-19T03:14:07.000Z");
}

#[test]
fn leap_year_rule() {
    assert!(is_leap(2000));
    assert!(is_leap(2024));
    assert!(!is_leap(1900));
    assert!(!is_leap(2023));
    assert_eq!(year_length(2000), 366);
    assert_eq!(year_length(1900), 365);
}

#[test]
fn month_lengths() {
    assert_eq!(month_length(2023, 2), 28);
    assert_eq!(month_length(2024, 2), 29);
    assert_eq!(month_length(2024, 4), 30);
    assert_eq!(month_length(2024, 12), 31);
}
