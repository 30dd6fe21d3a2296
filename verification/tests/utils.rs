use chrono::{Duration, Utc};
use startpage::errors::ServiceError;
use startpage::utils::{
    calculate_expires, duration_from_captures, expires_at, icon_url, is_absolute_url, keep_or,
    parse_duration, seconds_per_unit, standardize_url, EXPIRES_PATTERN, MAX_SECONDS,
};

/// Runs `check` within one second of the clock: the comparison of two
/// readings of the clock is only fair when no second began between them.
fn within_one_second(check: impl Fn()) {
    loop {
        let before = Utc::now().timestamp();
        check();
        if Utc::now().timestamp() == before {
            return;
        }
    }
}

/// Reads the clock until the second is young.
fn wait_for_a_fresh_second() {
    while Utc::now().timestamp_subsec_millis() >= 500 {}
}

#[test]
fn test_calculate_expires() {
    wait_for_a_fresh_second();
    assert_eq!(
        calculate_expires("10s").unwrap(),
        (Utc::now() + Duration::seconds(10)).timestamp()
    );
    wait_for_a_fresh_second();
    assert_eq!(
        calculate_expires("1m").unwrap(),
        (Utc::now() + Duration::minutes(1)).timestamp()
    );
    wait_for_a_fresh_second();
    assert_eq!(
        calculate_expires("1h").unwrap(),
        (Utc::now() + Duration::hours(1)).timestamp()
    );
    wait_for_a_fresh_second();
    assert_eq!(
        calculate_expires("1d").unwrap(),
        (Utc::now() + Duration::days(1)).timestamp()
    );
    wait_for_a_fresh_second();
    assert_eq!(
        calculate_expires("1w").unwrap(),
        (Utc::now() + Duration::weeks(1)).timestamp()
    );
    wait_for_a_fresh_second();
    assert_eq!(
        calculate_expires("1M").unwrap(),
        (Utc::now() + Duration::days(30)).timestamp()
    );
    wait_for_a_fresh_second();
    assert_eq!(
        calculate_expires("1y").unwrap(),
        (Utc::now() + Duration::days(365)).timestamp()
    );
}

#[test]
fn calculate_expires_lies_the_lifetime_after_the_clock() {
    within_one_second(|| {
        let now = Utc::now().timestamp();
        let r = calculate_expires("90s").unwrap();
        assert!(r == now + 90 || r == now + 91);
    });
    let before = Utc::now().timestamp();
    let r = calculate_expires("2h").unwrap();
    let after = Utc::now().timestamp();
    assert!(before + 7200 <= r && r <= after + 7200);
}

#[test]
fn test_standardize_url() {
    assert_eq!(
        standardize_url(
            "https://avatars.githubusercontent.com/u/2804393?v=4",
            "/upload"
        ),
        Some(String::from(
            "https://avatars.githubusercontent.com/u/2804393?v=4"
        ))
    );

    assert_eq!(
        standardize_url(
            "/upload/8107ca46c91e1372377b573f912eae1a83cbf1de4e117a33a0daf7d2638a40d2.png",
            "/upload"
        ),
        Some(String::from(
            "8107ca46c91e1372377b573f912eae1a83cbf1de4e117a33a0daf7d2638a40d2.png"
        ))
    );

    assert_eq!(
        standardize_url(
            "8107ca46c91e1372377b573f912eae1a83cbf1de4e117a33a0daf7d2638a40d2.png",
            "/upload"
        ),
        Some(String::from(
            "8107ca46c91e1372377b573f912eae1a83cbf1de4e117a33a0daf7d2638a40d2.png"
        ))
    );
}

#[test]
fn standardize_url_has_no_reference_for_a_sibling_of_the_base() {
    assert_eq!(standardize_url("/uploads/a.png", "/upload"), None);
    assert_eq!(standardize_url("/upload", "/upload"), None);
    assert_eq!(
        standardize_url("http://example.org/upload/a.png", "/upload"),
        Some(String::from("http://example.org/upload/a.png"))
    );
}

#[test]
fn standardize_url_undoes_icon_url() {
    let url = icon_url("a.png", "/upload");
    assert_eq!(url, "/upload/a.png");
    assert_eq!(standardize_url(&url, "/upload"), Some(String::from("a.png")));
}

#[test]
fn icon_url_keeps_full_urls_and_prefixes_file_names() {
    assert_eq!(icon_url("http://a/b.png", "/upload"), "http://a/b.png");
    assert_eq!(icon_url("https://a/b.png", "/upload"), "https://a/b.png");
    assert_eq!(icon_url("b.png", "/upload"), "/upload/b.png");
    assert_eq!(icon_url("httpd.png", "/upload"), "/upload/httpd.png");
    assert_eq!(icon_url("", "/upload"), "/upload/");
    assert!(is_absolute_url("http://x"));
    assert!(is_absolute_url("https://x"));
    assert!(!is_absolute_url("http:/x"));
    assert!(!is_absolute_url("ftp://x"));
}

#[test]
fn keep_or_ignores_absent_and_empty_texts() {
    let current = String::from("old");
    assert_eq!(keep_or(&current, None), "old");
    assert_eq!(keep_or(&current, Some("")), "old");
    assert_eq!(keep_or(&current, Some("new")), "new");
}

#[test]
fn parse_duration_reads_every_unit() {
    assert_eq!(parse_duration("10s"), Ok(10));
    assert_eq!(parse_duration("2m"), Ok(120));
    assert_eq!(parse_duration("3h"), Ok(10800));
    assert_eq!(parse_duration("1d"), Ok(86400));
    assert_eq!(parse_duration("1w"), Ok(604800));
    assert_eq!(parse_duration("1M"), Ok(2592000));
    assert_eq!(parse_duration("1y"), Ok(31536000));
    assert_eq!(parse_duration("0s"), Ok(0));
    assert_eq!(parse_duration("007s"), Ok(7));
}

#[test]
fn parse_duration_refuses_other_texts() {
    let invalid = Err(ServiceError::FormatError(String::from(
        "Invalid expires format",
    )));
    assert_eq!(parse_duration(""), invalid);
    assert_eq!(parse_duration("10"), invalid);
    assert_eq!(parse_duration("s"), invalid);
    assert_eq!(parse_duration("10x"), invalid);
    assert_eq!(parse_duration("10 s"), invalid);
    assert_eq!(parse_duration("10s "), invalid);
    assert_eq!(parse_duration("-10s"), invalid);
    assert_eq!(parse_duration("+10s"), invalid);
    assert_eq!(parse_duration("10ss"), invalid);
    assert_eq!(parse_duration("1.5h"), invalid);
}

#[test]
fn parse_duration_reports_numbers_it_cannot_hold() {
    assert!(matches!(
        parse_duration("99999999999999999999999999999s"),
        Err(ServiceError::FormatError(_))
    ));
    // Digits of another script match the pattern and are no number.
    assert!(matches!(
        parse_duration("\u{0661}\u{0662}s"),
        Err(ServiceError::FormatError(_))
    ));
}

#[test]
fn parse_duration_stops_at_the_longest_lifetime() {
    assert_eq!(MAX_SECONDS, i64::MAX / 1000);
    assert_eq!(parse_duration("9223372036854775s"), Ok(9223372036854775));
    assert_eq!(
        parse_duration("9223372036854776s"),
        Err(ServiceError::FormatError(String::from(
            "Expires out of range"
        )))
    );
    assert_eq!(
        parse_duration("292471208678y"),
        Err(ServiceError::FormatError(String::from(
            "Expires out of range"
        )))
    );
    assert_eq!(Duration::seconds(MAX_SECONDS).num_seconds(), MAX_SECONDS);
}

#[test]
fn duration_from_captures_reads_groups() {
    let groups = vec![
        Some(String::from("15m")),
        Some(String::from("15")),
        Some(String::from("m")),
    ];
    assert_eq!(duration_from_captures(&groups), Ok(900));
    let plus = vec![None, Some(String::from("+3")), Some(String::from("h"))];
    assert_eq!(duration_from_captures(&plus), Ok(10800));
}

#[test]
fn duration_from_captures_refuses_missing_groups_and_units() {
    let invalid = Err(ServiceError::FormatError(String::from(
        "Invalid expires format",
    )));
    assert_eq!(duration_from_captures(&vec![]), invalid);
    assert_eq!(duration_from_captures(&vec![None, None, None]), invalid);
    assert_eq!(
        duration_from_captures(&vec![None, Some(String::from("1"))]),
        invalid
    );
    assert_eq!(
        duration_from_captures(&vec![None, Some(String::from("1")), None]),
        invalid
    );
    assert_eq!(
        duration_from_captures(&vec![
            None,
            Some(String::from("1")),
            Some(String::from("q"))
        ]),
        invalid
    );
    assert_eq!(
        duration_from_captures(&vec![
            None,
            Some(String::from("1")),
            Some(String::from("ms"))
        ]),
        invalid
    );
}

#[test]
fn duration_from_captures_reports_a_bad_number_before_a_bad_unit() {
    let r = duration_from_captures(&vec![
        None,
        Some(String::from("1x")),
        Some(String::from("q")),
    ]);
    let expected = "1x".parse::<usize>().unwrap_err().to_string();
    assert_eq!(r, Err(ServiceError::FormatError(expected)));
    let empty = duration_from_captures(&vec![None, Some(String::new()), Some(String::from("s"))]);
    let expected = "".parse::<usize>().unwrap_err().to_string();
    assert_eq!(empty, Err(ServiceError::FormatError(expected)));
}

#[test]
fn seconds_per_unit_knows_seven_units() {
    assert_eq!(seconds_per_unit("s"), Some(1));
    assert_eq!(seconds_per_unit("m"), Some(60));
    assert_eq!(seconds_per_unit("h"), Some(3600));
    assert_eq!(seconds_per_unit("d"), Some(86400));
    assert_eq!(seconds_per_unit("w"), Some(604800));
    assert_eq!(seconds_per_unit("M"), Some(2592000));
    assert_eq!(seconds_per_unit("y"), Some(31536000));
    assert_eq!(seconds_per_unit("S"), None);
    assert_eq!(seconds_per_unit(""), None);
}

#[test]
fn expires_at_adds_and_refuses_overflow() {
    assert_eq!(expires_at(1_700_000_000, 3600), Ok(1_700_003_600));
    assert_eq!(expires_at(-5, 5), Ok(0));
    assert_eq!(
        expires_at(i64::MAX, 1),
        Err(ServiceError::FormatError(String::from(
            "Expires out of range"
        )))
    );
}

#[test]
fn expires_pattern_is_a_number_and_a_unit() {
    assert_eq!(EXPIRES_PATTERN, r"^(\d+)([smhdwMy])$");
}

#[test]
fn calculate_expires_refuses_what_parse_duration_refuses() {
    assert_eq!(
        calculate_expires("soon"),
        Err(ServiceError::FormatError(String::from(
            "Invalid expires format"
        )))
    );
}
