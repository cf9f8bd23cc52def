use chrono::DateTime;
use core_types::iso8601::iso_normalize;
use core_types::{test_iso_8601, Iso8601};

#[test]
fn test_iso_8601_basic() {
    // Different ways of specifying UTC "Zulu".  A bare timestamp defaults to "Zulu".
    for ts in [
        "2018-10-11T03:23:38 +00:00",
        "2018-10-11T03:23:38Z",
        "2018-10-11T03:23:38",
        "2018-10-11T03:23:38+00",
        "2018-10-11 03:23:38",
    ] {
        let iso = match Iso8601::try_from(ts) {
            Ok(iso) => iso,
            Err(e) => panic!(
                "Unexpected failure of checked DateTime<FixedOffset> try_from: {:?}",
                e
            ),
        };
        assert_eq!(iso.to_string(), "2018-10-11T03:23:38+00:00");
        assert_eq!(
            DateTime::parse_from_rfc3339(&iso.to_string())
                .unwrap()
                .to_rfc3339(),
            "2018-10-11T03:23:38+00:00"
        );
        assert_eq!(iso.to_string(), "2018-10-11T03:23:38+00:00");

        // JSON: a single string scalar holding the canonical text
        let serialized = serde_json::to_string(&iso.to_string()).unwrap();
        assert_eq!(serialized, "\"2018-10-11T03:23:38+00:00\"");
        let text: String = serde_json::from_str(&serialized).unwrap();
        let deserialized = Iso8601::from_str(&text).unwrap();
        assert_eq!(deserialized.to_string(), "2018-10-11T03:23:38+00:00");
        assert_eq!(
            Iso8601::try_from(text.as_str()),
            Iso8601::try_from("2018-10-11T03:23:38+00:00")
        );
    }

    for ts in [
        "20180101 0323",
        "2018-01-01 0323",
        "2018 0323",
        "2018-- 0323",
        "2018-01-01 032300",
        "2018-01-01 03:23",
        "2018-01-01 03:23:00",
        "2018-01-01 03:23:00 Z",
        "2018-01-01 03:23:00 +00",
        "2018-01-01 03:23:00 +00:00",
    ] {
        match Iso8601::try_from(ts) {
            Ok(iso) => assert_eq!(iso.to_string(), "2018-01-01T03:23:00+00:00"),
            Err(e) => panic!(
                "Unexpected failure of checked DateTime<FixedOffset> try_from: {:?}",
                e
            ),
        }
    }

    // Leap seconds and sub-second times, in RFC 3339 and in the looser ISO 8601 form, with the
    // Unicode minus as well as the ASCII hyphen.
    for ts in [
        "2015-02-18T23:59:60.234567-05:00",
        "2015-02-18T23:59:60.234567−05:00",
        "2015-02-18 235960.234567 -05",
        "20150218 235960.234567 −05",
        "20150218 235960,234567 −05",
    ] {
        let iso_8601 = match Iso8601::try_from(ts) {
            Ok(iso) => iso,
            Err(e) => panic!(
                "Unexpected failure of checked DateTime<FixedOffset> try_from: {:?}",
                e
            ),
        };
        assert_eq!(
            DateTime::parse_from_rfc3339(&iso_8601.to_string())
                .unwrap()
                .to_rfc3339(),
            "2015-02-18T23:59:60.234567-05:00"
        );
    }

    // These must fail
    for ts in [
        "boo",
        "2015-02-18T23:59:60.234567-5",
        "2015-02-18 3:59:60-05",
        "2015-2-18 03:59:60-05",
        "2015-2-18 03:59:60+25",
    ] {
        if let Ok(iso) = Iso8601::try_from(ts) {
            panic!(
                "Unexpected success of invalid checked DateTime<FixedOffset> try_from: {:?}",
                format!(
                    "Should not have succeeded in parsing {:?} into {:?}",
                    ts,
                    iso.debug_string()
                )
            );
        }
    }

    // Comparison operators
    assert!(
        Iso8601::try_from("2018-10-11T03:23:38+00:00").unwrap()
            == Iso8601::try_from("2018-10-11T03:23:38Z").unwrap()
    );
    assert!(
        Iso8601::try_from("2018-10-11T03:23:38").unwrap()
            == Iso8601::try_from("2018-10-11T03:23:38Z").unwrap()
    );
    assert!(
        Iso8601::try_from(" 20181011  0323  Z ").unwrap()
            == Iso8601::try_from("2018-10-11T03:23:00Z").unwrap()
    );

    // Fixed-offset instants compare with UTC ones
    assert!(
        Iso8601::try_from("2018-10-11T03:23:38-08:00").unwrap()
            == Iso8601::try_from("2018-10-11T11:23:38Z").unwrap()
    );
    assert!(
        Iso8601::try_from("2018-10-11T03:23:39-08:00").unwrap()
            > Iso8601::try_from("2018-10-11T11:23:38Z").unwrap()
    );
    assert!(
        Iso8601::try_from("2018-10-11T03:23:37-08:00").unwrap()
            < Iso8601::try_from("2018-10-11T11:23:38Z").unwrap()
    );

    match Iso8601::try_from("boo") {
        Ok(iso) => panic!(
            "Unexpected success of checked DateTime<FixedOffset> try_from: {:?}",
            iso.debug_string()
        ),
        Err(e) => assert_eq!(
            e.to_string(),
            "Failed to find ISO 3339 or RFC 8601 timestamp in \"boo\""
        ),
    }
}

#[test]
fn test_iso_8601_sorting() {
    let mut v: Vec<Iso8601> = vec![
        Iso8601::try_from("2018-10-11T03:23:39-08:00").unwrap(),
        Iso8601::try_from("2018-10-11T03:23:39-07:00").unwrap(),
        Iso8601::try_from("2018-10-11 03:23:39+03:00").unwrap(),
        Iso8601::try_from("2018-10-11T03:23:39-06:00").unwrap(),
        Iso8601::try_from("20181011 032339 +04:00").unwrap(),
        Iso8601::try_from("2018-10-11T03:23:39−09:00").unwrap(), // the Unicode minus
        Iso8601::try_from("2018-10-11T03:23:39+11:00").unwrap(),
        Iso8601::try_from("2018-10-11 03:23:39Z").unwrap(),
        Iso8601::try_from("2018-10-11 03:23:40").unwrap(),
    ];
    v.sort_by(|a, b| a.cmp(b));
    assert_eq!(
        v.iter()
            .map(|ts| ts.debug_string())
            .collect::<Vec<String>>()
            .join(", "),
        "Iso8601(2018-10-11T03:23:39+11:00), Iso8601(2018-10-11T03:23:39+04:00), Iso8601(2018-10-11T03:23:39+03:00), Iso8601(2018-10-11T03:23:39+00:00), Iso8601(2018-10-11T03:23:40+00:00), Iso8601(2018-10-11T03:23:39-06:00), Iso8601(2018-10-11T03:23:39-07:00), Iso8601(2018-10-11T03:23:39-08:00), Iso8601(2018-10-11T03:23:39-09:00)"
    );

    v.sort_by(|a, b| b.cmp(a)); // reverse
    assert_eq!(
        v.iter()
            .map(|ts| ts.debug_string())
            .collect::<Vec<String>>()
            .join(", "),
        "Iso8601(2018-10-11T03:23:39-09:00), Iso8601(2018-10-11T03:23:39-08:00), Iso8601(2018-10-11T03:23:39-07:00), Iso8601(2018-10-11T03:23:39-06:00), Iso8601(2018-10-11T03:23:40+00:00), Iso8601(2018-10-11T03:23:39+00:00), Iso8601(2018-10-11T03:23:39+03:00), Iso8601(2018-10-11T03:23:39+04:00), Iso8601(2018-10-11T03:23:39+11:00)"
    );
}

#[test]
fn iso_default_zone_is_utc() {
    assert_eq!(
        Iso8601::from_str("2018-10-11T03:23:38").unwrap(),
        Iso8601::from_str("2018-10-11T03:23:38Z").unwrap()
    );
    assert_eq!(
        Iso8601::from_str("2018-10-11T03:23:38").unwrap().to_string(),
        "2018-10-11T03:23:38+00:00"
    );
}

#[test]
fn iso_leap_second_round_trips() {
    let iso = Iso8601::from_str("2015-02-18T23:59:60.234567-05:00").unwrap();
    assert_eq!(iso.to_string(), "2015-02-18T23:59:60.234567-05:00");
    let again = Iso8601::from_str(&iso.to_string()).unwrap();
    assert_eq!(again, iso);
    assert_eq!(again.to_string(), "2015-02-18T23:59:60.234567-05:00");
    assert_eq!(again.to_string(), iso.to_string());
}

#[test]
fn iso_failures() {
    assert!(Iso8601::from_str("boo").is_err());
    let e = Iso8601::from_str("2015-2-18 03:59:60+25").unwrap_err();
    assert_eq!(
        e.to_string(),
        "Failed to find ISO 3339 or RFC 8601 timestamp in \"2015-2-18 03:59:60+25\""
    );
    let e = Iso8601::from_str("2018-02-30").unwrap_err();
    assert_eq!(
        e.to_string(),
        "Attempting to convert RFC 3339 timestamp \"2018-02-30T00:00:00Z\" from ISO 8601 \"2018-02-30\" to a DateTime"
    );
}

#[test]
fn iso_normalize_forms() {
    assert_eq!(iso_normalize("2018"), Some("2018-01-01T00:00:00Z".to_string()));
    assert_eq!(iso_normalize(" 20181011  0323  Z "), Some("2018-10-11T03:23:00Z".to_string()));
    assert_eq!(
        iso_normalize("20150218 235960,234567 −05"),
        Some("2015-02-18T23:59:60.234567-05:00".to_string())
    );
    assert_eq!(iso_normalize("2018-13"), Some("2018-01-13T00:00:00Z".to_string()));
    assert_eq!(iso_normalize("2018-1-2"), None);
    assert_eq!(iso_normalize("2018-10-11t0323+0530"), Some("2018-10-11T03:23:00+05:30".to_string()));
    assert_eq!(iso_normalize("boo"), None);
    assert_eq!(iso_normalize("2015-02-18 3:59:60-05"), None);
}

#[test]
fn iso_from_timestamp() {
    assert_eq!(test_iso_8601().to_string(), "2018-10-11T03:23:38+00:00");
    assert_eq!(Iso8601::from_timestamp(0).to_string(), "1970-01-01T00:00:00+00:00");
    assert_eq!(Iso8601::from(1539228218).to_string(), "2018-10-11T03:23:38+00:00");
    assert_eq!(Iso8601::from(1539228218u32), test_iso_8601());
    assert_eq!(Iso8601::from(-1i32).to_string(), "1969-12-31T23:59:59+00:00");
    assert_eq!(
        Iso8601::from_timestamp(core_types::iso8601::MAX_TIMESTAMP).to_string(),
        "+262142-12-31T23:59:59+00:00"
    );
    assert_eq!(
        Iso8601::from_timestamp(core_types::iso8601::MIN_TIMESTAMP).to_string(),
        "-262143-01-01T00:00:00+00:00"
    );
    assert_eq!(
        test_iso_8601(),
        Iso8601::from_str("2018-10-11T03:23:38Z").unwrap()
    );
}

#[test]
fn iso_offsets_keep_their_text() {
    let a = Iso8601::from_str("2018-10-11T03:23:38-08:00").unwrap();
    let b = Iso8601::from_str("2018-10-11T11:23:38Z").unwrap();
    assert_eq!(a, b);
    assert_eq!(a.to_string(), "2018-10-11T03:23:38-08:00");
    assert_eq!(b.to_string(), "2018-10-11T11:23:38+00:00");
    assert_eq!(a.cmp(&b), std::cmp::Ordering::Equal);
}
