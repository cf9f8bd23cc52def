use core_types::{HolochainError, Period, Timeout};
use std::time::Duration;

const YR: u64 = 31_557_600;
const WK: u64 = 604_800;
const DY: u64 = 86_400;
const HR: u64 = 3_600;
const MN: u64 = 60;

fn period_of(d: Duration) -> Period {
    Period::new(d.as_secs(), d.subsec_nanos())
}

#[test]
fn test_period_basic() {
    assert_eq!(period_of(Duration::from_millis(0)).to_string(), "0s");
    assert_eq!(period_of(Duration::from_millis(123)).to_string(), "123ms");
    assert_eq!(period_of(Duration::from_nanos(120000)).to_string(), "120us");
    assert_eq!(period_of(Duration::from_nanos(100)).to_string(), "100ns");
    assert_eq!(
        period_of(Duration::from_millis(1000 * 604_800 + 1123)).to_string(),
        "1w1.123s"
    );
    assert_eq!(
        period_of(Duration::from_millis(1000 * 604_800 + 123)).to_string(),
        "1w123ms"
    );
    assert_eq!(
        period_of(Duration::from_nanos(
            (2 * YR + 3 * WK + 4 * DY + 5 * HR + 6 * MN + 7) * 1_000_000_000_u64 + 123456789
        ))
        .to_string(),
        "2y3w4d5h6m7.123456789s"
    );

    // Fractional seconds cannot be mixed with ms/us/ns
    assert_eq!(
        Period::from_str("1.23s456ns"),
        Err(HolochainError::ErrorGeneric(
            "Failed to find Period specification in \"1.23s456ns\"".to_string()
        ))
    );
    // Units must come largest first
    assert_eq!(
        Period::from_str("456ns123us"),
        Err(HolochainError::ErrorGeneric(
            "Failed to find Period specification in \"456ns123us\"".to_string()
        ))
    );

    // Canonicalization, incl. case insensitivity, long names, plurals
    let cases: Vec<(&str, Duration, &str)> = vec![
        ("1 week", Duration::new(1 * WK, 0), "1w"),
        ("123w456ns", Duration::new(123 * WK, 456_u32), "2y18w4d12h456ns"),
        ("2y18w4d12h0.000003456s", Duration::new(123 * WK, 3456_u32), "2y18w4d12h3456ns"),
        (
            "2 years 18 Weeks 4 dy 12 hrs 0.000456 SEC",
            Duration::new(123 * WK, 456_u32 * 1000),
            "2y18w4d12h456us",
        ),
        ("2y18w4d12h0.00000345678s", Duration::new(123 * WK, 3456_u32), "2y18w4d12h3456ns"),
        ("1y60000ms25μs100nanos", Duration::new(1 * YR + 60, 25100_u32), "1y1m25100ns"),
        ("600millisecond25usecs100nanos", Duration::new(0, 600025100_u32), "0.6000251s"),
        ("25us100ns", Duration::new(0, 25100_u32), "25100ns"),
        (".0000251s", Duration::new(0, 25100_u32), "25100ns"),
        (".000025s", Duration::new(0, 25000_u32), "25us"),
        (
            "1y2w3d4h5m6s7ms8us9ns",
            Duration::new(YR + 2 * WK + 3 * DY + 4 * HR + 5 * MN + 6, 7008009),
            "1y2w3d4h5m6.007008009s",
        ),
        (
            "1yr2wk3dy4hr5min6sec7msec8μsec9nsec",
            Duration::new(YR + 2 * WK + 3 * DY + 4 * HR + 5 * MN + 6, 7008009),
            "1y2w3d4h5m6.007008009s",
        ),
        (
            "1year2week3day4hour5minute6second7msecond8usecond9nsecond",
            Duration::new(YR + 2 * WK + 3 * DY + 4 * HR + 5 * MN + 6, 7008009),
            "1y2w3d4h5m6.007008009s",
        ),
        (
            "1years2weeks3days4hours5minutes6seconds7milliseconds8microseconds9nanoseconds",
            Duration::new(YR + 2 * WK + 3 * DY + 4 * HR + 5 * MN + 6, 7008009),
            "1y2w3d4h5m6.007008009s",
        ),
        (
            "1 yrs 2 wks 3 dys 4 hrs 5 mins 6 secs 7 millis 8 micros 9 nanos ",
            Duration::new(YR + 2 * WK + 3 * DY + 4 * HR + 5 * MN + 6, 7008009),
            "1y2w3d4h5m6.007008009s",
        ),
    ];
    for (ps, dur, ps_out) in cases {
        let period = match Period::try_from(ps) {
            Ok(p) => p,
            Err(e) => panic!("Unexpected failure of checked Period::try_from: {:?}", e),
        };

        // Conversion into/from Duration
        let duration = Duration::new(period.as_secs(), period.subsec_nanos());
        assert_eq!(duration, dur);
        let period_from_duration = period_of(duration);
        assert_eq!(period_from_duration, period);

        // Debug formatting encapsulates the canonical period specifier
        assert_eq!(period.debug_string(), format!("Period({})", ps_out));

        // Basic to/from String
        assert_eq!(period, period_of(dur));
        assert_eq!(&period.to_string(), ps_out);

        // JSON: a single string scalar holding the canonical text
        let serialized = serde_json::to_string(&period.to_string()).unwrap();
        assert_eq!(serialized, format!("\"{}\"", ps_out));
        let text: String = serde_json::from_str(&serialized).unwrap();
        let deserialized = Period::from_str(&text).unwrap();
        assert_eq!(&deserialized.to_string(), ps_out);
        assert_eq!(deserialized, period_of(dur));
    }
}

#[test]
fn test_period_timeout() {
    let period = Period::try_from("1w1.23s").unwrap();

    // Timeouts can be given as human-readable periods
    assert_eq!(Timeout::from(period), Timeout::new(1230 + 1000 * WK as usize));
}

#[test]
fn period_zero_is_0s() {
    assert_eq!(Period::new(0, 0).to_string(), "0s");
}

#[test]
fn period_scaling_examples() {
    assert_eq!(Period::new(0, 123_000_000).to_string(), "123ms");
    assert_eq!(Period::new(0, 120_000).to_string(), "120us");
    assert_eq!(Period::new(0, 100).to_string(), "100ns");
}

#[test]
fn period_new_carries_nanoseconds() {
    let p = Period::new(604800, 1_123_000_000);
    assert_eq!(p.as_secs(), 604801);
    assert_eq!(p.subsec_nanos(), 123_000_000);
    assert_eq!(p.to_string(), "1w1.123s");
}

#[test]
fn period_synonyms_agree() {
    assert_eq!(
        Period::from_str("2 years 18 Weeks 4 dy 12 hrs 0.000456 SEC"),
        Period::from_str("2y18w4d12h456us")
    );
}

#[test]
fn period_round_trip_is_fixed_point() {
    for t in [
        "1 week",
        "123w456ns",
        ".5s",
        "600millisecond25usecs100nanos",
        "1y60000ms25μs100nanos",
        "90 MINUTES",
        "3,25s",
    ] {
        let p = Period::from_str(t).unwrap();
        let again = Period::from_str(&p.to_string()).unwrap();
        assert_eq!(again, p);
        assert_eq!(again.to_string(), p.to_string());
    }
}

#[test]
fn period_format_twice_is_identical() {
    let p = Period::new(123 * WK, 456);
    assert_eq!(p.to_string(), p.to_string());
}

#[test]
fn period_rejects_bad_text() {
    for t in ["", "   ", "boo", "5", "1.5m", "1.s", "5m 3h", "1y2y", "2015-2-18 03:59:60+25"] {
        assert_eq!(
            Period::from_str(t),
            Err(HolochainError::ErrorGeneric(format!(
                "Failed to find Period specification in {:?}",
                t
            )))
        );
    }
}

#[test]
fn period_fraction_padding_and_truncation() {
    assert_eq!(Period::from_str(".5s").unwrap().subsec_nanos(), 500_000_000);
    assert_eq!(Period::from_str("0.1234567891s").unwrap().subsec_nanos(), 123_456_789);
    assert_eq!(Period::from_str("0.5s").unwrap().to_string(), "500ms");
    assert_eq!(Period::from_str("1.5s").unwrap().to_string(), "1.5s");
}

#[test]
fn period_units_and_whitespace() {
    let p = Period::from_str("  1 h 30 m ").unwrap();
    assert_eq!(p.as_secs(), 5400);
    assert_eq!(p.to_string(), "1h30m");
    assert_eq!(Period::from_str("2D").unwrap().as_secs(), 2 * DY);
    assert_eq!(Period::from_str("1500ms").unwrap().to_string(), "1.5s");
    assert_eq!(Period::from_str("1s500ms").unwrap().to_string(), "1.5s");
    assert_eq!(Period::from_str("7 seconds").unwrap().to_string(), "7s");
}

#[test]
fn period_overflow_is_an_error() {
    let t = "18446744073709551616s";
    assert_eq!(
        Period::from_str(t),
        Err(HolochainError::ErrorGeneric(format!("Overflow of seconds in period {:?}", t)))
    );
    let t = "600000000000y";
    assert_eq!(
        Period::from_str(t),
        Err(HolochainError::ErrorGeneric(format!("Overflow of years in period {:?}", t)))
    );
    let t = "999999999999y";
    assert_eq!(
        Period::from_str(t).unwrap_err().to_string(),
        format!("Overflow of years in period {:?}", t)
    );
    let t = "1y18446744073709551615ns";
    assert_eq!(Period::from_str(t).unwrap().subsec_nanos(), 709_551_615);
    let t = "18446744073709551615ms";
    assert_eq!(
        Period::from_str(t),
        Err(HolochainError::ErrorGeneric(format!("Overflow of milliseconds in period {:?}", t)))
    );
    let max = format!("{}s", u64::MAX);
    assert_eq!(Period::from_str(&max).unwrap().as_secs(), u64::MAX);
    let over = format!("{}s1000ms", u64::MAX);
    assert_eq!(
        Period::from_str(&over),
        Err(HolochainError::ErrorGeneric(format!("Overflow of seconds in period {:?}", over)))
    );
}

#[test]
fn timeout_default_and_saturation() {
    assert_eq!(Timeout::default().millis(), 60_000);
    assert_eq!(Timeout::from(25usize).millis(), 25);
    assert_eq!(Timeout::from_period(Period::new(u64::MAX, 0)).millis(), usize::MAX);
    assert_eq!(Timeout::from_period(Period::new(2, 345_678_901)).millis(), 2345);
    assert_eq!(Timeout::from(Period::new(u64::MAX, 999_999_999)), Timeout::new(usize::MAX));
    assert_eq!(Timeout::from(Period::new(0, 999_999)), Timeout::new(0));
    assert_eq!(Timeout::from(7usize), Timeout::new(7));
}

#[test]
fn error_message_is_its_text() {
    let e = Period::from_str("boo").unwrap_err();
    assert_eq!(e.to_string(), "Failed to find Period specification in \"boo\"");
}
