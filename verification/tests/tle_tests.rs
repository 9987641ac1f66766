use astrocalc::tle::{
    cached_tle_from, celestrak_iss_tle_url, parse_tle_text, tle_layout, tle_lines, CachedTle,
    TleLines, ISS_NORAD_ID,
};

const ISS_TLE_TEXT: &str = "ISS (ZARYA)
1 25544U 98067A   08264.51782528 -.00002182  00000-0 -11606-4 0  2927
2 25544  51.6416 247.4627 0006703 130.5360 325.0288 15.72125391563537
";

const LINE1: &str = "1 25544U 98067A   08264.51782528 -.00002182  00000-0 -11606-4 0  2927";
const LINE2: &str = "2 25544  51.6416 247.4627 0006703 130.5360 325.0288 15.72125391563537";

/// 2008-09-20 12:00:00 UTC, in nanoseconds.
const FETCHED_NS: i128 = 1_221_912_000_000_000_000;

#[test]
fn parse_sample_tle() {
    let c = parse_tle_text(ISS_TLE_TEXT, FETCHED_NS).unwrap();
    assert!(c.name.contains("ISS"));
    assert!(c.line1.starts_with('1'));
    assert!(c.line2.starts_with('2'));
    assert_eq!(c.fetched_at_ns, FETCHED_NS);
    let elements =
        sgp4::Elements::from_tle(Some(c.name.clone()), c.line1.as_bytes(), c.line2.as_bytes()).unwrap();
    assert_eq!(elements.norad_id, ISS_NORAD_ID);
}

#[test]
fn parsed_epoch_is_the_element_epoch() {
    let c = parse_tle_text(ISS_TLE_TEXT, FETCHED_NS).unwrap();
    // Day 264.51782528 of 2008 is 2008-09-20 12:25:40.104192 UTC.
    let expected: i128 = 1_221_913_540_104_192_000;
    assert!((c.tle_epoch_ns - expected).abs() <= 1_000, "epoch {}", c.tle_epoch_ns);
    let elements =
        sgp4::Elements::from_tle(Some(c.name.clone()), c.line1.as_bytes(), c.line2.as_bytes()).unwrap();
    assert_eq!(elements.datetime.and_utc().timestamp_nanos_opt().map(i128::from), Some(c.tle_epoch_ns));
}

#[test]
fn celestrak_url_for_the_iss() {
    assert_eq!(
        celestrak_iss_tle_url(),
        "https://celestrak.org/NORAD/elements/gp.php?CATNR=25544&FORMAT=tle"
    );
}

#[test]
fn lines_trimmed_without_blanks() {
    let text = "  ISS (ZARYA)  \r\n\r\n 1 abc\n\t\n2 def \r\n";
    assert_eq!(tle_lines(text), vec!["ISS (ZARYA)", "1 abc", "2 def"]);
    assert!(tle_lines("").is_empty());
    assert!(tle_lines("\n \n").is_empty());
}

#[test]
fn three_line_layout_keeps_the_name() {
    let t = tle_layout(ISS_TLE_TEXT).unwrap();
    assert_eq!(t.name, "ISS (ZARYA)");
    assert_eq!(t.line1, LINE1);
    assert_eq!(t.line2, LINE2);
}

#[test]
fn two_line_layout_gets_default_name() {
    let text = format!("{LINE1}\n{LINE2}\n");
    let t = tle_layout(&text).unwrap();
    assert_eq!(t.name, "ISS (ZARYA)");
    assert_eq!(t.line1, LINE1);
    assert_eq!(t.line2, LINE2);
    let named = format!("SPACE STATION\n{LINE1}\n{LINE2}");
    assert_eq!(tle_layout(&named).unwrap().name, "SPACE STATION");
}

#[test]
fn short_text_is_rejected() {
    assert_eq!(tle_layout("").err(), Some("TLE text too short".to_string()));
    assert_eq!(tle_layout(LINE1).err(), Some("TLE text too short".to_string()));
    assert_eq!(parse_tle_text("  \n", 0).err(), Some("TLE text too short".to_string()));
}

#[test]
fn unrecognized_layout_reports_line_count() {
    assert_eq!(
        tle_layout("NAME\nNOT A TLE\nSTILL NOT\nMORE").err(),
        Some("unrecognized TLE layout (4 lines)".to_string())
    );
    assert_eq!(
        parse_tle_text("a\nb", 0).err(),
        Some("unrecognized TLE layout (2 lines)".to_string())
    );
}

#[test]
fn malformed_element_lines_fail_to_parse() {
    let text = "ISS (ZARYA)\n1 broken\n2 broken\n";
    let e = parse_tle_text(text, 0).err().unwrap();
    assert!(e.starts_with("TLE parse: "), "{e}");
}

#[test]
fn checksum_column_below_zero_digit_is_refused() {
    let bad1 = format!("{}-", &LINE1[..68]);
    let text = format!("ISS (ZARYA)\n{bad1}\n{LINE2}\n");
    assert_eq!(
        parse_tle_text(&text, 0).err(),
        Some("TLE parse: Error { what: BadChecksum, line: Line1, start: 68, end: 69 }".to_string())
    );
    let bad2 = format!("{}!", &LINE2[..68]);
    let text = format!("ISS (ZARYA)\n{LINE1}\n{bad2}\n");
    assert_eq!(
        parse_tle_text(&text, 0).err(),
        Some("TLE parse: Error { what: BadChecksum, line: Line2, start: 68, end: 69 }".to_string())
    );
}

#[test]
fn earlier_parser_errors_come_before_the_checksum_column() {
    let bad1 = format!("{}-", &LINE1[..68]);
    let short2 = &LINE2[..68];
    assert_eq!(
        parse_tle_text(&format!("{bad1}\n{short2}\n"), 0).err(),
        Some("TLE parse: Error { what: BadLength, line: Line2, start: 0, end: 68 }".to_string())
    );
    let spaced1 = format!("1X{}-", &LINE1[2..68]);
    assert_eq!(
        parse_tle_text(&format!("{spaced1}\n{LINE2}\n"), 0).err(),
        Some("TLE parse: Error { what: ExpectedSpace, line: Line1, start: 1, end: 2 }".to_string())
    );
    let bad2 = format!("{}-", &LINE2[..68]);
    let wrong1 = format!("{}8", &LINE1[..68]);
    assert_eq!(
        parse_tle_text(&format!("{wrong1}\n{bad2}\n"), 0).err(),
        Some("TLE parse: Error { what: BadChecksum, line: Line1, start: 68, end: 69 }".to_string())
    );
}

#[test]
fn wrong_checksum_digit_is_the_parsers_error() {
    let bad = format!("{}8", &LINE1[..68]);
    let text = format!("{bad}\n{LINE2}\n");
    assert_eq!(
        parse_tle_text(&text, 0).err(),
        Some("TLE parse: Error { what: BadChecksum, line: Line1, start: 68, end: 69 }".to_string())
    );
}

#[test]
fn zero_mean_motion_fails_the_constants() {
    let line2 = "2 25544  51.6416 247.4627 0006703 130.5360 325.0288 00.00000000563531";
    let text = format!("ISS (ZARYA)\n{LINE1}\n{line2}\n");
    assert_eq!(
        parse_tle_text(&text, 0).err(),
        Some("SGP4 constants: KozaiElementsError(NegativeKozaiMeanMotion)".to_string())
    );
}

#[test]
fn cached_tle_ages() {
    let c = CachedTle {
        name: "ISS (ZARYA)".to_string(),
        line1: LINE1.to_string(),
        line2: LINE2.to_string(),
        fetched_at_ns: 1_000,
        tle_epoch_ns: 500,
    };
    assert_eq!(c.age_ns(4_000), 3_000);
    assert_eq!(c.epoch_age_ns(4_000), 3_500);
    assert!(c.is_fresh(4_000, 3_001));
    assert!(!c.is_fresh(4_000, 3_000));
    assert!(c.is_fresh(0, 1));
}

fn sample_lines() -> TleLines {
    TleLines { name: "ISS (ZARYA)".to_string(), line1: LINE1.to_string(), line2: LINE2.to_string() }
}

#[test]
fn cached_tle_from_outcomes() {
    let ok = cached_tle_from(sample_lines(), Ok((42, 5)), Ok(()), 7).unwrap();
    assert_eq!((ok.name.as_str(), ok.fetched_at_ns, ok.tle_epoch_ns), ("ISS (ZARYA)", 7, 42_000_000_005));
    let before_epoch = cached_tle_from(sample_lines(), Ok((-1, 999_999_999)), Ok(()), 7).unwrap();
    assert_eq!(before_epoch.tle_epoch_ns, -1);
    assert_eq!(ok.line1, LINE1);
    assert_eq!(
        cached_tle_from(sample_lines(), Err("bad".to_string()), Ok(()), 7).err(),
        Some("TLE parse: bad".to_string())
    );
    assert_eq!(
        cached_tle_from(sample_lines(), Ok((42, 0)), Err("decay".to_string()), 7).err(),
        Some("SGP4 constants: decay".to_string())
    );
    assert_eq!(
        cached_tle_from(sample_lines(), Err("bad".to_string()), Err("decay".to_string()), 7).err(),
        Some("TLE parse: bad".to_string())
    );
}
