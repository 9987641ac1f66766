use astrocalc::iss::{
    event_kind_of, opportunity_list, pass_duration_secs, tle_age_warning, DiskBody, IssEventKind,
    OpportunitySource, DEFAULT_TLE_FRESHNESS_MS, ISS_PREDICT_DAY_COUNT, PASS_STALE_AGE_MS,
    TRANSIT_WARN_AGE_MS, VisibleRuns,
};

#[test]
fn kind_names() {
    assert_eq!(IssEventKind::VisiblePass.name(), "visible_pass");
    assert_eq!(IssEventKind::SunTransit.name(), "sun_transit");
    assert_eq!(IssEventKind::MoonTransit.name(), "moon_transit");
}

#[test]
fn kind_of_disk_body() {
    assert_eq!(IssEventKind::for_disk(DiskBody::Sun), IssEventKind::SunTransit);
    assert_eq!(IssEventKind::for_disk(DiskBody::Moon), IssEventKind::MoonTransit);
}

#[test]
fn kind_round_trip() {
    for k in [IssEventKind::VisiblePass, IssEventKind::SunTransit, IssEventKind::MoonTransit] {
        assert_eq!(event_kind_of(k.name()), Ok(k));
    }
}

#[test]
fn unknown_kind_is_an_error() {
    assert_eq!(event_kind_of("comet"), Err("unknown iss_events kind: comet".to_string()));
    assert_eq!(event_kind_of(""), Err("unknown iss_events kind: ".to_string()));
    assert_eq!(
        event_kind_of("Visible_pass"),
        Err("unknown iss_events kind: Visible_pass".to_string())
    );
}

#[test]
fn opportunities_in_time_order() {
    let passes = vec![300, 100];
    let sun = vec![200];
    let moon = vec![50, 400];
    let r = opportunity_list(&passes, &sun, &moon);
    assert_eq!(
        r,
        vec![
            (OpportunitySource::MoonDisk, 0),
            (OpportunitySource::Pass, 1),
            (OpportunitySource::SunDisk, 0),
            (OpportunitySource::Pass, 0),
            (OpportunitySource::MoonDisk, 1),
        ]
    );
}

#[test]
fn opportunities_within_one_millisecond_in_time_order() {
    let r = opportunity_list(&vec![1_000_000_700], &vec![1_000_000_300], &Vec::new());
    assert_eq!(r, vec![(OpportunitySource::SunDisk, 0), (OpportunitySource::Pass, 0)]);
}

#[test]
fn opportunities_with_equal_times_keep_list_order() {
    let r = opportunity_list(&vec![10, 10], &vec![10], &vec![5, 10]);
    assert_eq!(
        r,
        vec![
            (OpportunitySource::MoonDisk, 0),
            (OpportunitySource::Pass, 0),
            (OpportunitySource::Pass, 1),
            (OpportunitySource::SunDisk, 0),
            (OpportunitySource::MoonDisk, 1),
        ]
    );
    assert!(opportunity_list(&Vec::new(), &Vec::new(), &Vec::new()).is_empty());
}

#[test]
fn pass_duration_prefers_visible_window() {
    assert_eq!(pass_duration_secs(240, 0, 600_000_000_000), 240);
    assert_eq!(pass_duration_secs(0, 0, 600_999_999_999), 600);
    assert_eq!(pass_duration_secs(0, 900_000, 1_000_100_000), 0);
    assert_eq!(pass_duration_secs(-3, 1_000, 0), 0);
    assert_eq!(pass_duration_secs(0, 5_000, 5_000), 0);
}

#[test]
fn scan_constants() {
    assert_eq!(ISS_PREDICT_DAY_COUNT, 60);
    assert_eq!(DEFAULT_TLE_FRESHNESS_MS, 6 * 3_600_000);
    assert_eq!(TRANSIT_WARN_AGE_MS, 12 * 3_600_000);
    assert_eq!(PASS_STALE_AGE_MS, 24 * 3_600_000);
}

#[test]
fn element_age_warnings() {
    let hour: i128 = 3_600_000_000_000;
    assert_eq!(tle_age_warning(0), None);
    assert_eq!(tle_age_warning(12 * hour), None);
    assert_eq!(
        tle_age_warning(12 * hour + 1),
        Some("TLE older than 12 h - Sun/Moon disk corridor (~5-10 km) is uncertain.")
    );
    assert_eq!(
        tle_age_warning(24 * hour),
        Some("TLE older than 12 h - Sun/Moon disk corridor (~5-10 km) is uncertain.")
    );
    assert_eq!(
        tle_age_warning(24 * hour + 1),
        Some("TLE older than 24 h - later pass times may drift; refresh recommended.")
    );
    assert_eq!(tle_age_warning(-5), None);
}

fn longest_run(samples: &[bool], step: i128) -> Option<(i128, i128)> {
    let mut runs = VisibleRuns::new();
    for (k, &ok) in samples.iter().enumerate() {
        runs.sample(k as i128 * step, ok, step);
    }
    runs.finish((samples.len() as i128 - 1) * step)
}

#[test]
fn longest_visible_run_of_a_pass() {
    // Visible at 1..=2, then 4..=7: the second run is longer.
    let s = [false, true, true, false, true, true, true, true, false];
    assert_eq!(longest_run(&s, 10), Some((40, 70)));
    // A tie keeps the earlier run.
    let tie = [true, true, false, true, true, false];
    assert_eq!(longest_run(&tie, 10), Some((0, 10)));
    // A run still open at the end closes there and wins when longer.
    let open = [true, false, true, true, true];
    assert_eq!(longest_run(&open, 10), Some((20, 40)));
    // A single visible sample followed by a hidden one has no length.
    assert_eq!(longest_run(&[true, false], 10), None);
    // But one open at the last sample is kept.
    assert_eq!(longest_run(&[false, true], 10), Some((10, 10)));
    assert_eq!(longest_run(&[false, false], 10), None);
}
