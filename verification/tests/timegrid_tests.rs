use astrocalc::timegrid::{
    build_night_intervals, ceil_to_minutes, floor_to_minutes, night_midpoint, night_ticks,
    nights_from_daily, utc_window_for_dates, weather_target_ms, DailySun, NightInfo, MAX_INTERVAL_MINUTES,
    UNIX_EPOCH_DAY,
};

#[test]
fn floor_to_ten_minute_slots() {
    assert_eq!(floor_to_minutes(1000, 10), 600);
    assert_eq!(floor_to_minutes(1200, 10), 1200);
    assert_eq!(floor_to_minutes(0, 10), 0);
    assert_eq!(floor_to_minutes(-1, 10), -600);
    assert_eq!(floor_to_minutes(1_700_000_123, 1), 1_700_000_100);
}

#[test]
fn ceil_to_ten_minute_slots() {
    assert_eq!(ceil_to_minutes(1000, 10), 1200);
    assert_eq!(ceil_to_minutes(1200, 10), 1200);
    assert_eq!(ceil_to_minutes(-1, 10), 0);
    assert_eq!(ceil_to_minutes(-601, 10), -600);
}

#[test]
fn rounding_brackets_the_instant() {
    for ts in [-7_201i64, -1, 0, 1, 599, 600, 601, 86_399, 1_700_000_123] {
        let f = floor_to_minutes(ts, 10);
        let c = ceil_to_minutes(ts, 10);
        assert!(f <= ts && ts <= c);
        assert!(ts - f < 600 && c - ts < 600);
        assert_eq!(f.rem_euclid(600), 0);
        assert_eq!(c.rem_euclid(600), 0);
        assert_eq!(floor_to_minutes(f, 10), f);
        assert_eq!(ceil_to_minutes(c, 10), c);
    }
}

#[test]
fn ticks_include_both_ends_when_aligned() {
    let night = NightInfo { date: 738_886, night_start_ms: 0, night_end_ms: 3_600_000 };
    assert_eq!(night_ticks(&night, 30), vec![0, 1_800_000, 3_600_000]);
}

#[test]
fn ticks_stop_before_passing_the_end() {
    let night = NightInfo { date: 738_886, night_start_ms: 1_000, night_end_ms: 3_000_000 };
    assert_eq!(night_ticks(&night, 20), vec![1_000, 1_201_000, 2_401_000]);
}

#[test]
fn ticks_of_an_inverted_night_are_empty() {
    let night = NightInfo { date: 738_886, night_start_ms: 5_000, night_end_ms: 4_999 };
    assert!(night_ticks(&night, 10).is_empty());
    let instant = NightInfo { date: 738_886, night_start_ms: 5_000, night_end_ms: 5_000 };
    assert_eq!(night_ticks(&instant, 10), vec![5_000]);
}

#[test]
fn ticks_cover_the_night() {
    let night = NightInfo { date: 1, night_start_ms: -3_000_000, night_end_ms: 40_000_000 };
    let t = night_ticks(&night, 7);
    assert_eq!(t[0], -3_000_000);
    for w in t.windows(2) {
        assert_eq!(w[1] - w[0], 420_000);
    }
    let last = *t.last().unwrap();
    assert!(last <= 40_000_000 && last + 420_000 > 40_000_000);
}

#[test]
fn intervals_per_night() {
    let nights = vec![
        NightInfo { date: 738_886, night_start_ms: 0, night_end_ms: 600_000 },
        NightInfo { date: 738_887, night_start_ms: 100, night_end_ms: 50 },
    ];
    let r = build_night_intervals(&nights, 5);
    assert_eq!(r, vec![(738_886, vec![0, 300_000, 600_000]), (738_887, Vec::new())]);
}

#[test]
fn long_intervals_up_to_the_duration_limit() {
    let nights = vec![NightInfo { date: 1, night_start_ms: 0, night_end_ms: 300_000_000_000_000 }];
    let r = build_night_intervals(&nights, 2_000_000_000);
    assert_eq!(r, vec![(1, vec![0, 120_000_000_000_000, 240_000_000_000_000])]);
    let single = NightInfo { date: 1, night_start_ms: -8_000_000_000_000_000, night_end_ms: -8_000_000_000_000_000 };
    assert_eq!(night_ticks(&single, 200_000_000_000), vec![-8_000_000_000_000_000]);
    assert!(MAX_INTERVAL_MINUTES > 200_000_000_000);
    assert_eq!(floor_to_minutes(1_000_000, 1_000_000_000_000), 0);
    assert_eq!(ceil_to_minutes(-1_000_000, 1_000_000_000_000), 0);
}

#[test]
fn nights_between_consecutive_days() {
    let daily = vec![
        DailySun { date: 738_886, rise: 10_000, set: 1_000 },
        DailySun { date: 738_887, rise: 50_000, set: 90_001 },
        DailySun { date: 738_888, rise: 172_700, set: 0 },
    ];
    let n = nights_from_daily(&daily);
    assert_eq!(n.len(), 2);
    assert_eq!((n[0].date, n[0].night_start_ms, n[0].night_end_ms), (738_886, 1_200_000, 49_800_000));
    assert_eq!((n[1].date, n[1].night_start_ms, n[1].night_end_ms), (738_887, 90_600_000, 172_200_000));
    assert!(nights_from_daily(&Vec::new()).is_empty());
    let one = vec![DailySun { date: 738_886, rise: 10_000, set: 1_000 }];
    assert!(nights_from_daily(&one).is_empty());
}

#[test]
fn midpoint_rounds_toward_start() {
    let n = NightInfo { date: 1, night_start_ms: 1_000, night_end_ms: 2_001 };
    assert_eq!(night_midpoint(&n), 1_500);
    let inverted = NightInfo { date: 1, night_start_ms: 2_000, night_end_ms: 1_001 };
    assert_eq!(night_midpoint(&inverted), 1_501);
}

#[test]
fn utc_window_of_calendar_days() {
    assert_eq!(utc_window_for_dates(UNIX_EPOCH_DAY as i32, 1), (0, 86_400_000));
    assert_eq!(
        utc_window_for_dates(738_886, 2),
        (1_704_067_200_000, 1_704_240_000_000)
    );
    assert_eq!(utc_window_for_dates(738_886, 0), (1_704_067_200_000, 1_704_067_200_000));
}

#[test]
fn weather_instant_per_view() {
    let night = NightInfo { date: 1, night_start_ms: 1_000, night_end_ms: 3_001 };
    assert_eq!(weather_target_ms(true, 77, Some(&night), 500), 77);
    assert_eq!(weather_target_ms(false, 77, Some(&night), 500), 2_000);
    let empty = NightInfo { date: 1, night_start_ms: 3_000, night_end_ms: 3_000 };
    assert_eq!(weather_target_ms(false, 77, Some(&empty), 500), 500);
    assert_eq!(weather_target_ms(false, 77, None, 500), 500);
}
