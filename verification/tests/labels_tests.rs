use astrocalc::labels::{
    bortle_hint, clamp_bortle, compass_octant, day_grid_marks, default_bortle_class, format_age_minutes,
    format_clock_minutes, format_duration, format_hm, format_hour_label, hour_grid_marks, tile_status_label,
    use_online, wind_cardinal, MapTileMode, ViewWindowCorner,
};

#[test]
fn bortle_hints_per_class() {
    assert_eq!(bortle_hint(1), "excellent dark sky");
    assert_eq!(bortle_hint(2), "typical truly dark");
    assert_eq!(bortle_hint(3), "rural sky");
    assert_eq!(bortle_hint(4), "rural/suburban");
    assert_eq!(bortle_hint(5), "suburban");
    assert_eq!(bortle_hint(6), "bright suburban");
    assert_eq!(bortle_hint(7), "suburban/urban");
    assert_eq!(bortle_hint(8), "city sky");
    assert_eq!(bortle_hint(9), "inner city");
}

#[test]
fn bortle_hint_out_of_scale_is_inner_city() {
    assert_eq!(bortle_hint(0), "inner city");
    assert_eq!(bortle_hint(200), "inner city");
}

#[test]
fn default_bortle_is_suburban() {
    assert_eq!(default_bortle_class(), 5);
    assert_eq!(bortle_hint(default_bortle_class()), "suburban");
}

#[test]
fn bortle_clamped_to_scale() {
    assert_eq!(clamp_bortle(0), 1);
    assert_eq!(clamp_bortle(1), 1);
    assert_eq!(clamp_bortle(4), 4);
    assert_eq!(clamp_bortle(9), 9);
    assert_eq!(clamp_bortle(12), 9);
}

#[test]
fn duration_with_hours() {
    assert_eq!(format_duration(125), "2h 05m");
    assert_eq!(format_duration(60), "1h 00m");
    assert_eq!(format_duration(600), "10h 00m");
    assert_eq!(format_duration(61), "1h 01m");
}

#[test]
fn duration_under_an_hour() {
    assert_eq!(format_duration(0), "0m");
    assert_eq!(format_duration(59), "59m");
    assert_eq!(format_duration(7), "7m");
}

#[test]
fn duration_negative_truncates_toward_zero() {
    assert_eq!(format_duration(-5), "-5m");
    assert_eq!(format_duration(-125), "-5m");
}

#[test]
fn age_labels() {
    assert_eq!(format_age_minutes(-3), "just now");
    assert_eq!(format_age_minutes(0), "just now");
    assert_eq!(format_age_minutes(1), "1 min ago");
    assert_eq!(format_age_minutes(59), "59 min ago");
    assert_eq!(format_age_minutes(60), "1 h ago");
    assert_eq!(format_age_minutes(179), "2 h ago");
}

#[test]
fn clock_labels_are_zero_padded() {
    assert_eq!(format_hm(7, 5), "07:05");
    assert_eq!(format_hm(23, 59), "23:59");
    assert_eq!(format_hour_label(0), "00:00");
    assert_eq!(format_hour_label(18), "18:00");
}

#[test]
fn clock_of_minutes_wraps_the_day() {
    assert_eq!(format_clock_minutes(0), "00:00");
    assert_eq!(format_clock_minutes(1439), "23:59");
    assert_eq!(format_clock_minutes(1500), "01:00");
    assert_eq!(format_clock_minutes(-1), "23:59");
    assert_eq!(format_clock_minutes(-1440), "00:00");
}

#[test]
fn compass_octant_names() {
    assert_eq!(compass_octant(0), "north");
    assert_eq!(compass_octant(1), "north-east");
    assert_eq!(compass_octant(2), "east");
    assert_eq!(compass_octant(3), "south-east");
    assert_eq!(compass_octant(4), "south");
    assert_eq!(compass_octant(5), "south-west");
    assert_eq!(compass_octant(6), "west");
    assert_eq!(compass_octant(7), "north-west");
}

#[test]
fn wind_cardinals_wrap_every_sixteen() {
    assert_eq!(wind_cardinal(0), "N");
    assert_eq!(wind_cardinal(4), "E");
    assert_eq!(wind_cardinal(8), "S");
    assert_eq!(wind_cardinal(12), "W");
    assert_eq!(wind_cardinal(15), "NNW");
    assert_eq!(wind_cardinal(16), "N");
    assert_eq!(wind_cardinal(17), "NNE");
}

#[test]
fn map_tile_mode_labels() {
    assert_eq!(MapTileMode::Auto.label(), "Auto");
    assert_eq!(MapTileMode::Online.label(), "OSM");
    assert_eq!(MapTileMode::Offline.label(), "Offline");
}

#[test]
fn map_tile_mode_online_decision() {
    assert!(use_online(MapTileMode::Online, false, false));
    assert!(!use_online(MapTileMode::Offline, true, true));
    assert!(!use_online(MapTileMode::Auto, false, true));
    assert!(!use_online(MapTileMode::Auto, true, false));
    assert!(use_online(MapTileMode::Auto, true, true));
    assert_eq!(tile_status_label(true), "Active: OSM");
    assert_eq!(tile_status_label(false), "Active: offline (no tiles)");
}

#[test]
fn view_window_corners_in_order() {
    let all = ViewWindowCorner::all();
    assert_eq!(
        all,
        [
            ViewWindowCorner::MinAzMinAlt,
            ViewWindowCorner::MinAzMaxAlt,
            ViewWindowCorner::MaxAzMinAlt,
            ViewWindowCorner::MaxAzMaxAlt,
        ]
    );
    assert!(ViewWindowCorner::MinAzMaxAlt.moves_min_az());
    assert!(!ViewWindowCorner::MinAzMaxAlt.moves_min_alt());
    assert!(ViewWindowCorner::MaxAzMinAlt.moves_min_alt());
    assert!(!ViewWindowCorner::MaxAzMaxAlt.moves_min_az());
}

#[test]
fn date_axis_marks_by_span() {
    assert_eq!(day_grid_marks(100, 105), vec![100, 101, 102, 103, 104, 105]);
    assert_eq!(day_grid_marks(100, 100), vec![100]);
    assert_eq!(day_grid_marks(0, 30), (0..=30).step_by(2).collect::<Vec<i32>>());
    assert_eq!(day_grid_marks(0, 61), vec![0, 7, 14, 21, 28, 35, 42, 49, 56]);
    assert_eq!(day_grid_marks(0, 60), (0..=60).step_by(2).collect::<Vec<i32>>());
    assert_eq!(day_grid_marks(0, 20), (0..=20).collect::<Vec<i32>>());
    assert!(day_grid_marks(5, 4).is_empty());
}

#[test]
fn hour_marks_on_whole_utc_hours() {
    assert_eq!(hour_grid_marks(1_000, 7_300_000), vec![3_600_000, 7_200_000]);
    assert_eq!(hour_grid_marks(3_600_000, 7_200_000), vec![3_600_000, 7_200_000]);
    assert_eq!(hour_grid_marks(-1, 10), vec![0]);
    assert_eq!(hour_grid_marks(-3_600_001, -1), vec![-3_600_000]);
    assert!(hour_grid_marks(1, 3_599_999).is_empty());
    assert!(hour_grid_marks(10, 5).is_empty());
}
