use astrocalc::order::stable_order;
use astrocalc::segments::{
    distinct_names, segments_for_name, span_of_segments, ObjectPositionSegments, ObjectSegment,
    PositionKey,
};

const MIN: i128 = 60_000_000_000;

fn key(name: &str, minute: i128) -> PositionKey {
    PositionKey { name: name.to_string(), time_ns: minute * MIN }
}

fn sample_keys() -> Vec<PositionKey> {
    vec![
        key("Mars", 0),
        key("Moon", 0),
        key("Mars", 10),
        key("Moon", 10),
        key("Mars", 20),
        key("Mars", 60),
        key("M31", 60),
        key("Mars", 70),
    ]
}

fn views(segs: &[ObjectSegment]) -> Vec<Vec<usize>> {
    segs.iter().map(|s| s.indices.clone()).collect()
}

#[test]
fn names_in_order_of_first_appearance() {
    assert_eq!(distinct_names(&sample_keys()), vec!["Mars", "Moon", "M31"]);
    assert!(distinct_names(&Vec::new()).is_empty());
}

#[test]
fn tracks_split_at_gaps() {
    let keys = sample_keys();
    let mars = segments_for_name(&keys, &"Mars".to_string(), 15);
    assert_eq!(views(&mars), vec![vec![0, 2, 4], vec![5, 7]]);
    let wide = segments_for_name(&keys, &"Mars".to_string(), 40);
    assert_eq!(views(&wide), vec![vec![0, 2, 4, 5, 7]]);
    let none = segments_for_name(&keys, &"Venus".to_string(), 15);
    assert!(none.is_empty());
}

#[test]
fn gap_equal_to_limit_keeps_the_track() {
    let keys = sample_keys();
    let mars = segments_for_name(&keys, &"Mars".to_string(), 10);
    assert_eq!(views(&mars), vec![vec![0, 2, 4], vec![5, 7]]);
    let tight = segments_for_name(&keys, &"Mars".to_string(), 9);
    assert_eq!(views(&tight), vec![vec![0], vec![2], vec![4], vec![5], vec![7]]);
}

#[test]
fn grouping_by_object() {
    let keys = sample_keys();
    let g = ObjectPositionSegments::from_positions(&keys, 15);
    assert_eq!(g.segments.len(), 3);
    assert_eq!(g.segments[0].name, "Mars");
    assert_eq!(views(&g.segments[0].segments), vec![vec![0, 2, 4], vec![5, 7]]);
    assert_eq!(g.segments[1].name, "Moon");
    assert_eq!(views(&g.segments[1].segments), vec![vec![1, 3]]);
    assert_eq!(g.segments[2].name, "M31");
    assert_eq!(views(&g.segments[2].segments), vec![vec![6]]);
    assert!(ObjectPositionSegments::new().segments.is_empty());
}

#[test]
fn grouping_keeps_every_sample_once() {
    let keys = sample_keys();
    let g = ObjectPositionSegments::from_positions(&keys, 15);
    let mut all: Vec<usize> = g
        .segments
        .iter()
        .flat_map(|n| n.segments.iter().flat_map(|s| s.indices.clone()))
        .collect();
    all.sort();
    assert_eq!(all, (0..keys.len()).collect::<Vec<usize>>());
}

#[test]
fn view_filter_keeps_selected_long_enough_tracks() {
    let keys = sample_keys();
    let g = ObjectPositionSegments::from_positions(&keys, 15);
    let in_view = vec![true, true, true, false, true, true, true, false];
    let selected = vec!["Mars".to_string(), "Moon".to_string()];
    let f = g.filter_view(&keys, &in_view, 10, &selected);
    assert_eq!(f.segments.len(), 1);
    assert_eq!(f.segments[0].name, "Mars");
    assert_eq!(views(&f.segments[0].segments), vec![vec![0, 2, 4]]);
}

#[test]
fn view_filter_drops_unselected_objects() {
    let keys = sample_keys();
    let g = ObjectPositionSegments::from_positions(&keys, 15);
    let in_view = vec![true; keys.len()];
    let f = g.filter_view(&keys, &in_view, 0, &vec!["M31".to_string()]);
    assert_eq!(f.segments.len(), 1);
    assert_eq!(f.segments[0].name, "M31");
    assert_eq!(views(&f.segments[0].segments), vec![vec![6]]);
    let nothing = g.filter_view(&keys, &in_view, 0, &Vec::new());
    assert!(nothing.segments.is_empty());
}

#[test]
fn view_filter_orders_samples_by_time() {
    let keys = vec![key("Mars", 30), key("Mars", 10), key("Mars", 20), key("Mars", 10)];
    let g = ObjectPositionSegments::from_positions(&keys, 100);
    assert_eq!(views(&g.segments[0].segments), vec![vec![0, 1, 2, 3]]);
    let f = g.filter_view(&keys, &vec![true; 4], 20, &vec!["Mars".to_string()]);
    assert_eq!(views(&f.segments[0].segments), vec![vec![1, 3, 2, 0]]);
}

#[test]
fn stable_order_by_time() {
    assert_eq!(stable_order(&vec![30, 10, 20, 10]), vec![1, 3, 2, 0]);
    assert!(stable_order(&Vec::new()).is_empty());
}

#[test]
fn night_span_over_tracks() {
    let keys = sample_keys();
    let mars = segments_for_name(&keys, &"Mars".to_string(), 15);
    let span = span_of_segments(&keys, &mars).unwrap();
    assert_eq!(span.start_ns, 0);
    assert_eq!(span.end_ns, 70 * MIN);
    assert_eq!(span.duration_minutes, 30);
}

#[test]
fn night_span_absent_without_samples() {
    let keys = sample_keys();
    assert!(span_of_segments(&keys, &Vec::new()).is_none());
    let with_empty = vec![ObjectSegment { indices: vec![0, 2] }, ObjectSegment { indices: Vec::new() }];
    assert!(span_of_segments(&keys, &with_empty).is_none());
}

#[test]
fn night_span_minutes_truncate() {
    let keys = vec![
        PositionKey { name: "Moon".to_string(), time_ns: 0 },
        PositionKey { name: "Moon".to_string(), time_ns: 119_999_999_999 },
    ];
    let one = vec![ObjectSegment { indices: vec![0, 1] }];
    let span = span_of_segments(&keys, &one).unwrap();
    assert_eq!(span.duration_minutes, 1);
    assert_eq!((span.start_ns, span.end_ns), (0, 119_999_999_999));
}

#[test]
fn sub_millisecond_times_order_and_measure() {
    let keys = vec![
        PositionKey { name: "Mars".to_string(), time_ns: 600_000_000_400 },
        PositionKey { name: "Mars".to_string(), time_ns: 600_000_000_100 },
        PositionKey { name: "Mars".to_string(), time_ns: 0 },
    ];
    let g = ObjectPositionSegments::from_positions(&keys, 100);
    let f = g.filter_view(&keys, &vec![true; 3], 10, &vec!["Mars".to_string()]);
    assert_eq!(f.segments[0].segments[0].indices, vec![2, 1, 0]);
    let short = vec![
        PositionKey { name: "Moon".to_string(), time_ns: 1 },
        PositionKey { name: "Moon".to_string(), time_ns: 60_000_000_000 },
    ];
    let one = vec![ObjectSegment { indices: vec![0, 1] }];
    assert_eq!(span_of_segments(&short, &one).unwrap().duration_minutes, 0);
}
