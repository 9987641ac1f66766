use astrocalc::prefetch::{
    ephemeris_step, iss_step, long_term_step, next_prefetch_start, nights_to_compute, take_batch,
    weather_step, IssKey, IssRequest, IssTracker,
    JobAction, JobTracker, SectorKey,
};

fn sector(date: i32) -> SectorKey {
    SectorKey { date, lat_e2: 4886, lon_e2: 235 }
}

fn fresh() -> JobTracker {
    JobTracker { req_key: None, done_key: None }
}

#[test]
fn ephemeris_idle_without_request() {
    let mut t = fresh();
    let mut requested = false;
    assert_eq!(ephemeris_step(&mut t, sector(1), false, None, &mut requested), JobAction::Idle);
    assert_eq!(t.req_key, None);
}

#[test]
fn ephemeris_starts_then_finishes() {
    let mut t = fresh();
    let mut requested = true;
    assert_eq!(ephemeris_step(&mut t, sector(1), false, None, &mut requested), JobAction::Start);
    assert_eq!(t.req_key, Some(sector(1)));
    assert!(requested);
    assert_eq!(ephemeris_step(&mut t, sector(1), true, None, &mut requested), JobAction::Pending);
    assert_eq!(
        ephemeris_step(&mut t, sector(1), false, Some(true), &mut requested),
        JobAction::Finished { ok: true }
    );
    assert_eq!(t.done_key, Some(sector(1)));
    assert!(!requested);
}

#[test]
fn ephemeris_not_restarted_after_success() {
    let mut t = JobTracker { req_key: Some(sector(1)), done_key: Some(sector(1)) };
    let mut requested = true;
    assert_eq!(
        ephemeris_step(&mut t, sector(1), false, Some(true), &mut requested),
        JobAction::AlreadyDone
    );
    assert!(!requested);
    assert_eq!(ephemeris_step(&mut t, sector(1), false, None, &mut requested), JobAction::Idle);
}

#[test]
fn ephemeris_failure_keeps_done_key() {
    let mut t = JobTracker { req_key: Some(sector(2)), done_key: Some(sector(1)) };
    let mut requested = true;
    assert_eq!(
        ephemeris_step(&mut t, sector(2), false, Some(false), &mut requested),
        JobAction::Finished { ok: false }
    );
    assert_eq!(t.done_key, Some(sector(1)));
    assert!(!requested);
}

#[test]
fn long_term_batches() {
    let mut t = fresh();
    assert_eq!(long_term_step(&mut t, None, false, None), (false, JobAction::Idle));
    assert_eq!(long_term_step(&mut t, Some(sector(5)), false, None), (true, JobAction::Start));
    assert_eq!(long_term_step(&mut t, Some(sector(5)), true, None), (true, JobAction::Pending));
    assert_eq!(
        long_term_step(&mut t, Some(sector(5)), false, Some(true)),
        (false, JobAction::Finished { ok: true })
    );
    assert_eq!(long_term_step(&mut t, Some(sector(5)), false, None), (false, JobAction::AlreadyDone));
    assert_eq!(long_term_step(&mut t, Some(sector(6)), false, None), (true, JobAction::Start));
}

fn iss_key(date: i32, force: bool) -> IssKey {
    IssKey { date, lat_e4: 488_600, lon_e4: 23_500, force }
}

#[test]
fn iss_prediction_cycle() {
    let mut t = IssTracker { req_key: None, done_key: None };
    let mut req = IssRequest { request_predict: true, force_refresh: false };
    assert_eq!(iss_step(&mut t, iss_key(1, false), &mut req, false, None), JobAction::Start);
    assert_eq!(t.req_key, Some(iss_key(1, false)));
    assert_eq!(
        iss_step(&mut t, iss_key(1, false), &mut req, false, Some(true)),
        JobAction::Finished { ok: true }
    );
    assert_eq!(t.done_key, Some(iss_key(1, false)));
    assert_eq!(iss_step(&mut t, iss_key(1, false), &mut req, false, None), JobAction::AlreadyDone);
    assert!(!req.request_predict);
    assert_eq!(iss_step(&mut t, iss_key(1, false), &mut req, false, None), JobAction::Idle);
}

#[test]
fn iss_forced_refresh_always_starts() {
    let mut t = IssTracker { req_key: Some(iss_key(1, false)), done_key: Some(iss_key(1, false)) };
    let mut req = IssRequest { request_predict: false, force_refresh: true };
    assert_eq!(iss_step(&mut t, iss_key(1, true), &mut req, false, None), JobAction::Start);
    assert!(!req.force_refresh);
    assert_eq!(t.req_key, Some(iss_key(1, true)));
}

#[test]
fn iss_failure_clears_requests() {
    let mut t = IssTracker { req_key: Some(iss_key(3, false)), done_key: None };
    let mut req = IssRequest { request_predict: true, force_refresh: true };
    assert_eq!(
        iss_step(&mut t, iss_key(3, false), &mut req, false, Some(false)),
        JobAction::Finished { ok: false }
    );
    assert_eq!(req, IssRequest { request_predict: false, force_refresh: false });
    assert_eq!(t.done_key, None);
}

#[test]
fn batches_from_the_front() {
    let mut q = vec![1, 2, 3, 4, 5];
    assert_eq!(take_batch(&mut q, 2), vec![1, 2]);
    assert_eq!(q, vec![3, 4, 5]);
    assert_eq!(take_batch(&mut q, 10), vec![3, 4, 5]);
    assert!(q.is_empty());
    assert!(take_batch(&mut q, 3).is_empty());
    let mut r = vec![7];
    assert!(take_batch(&mut r, 0).is_empty());
    assert_eq!(r, vec![7]);
}

#[test]
fn weather_fetched_once_per_key() {
    let mut last = None;
    assert!(weather_step(&mut last, sector(1), false, false));
    assert_eq!(last, Some(sector(1)));
    assert!(!weather_step(&mut last, sector(1), false, false));
    assert!(weather_step(&mut last, sector(1), true, false));
    assert!(!weather_step(&mut last, sector(2), false, true));
    assert_eq!(last, Some(sector(1)));
    assert!(weather_step(&mut last, sector(2), false, false));
    assert_eq!(last, Some(sector(2)));
}

#[test]
fn panning_requests_the_next_night_once() {
    assert_eq!(next_prefetch_start(false, Some(100), true, None), Some(101));
    assert_eq!(next_prefetch_start(false, Some(100), true, Some(101)), None);
    assert_eq!(next_prefetch_start(false, Some(100), true, Some(90)), Some(101));
    assert_eq!(next_prefetch_start(true, Some(100), true, None), None);
    assert_eq!(next_prefetch_start(false, Some(100), false, None), None);
    assert_eq!(next_prefetch_start(false, None, true, None), None);
    assert_eq!(next_prefetch_start(false, Some(i32::MAX), true, None), None);
    assert_eq!(next_prefetch_start(false, Some(95_745_399), true, None), None);
    assert_eq!(next_prefetch_start(false, Some(95_745_398), true, None), Some(95_745_399));
}

#[test]
fn cached_nights_are_skipped() {
    assert_eq!(nights_to_compute(&vec![10, 11, 12, 13], &vec![11, 13, 40]), vec![0, 2]);
    assert_eq!(nights_to_compute(&vec![10, 11], &Vec::new()), vec![0, 1]);
    assert!(nights_to_compute(&vec![10], &vec![10]).is_empty());
    assert!(nights_to_compute(&Vec::new(), &vec![1]).is_empty());
}
