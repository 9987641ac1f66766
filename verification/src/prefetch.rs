use vstd::prelude::*;

verus! {

/// Cache sector of a background ephemeris job: a date (days from the common era) and the
/// observer coordinates in hundredths of a degree.
#[derive(Clone, Copy, PartialEq, Eq, Structural, Debug)]
pub struct SectorKey {
    pub date: i32,
    pub lat_e2: i64,
    pub lon_e2: i64,
}

/// Which job was last started and which last finished successfully.
#[derive(Clone, Copy)]
pub struct JobTracker {
    pub req_key: Option<SectorKey>,
    pub done_key: Option<SectorKey>,
}

/// What the shell does after a decision.
#[derive(Clone, Copy, PartialEq, Eq, Structural, Debug)]
pub enum JobAction {
    /// A job is running; nothing to decide.
    Pending,
    /// The job for the current key has ended, successfully or not.
    Finished { ok: bool },
    /// Nothing requested.
    Idle,
    /// The requested work was already done for this key.
    AlreadyDone,
    /// Start a job for the current key.
    Start,
}

fn key_is(k: Option<SectorKey>, key: SectorKey) -> (r: bool)
    ensures
        r == (k == Some(key)),
{
    match k {
        Some(x) => x == key,
        None => false,
    }
}

/// Daily ephemeris prefetch: result of one decision for the current `key`, given whether a
/// job is running, the outcome of the last job when it has ended, and whether the Daily
/// panel asks for a prefetch.  Gives the next tracker, the next request flag, the action.
pub open spec fn spec_ephemeris_step(
    t: JobTracker,
    key: SectorKey,
    pending: bool,
    finished: Option<bool>,
    requested: bool,
) -> (Option<SectorKey>, Option<SectorKey>, bool, JobAction) {
    if pending {
        (t.req_key, t.done_key, requested, JobAction::Pending)
    } else if t.req_key == Some(key) && t.done_key != Some(key) && finished is Some {
        if finished->0 {
            (t.req_key, Some(key), false, JobAction::Finished { ok: true })
        } else {
            (t.req_key, t.done_key, false, JobAction::Finished { ok: false })
        }
    } else if !requested {
        (t.req_key, t.done_key, requested, JobAction::Idle)
    } else if t.done_key == Some(key) {
        (t.req_key, t.done_key, false, JobAction::AlreadyDone)
    } else {
        (Some(key), t.done_key, requested, JobAction::Start)
    }
}

/// One decision of the Daily ephemeris prefetch.
pub fn ephemeris_step(
    t: &mut JobTracker,
    key: SectorKey,
    pending: bool,
    finished: Option<bool>,
    requested: &mut bool,
) -> (r: JobAction)
    ensures
        (final(t).req_key, final(t).done_key, *final(requested), r) == spec_ephemeris_step(
            *old(t),
            key,
            pending,
            finished,
            *old(requested),
        ),
{
    if pending {
        return JobAction::Pending;
    }
    if key_is(t.req_key, key) && !key_is(t.done_key, key) {
        if let Some(ok) = finished {
            *requested = false;
            if ok {
                t.done_key = Some(key);
            }
            return JobAction::Finished { ok };
        }
    }
    if !*requested {
        return JobAction::Idle;
    }
    if key_is(t.done_key, key) {
        *requested = false;
        return JobAction::AlreadyDone;
    }
    t.req_key = Some(key);
    JobAction::Start
}

/// Long Term prefetch: decision for the batch starting at `target` (when one is asked
/// for).  Gives the next tracker, whether the batch request stays, and the action.
pub open spec fn spec_long_term_step(
    t: JobTracker,
    target: Option<SectorKey>,
    pending: bool,
    finished: Option<bool>,
) -> (Option<SectorKey>, Option<SectorKey>, bool, JobAction) {
    if pending {
        (t.req_key, t.done_key, target is Some, JobAction::Pending)
    } else {
        match target {
            None => (t.req_key, t.done_key, false, JobAction::Idle),
            Some(key) => if t.req_key == Some(key) && t.done_key != Some(key) && finished is Some {
                if finished->0 {
                    (t.req_key, Some(key), false, JobAction::Finished { ok: true })
                } else {
                    (t.req_key, t.done_key, false, JobAction::Finished { ok: false })
                }
            } else if t.done_key == Some(key) {
                (t.req_key, t.done_key, false, JobAction::AlreadyDone)
            } else {
                (Some(key), t.done_key, true, JobAction::Start)
            },
        }
    }
}

/// One decision of the Long Term prefetch; the boolean result tells whether the batch
/// request is kept.
pub fn long_term_step(
    t: &mut JobTracker,
    target: Option<SectorKey>,
    pending: bool,
    finished: Option<bool>,
) -> (r: (bool, JobAction))
    ensures
        (final(t).req_key, final(t).done_key, r.0, r.1) == spec_long_term_step(
            *old(t),
            target,
            pending,
            finished,
        ),
{
    if pending {
        return (target.is_some(), JobAction::Pending);
    }
    match target {
        None => (false, JobAction::Idle),
        Some(key) => {
            if key_is(t.req_key, key) && !key_is(t.done_key, key) {
                if let Some(ok) = finished {
                    if ok {
                        t.done_key = Some(key);
                    }
                    return (false, JobAction::Finished { ok });
                }
            }
            if key_is(t.done_key, key) {
                return (false, JobAction::AlreadyDone);
            }
            t.req_key = Some(key);
            (true, JobAction::Start)
        },
    }
}

/// Site key of an ISS prediction: start date, coordinates in ten-thousandths of a degree,
/// and whether the element set is refetched.
#[derive(Clone, Copy, PartialEq, Eq, Structural, Debug)]
pub struct IssKey {
    pub date: i32,
    pub lat_e4: i64,
    pub lon_e4: i64,
    pub force: bool,
}

/// Requests of the ISS panel.
#[derive(Clone, Copy, PartialEq, Eq, Structural, Debug)]
pub struct IssRequest {
    pub request_predict: bool,
    pub force_refresh: bool,
}

/// Which ISS prediction was last started and which last succeeded.
#[derive(Clone, Copy)]
pub struct IssTracker {
    pub req_key: Option<IssKey>,
    pub done_key: Option<IssKey>,
}

/// Same site and date, whatever the refetch flag.
pub open spec fn same_site(a: IssKey, b: IssKey) -> bool {
    a.date == b.date && a.lat_e4 == b.lat_e4 && a.lon_e4 == b.lon_e4
}

/// ISS prediction: decision for the current site key (its `force` is the panel's refetch
/// request).  A failed job clears both requests; a forced request always starts a job.
pub open spec fn spec_iss_step(
    t: IssTracker,
    key: IssKey,
    req: IssRequest,
    pending: bool,
    finished: Option<bool>,
) -> (Option<IssKey>, Option<IssKey>, IssRequest, JobAction) {
    if pending {
        (t.req_key, t.done_key, req, JobAction::Pending)
    } else if t.req_key == Some(key) && t.done_key != Some(key) && finished is Some {
        if finished->0 {
            (t.req_key, Some(key), req, JobAction::Finished { ok: true })
        } else {
            (t.req_key, t.done_key, IssRequest { request_predict: false, force_refresh: false }, JobAction::Finished { ok: false })
        }
    } else if !req.request_predict && !key.force {
        (t.req_key, t.done_key, req, JobAction::Idle)
    } else if !key.force && t.done_key is Some && same_site(t.done_key->0, key) {
        (t.req_key, t.done_key, IssRequest { request_predict: false, ..req }, JobAction::AlreadyDone)
    } else {
        (Some(key), t.done_key, IssRequest { force_refresh: false, ..req }, JobAction::Start)
    }
}

fn iss_key_is(k: Option<IssKey>, key: IssKey) -> (r: bool)
    ensures
        r == (k == Some(key)),
{
    match k {
        Some(x) => x == key,
        None => false,
    }
}

/// One decision of the ISS prediction job.
pub fn iss_step(t: &mut IssTracker, key: IssKey, req: &mut IssRequest, pending: bool, finished: Option<bool>) -> (r: JobAction)
    ensures
        (final(t).req_key, final(t).done_key, *final(req), r) == spec_iss_step(*old(t), key, *old(req), pending, finished),
{
    if pending {
        return JobAction::Pending;
    }
    if iss_key_is(t.req_key, key) && !iss_key_is(t.done_key, key) {
        if let Some(ok) = finished {
            if ok {
                t.done_key = Some(key);
            } else {
                req.request_predict = false;
                req.force_refresh = false;
            }
            return JobAction::Finished { ok };
        }
    }
    if !req.request_predict && !key.force {
        return JobAction::Idle;
    }
    if !key.force {
        match t.done_key {
            Some(d) => {
                if d.date == key.date && d.lat_e4 == key.lat_e4 && d.lon_e4 == key.lon_e4 {
                    req.request_predict = false;
                    return JobAction::AlreadyDone;
                }
            },
            None => {},
        }
    }
    t.req_key = Some(key);
    req.force_refresh = false;
    JobAction::Start
}

/// Weather fetch: whether to start one for `key`.  Without `force`, a key already
/// requested is not fetched again; nothing starts while a fetch runs.  Starting records
/// the key.
pub open spec fn spec_weather_start(last: Option<SectorKey>, key: SectorKey, force: bool, pending: bool) -> bool {
    (force || last != Some(key)) && !pending
}

/// One decision of the weather fetch; gives whether to start a fetch.
pub fn weather_step(last: &mut Option<SectorKey>, key: SectorKey, force: bool, pending: bool) -> (r: bool)
    ensures
        r == spec_weather_start(*old(last), key, force, pending),
        *final(last) == if r { Some(key) } else { *old(last) },
{
    if !force && key_is(*last, key) {
        return false;
    }
    if pending {
        return false;
    }
    *last = Some(key);
    true
}

/// Day number (days from the common era) of the calendar's last date, 262142-12-31.
pub const LAST_CALENDAR_DAY: i32 = 95_745_399;

/// Long Term panning: once the view reaches past the last cached night (and nothing is
/// being computed), the night after it becomes the next batch start, unless that start
/// was already asked for or the calendar has no next day.  Days are counted from the
/// common era.
pub open spec fn spec_next_prefetch_start(
    pending: bool,
    last_cached: Option<i32>,
    view_past_last: bool,
    last_requested: Option<i32>,
) -> Option<i32> {
    if pending || !view_past_last {
        None
    } else {
        match last_cached {
            None => None,
            Some(last) => if last >= LAST_CALENDAR_DAY || last_requested == Some((last + 1) as i32) {
                None
            } else {
                Some((last + 1) as i32)
            },
        }
    }
}

/// The batch start to request after panning, if any.
pub fn next_prefetch_start(
    pending: bool,
    last_cached: Option<i32>,
    view_past_last: bool,
    last_requested: Option<i32>,
) -> (r: Option<i32>)
    ensures
        r == spec_next_prefetch_start(pending, last_cached, view_past_last, last_requested),
{
    if pending || !view_past_last {
        return None;
    }
    match last_cached {
        None => None,
        Some(last) => {
            if last >= LAST_CALENDAR_DAY {
                return None;
            }
            let next = last + 1;
            match last_requested {
                Some(q) => if q == next {
                    None
                } else {
                    Some(next)
                },
                None => Some(next),
            }
        },
    }
}

/// Positions of the nights whose date is not among the dates already cached for the
/// sector (those are skipped).
pub fn nights_to_compute(night_dates: &Vec<i32>, cached_dates: &Vec<i32>) -> (r: Vec<usize>)
    ensures
        forall|i: int, j: int| 0 <= i < j < r@.len() ==> r@[i] < r@[j],
        forall|i: int| 0 <= i < r@.len() ==> #[trigger] r@[i] < night_dates@.len(),
        forall|k: int|
            0 <= k < night_dates@.len() ==> (r@.contains(k as usize) <==> !cached_dates@.contains(
                #[trigger] night_dates@[k],
            )),
{
    let mut out: Vec<usize> = Vec::new();
    let mut k: usize = 0;
    while k < night_dates.len()
        invariant
            k <= night_dates@.len(),
            forall|i: int, j: int| 0 <= i < j < out@.len() ==> out@[i] < out@[j],
            forall|i: int| 0 <= i < out@.len() ==> #[trigger] out@[i] < k,
            forall|m: int|
                0 <= m < k ==> (out@.contains(m as usize) <==> !cached_dates@.contains(
                    #[trigger] night_dates@[m],
                )),
        decreases night_dates@.len() - k,
    {
        let d = night_dates[k];
        let mut found = false;
        let mut j: usize = 0;
        while j < cached_dates.len()
            invariant
                j <= cached_dates@.len(),
                found == (exists|t: int| 0 <= t < j && cached_dates@[t] == d),
            decreases cached_dates@.len() - j,
        {
            if cached_dates[j] == d {
                found = true;
            }
            j = j + 1;
        }
        let ghost before = out@;
        if !found {
            out.push(k);
        }
        assert forall|m: int| 0 <= m < k + 1 implies (out@.contains(m as usize) <==> !cached_dates@.contains(
            #[trigger] night_dates@[m],
        )) by {
            if m < k {
                if out@.contains(m as usize) {
                    let w = choose|w: int| 0 <= w < out@.len() && out@[w] == m as usize;
                    if w < before.len() {
                        assert(before[w] == m as usize);
                    }
                }
                if before.contains(m as usize) {
                    let w = choose|w: int| 0 <= w < before.len() && before[w] == m as usize;
                    assert(out@[w] == m as usize);
                }
            } else {
                if !found {
                    assert(out@[before.len() as int] == k);
                } else {
                    let t = choose|t: int| 0 <= t < cached_dates@.len() && cached_dates@[t] == d;
                    assert(cached_dates@.contains(d));
                    if out@.contains(k) {
                        let w = choose|w: int| 0 <= w < out@.len() && out@[w] == k;
                        assert(before[w] < k);
                    }
                }
            }
        }
        k = k + 1;
    }
    out
}

/// A started job is never started again for the same key once it has succeeded, as
/// long as no new request comes in: after a successful finish, the next decision for
/// the same key (nothing running) does not start a job.
pub proof fn lemma_ephemeris_no_restart(t: JobTracker, key: SectorKey, requested: bool, next_finished: Option<bool>)
    requires
        t.req_key == Some(key),
        t.done_key != Some(key),
    ensures
        ({
            let (req1, done1, rq1, a1) = spec_ephemeris_step(t, key, false, Some(true), requested);
            let (req2, done2, rq2, a2) = spec_ephemeris_step(
                JobTracker { req_key: req1, done_key: done1 },
                key,
                false,
                next_finished,
                rq1,
            );
            a1 == JobAction::Finished { ok: true } && a2 != JobAction::Start
        }),
{
}

/// Long Term: once the batch for a start has been computed, asking for the same start
/// again does not start another job.
pub proof fn lemma_long_term_no_restart(t: JobTracker, key: SectorKey, next_finished: Option<bool>)
    requires
        t.req_key == Some(key),
        t.done_key != Some(key),
    ensures
        ({
            let (req1, done1, keep1, a1) = spec_long_term_step(t, Some(key), false, Some(true));
            let (req2, done2, keep2, a2) = spec_long_term_step(
                JobTracker { req_key: req1, done_key: done1 },
                Some(key),
                false,
                next_finished,
            );
            a1 == JobAction::Finished { ok: true } && a2 == JobAction::AlreadyDone && !keep2
        }),
{
}

/// ISS: once a prediction for a site and date has succeeded, later decisions for the
/// same site and date start no new job unless a refresh is forced.
pub proof fn lemma_iss_no_restart_without_force(t: IssTracker, key: IssKey, req: IssRequest, next_finished: Option<bool>)
    requires
        t.req_key == Some(key),
        t.done_key != Some(key),
        !key.force,
    ensures
        ({
            let (req1, done1, r1, a1) = spec_iss_step(t, key, req, false, Some(true));
            let (req2, done2, r2, a2) = spec_iss_step(
                IssTracker { req_key: req1, done_key: done1 },
                key,
                r1,
                false,
                next_finished,
            );
            a1 == JobAction::Finished { ok: true } && a2 != JobAction::Start
        }),
{
}

/// Takes up to `batch` nights from the front of the queue, in order.
pub fn take_batch(queue: &mut Vec<i32>, batch: usize) -> (r: Vec<i32>)
    ensures
        r@.len() == if batch < old(queue)@.len() { batch as int } else { old(queue)@.len() as int },
        r@ == old(queue)@.take(r@.len() as int),
        final(queue)@ == old(queue)@.skip(r@.len() as int),
{
    let n = if batch < queue.len() {
        batch
    } else {
        queue.len()
    };
    let mut taken: Vec<i32> = Vec::new();
    let mut rest: Vec<i32> = Vec::new();
    let mut i: usize = 0;
    while i < queue.len()
        invariant
            i <= queue@.len(),
            n <= queue@.len(),
            queue@ == old(queue)@,
            taken@ == queue@.take(if i < n { i as int } else { n as int }),
            rest@ == if i < n { seq![] } else { queue@.subrange(n as int, i as int) },
        decreases queue@.len() - i,
    {
        if i < n {
            taken.push(queue[i]);
            assert(taken@ =~= queue@.take(i + 1));
        } else {
            rest.push(queue[i]);
            assert(rest@ =~= queue@.subrange(n as int, i + 1));
        }
        i = i + 1;
    }
    assert(rest@ =~= old(queue)@.skip(n as int));
    *queue = rest;
    taken
}

/// The Daily ephemeris prefetch takes a job's outcome only for the key that job was
/// started for: it reports a finished job, or marks a key done, only when the job running
/// for the current key has ended (a success marks it done); a requested key that is not
/// done and has no ended job of its own starts a job; the last requested key changes only
/// by starting a job for the current key.
pub proof fn lemma_ephemeris_outcome_of_own_job(
    t: JobTracker,
    key: SectorKey,
    pending: bool,
    finished: Option<bool>,
    requested: bool,
)
    ensures
        spec_ephemeris_step(t, key, pending, finished, requested).3 is Finished ==> {
            &&& !pending
            &&& t.req_key == Some(key)
            &&& t.done_key != Some(key)
            &&& finished == Some(spec_ephemeris_step(t, key, pending, finished, requested).3->ok)
        },
        spec_ephemeris_step(t, key, pending, finished, requested).1 != t.done_key ==> {
            &&& spec_ephemeris_step(t, key, pending, finished, requested).1 == Some(key)
            &&& t.req_key == Some(key)
            &&& finished == Some(true)
            &&& !pending
        },
        !pending && requested && t.done_key != Some(key) && (t.req_key != Some(key) || finished is None) ==> {
            &&& spec_ephemeris_step(t, key, pending, finished, requested).3 == JobAction::Start
            &&& spec_ephemeris_step(t, key, pending, finished, requested).0 == Some(key)
            &&& spec_ephemeris_step(t, key, pending, finished, requested).1 == t.done_key
            &&& spec_ephemeris_step(t, key, pending, finished, requested).2
        },
        spec_ephemeris_step(t, key, pending, finished, requested).0 != t.req_key ==> {
            &&& spec_ephemeris_step(t, key, pending, finished, requested).0 == Some(key)
            &&& spec_ephemeris_step(t, key, pending, finished, requested).3 == JobAction::Start
        },
{
}

/// The Long Term prefetch takes a batch's outcome only for the batch it was started for:
/// it reports a finished batch, or marks a target done, only when the batch running for
/// that target has ended (a success marks it done); a target that is not done and has no
/// ended batch of its own starts a batch and keeps the request; the last requested batch
/// changes only by starting one for the target.
pub proof fn lemma_long_term_outcome_of_own_batch(
    t: JobTracker,
    target: Option<SectorKey>,
    pending: bool,
    finished: Option<bool>,
)
    ensures
        spec_long_term_step(t, target, pending, finished).3 is Finished ==> {
            &&& !pending
            &&& target is Some
            &&& t.req_key == target
            &&& t.done_key != target
            &&& finished == Some(spec_long_term_step(t, target, pending, finished).3->ok)
        },
        spec_long_term_step(t, target, pending, finished).1 != t.done_key ==> {
            &&& target is Some
            &&& spec_long_term_step(t, target, pending, finished).1 == target
            &&& t.req_key == target
            &&& finished == Some(true)
            &&& !pending
        },
        !pending && target is Some && t.done_key != target && (t.req_key != target || finished is None) ==> {
            &&& spec_long_term_step(t, target, pending, finished).3 == JobAction::Start
            &&& spec_long_term_step(t, target, pending, finished).2
            &&& spec_long_term_step(t, target, pending, finished).0 == target
            &&& spec_long_term_step(t, target, pending, finished).1 == t.done_key
        },
        spec_long_term_step(t, target, pending, finished).0 != t.req_key ==> {
            &&& target is Some
            &&& spec_long_term_step(t, target, pending, finished).0 == target
            &&& spec_long_term_step(t, target, pending, finished).3 == JobAction::Start
        },
{
}

/// The ISS prediction takes a job's outcome only for the site key that job was started
/// for: it reports a finished prediction, or marks a key done, only when the job running
/// for the current key has ended (a success marks it done); a key that is asked for (or
/// forced), has no ended job of its own, and is not already done for its site and date
/// (unless forced) starts a job; the last requested key changes only by starting a job for
/// the current key.
pub proof fn lemma_iss_outcome_of_own_job(
    t: IssTracker,
    key: IssKey,
    req: IssRequest,
    pending: bool,
    finished: Option<bool>,
)
    ensures
        spec_iss_step(t, key, req, pending, finished).3 is Finished ==> {
            &&& !pending
            &&& t.req_key == Some(key)
            &&& t.done_key != Some(key)
            &&& finished == Some(spec_iss_step(t, key, req, pending, finished).3->ok)
        },
        spec_iss_step(t, key, req, pending, finished).1 != t.done_key ==> {
            &&& spec_iss_step(t, key, req, pending, finished).1 == Some(key)
            &&& t.req_key == Some(key)
            &&& finished == Some(true)
            &&& !pending
        },
        !pending && (t.req_key != Some(key) || finished is None) && (req.request_predict || key.force) && (
        key.force || !(t.done_key is Some && same_site(t.done_key->0, key))) ==> {
            &&& spec_iss_step(t, key, req, pending, finished).3 == JobAction::Start
            &&& spec_iss_step(t, key, req, pending, finished).0 == Some(key)
            &&& spec_iss_step(t, key, req, pending, finished).1 == t.done_key
        },
        spec_iss_step(t, key, req, pending, finished).0 != t.req_key ==> {
            &&& spec_iss_step(t, key, req, pending, finished).0 == Some(key)
            &&& spec_iss_step(t, key, req, pending, finished).3 == JobAction::Start
        },
{
}

} // verus!
