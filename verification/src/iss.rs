use vstd::prelude::*;
use crate::order::{lemma_stable_order_positions, stable_order, stable_order_spec, time_pos_leq};
use crate::segments::trunc_div;
use crate::text::str_eq;
use crate::timegrid::nanos_in_calendar_span;

verus! {

/// Horizon of the ISS opportunity scan, in calendar days from the start date.
pub const ISS_PREDICT_DAY_COUNT: i64 = 60;

/// Element sets older than this (6 h, in ms) are refetched in the background.
pub const DEFAULT_TLE_FRESHNESS_MS: i64 = 21_600_000;

/// Disk-event predictions are flagged as soft beyond this element age (12 h, in ms).
pub const TRANSIT_WARN_AGE_MS: i64 = 43_200_000;

/// Visible-pass predictions become unreliable beyond this element age (24 h, in ms).
pub const PASS_STALE_AGE_MS: i64 = 86_400_000;

/// Body whose disk the ISS may cross.
#[derive(Clone, Copy, PartialEq, Eq, Debug)]
pub enum DiskBody {
    Sun,
    Moon,
}

/// Kind of a stored ISS prediction row.
#[derive(Clone, Copy, PartialEq, Eq, Debug)]
pub enum IssEventKind {
    VisiblePass,
    SunTransit,
    MoonTransit,
}

/// Text stored in the `kind` column for each event kind.
pub open spec fn spec_kind_name(k: IssEventKind) -> Seq<char> {
    match k {
        IssEventKind::VisiblePass => "visible_pass"@,
        IssEventKind::SunTransit => "sun_transit"@,
        IssEventKind::MoonTransit => "moon_transit"@,
    }
}

impl IssEventKind {
    /// Column text of the kind.
    pub fn name(self) -> (r: &'static str)
        ensures
            r@ == spec_kind_name(self),
    {
        match self {
            IssEventKind::VisiblePass => "visible_pass",
            IssEventKind::SunTransit => "sun_transit",
            IssEventKind::MoonTransit => "moon_transit",
        }
    }

    /// Kind of a disk event for the given body.
    pub fn for_disk(body: DiskBody) -> (r: IssEventKind)
        ensures
            r == match body {
                DiskBody::Sun => IssEventKind::SunTransit,
                DiskBody::Moon => IssEventKind::MoonTransit,
            },
    {
        match body {
            DiskBody::Sun => IssEventKind::SunTransit,
            DiskBody::Moon => IssEventKind::MoonTransit,
        }
    }
}

/// Reading back a stored kind: the three known texts, anything else is an error naming it.
pub open spec fn spec_event_kind_of(kind: Seq<char>) -> Result<IssEventKind, Seq<char>> {
    if kind == "visible_pass"@ {
        Ok(IssEventKind::VisiblePass)
    } else if kind == "sun_transit"@ {
        Ok(IssEventKind::SunTransit)
    } else if kind == "moon_transit"@ {
        Ok(IssEventKind::MoonTransit)
    } else {
        Err("unknown iss_events kind: "@ + kind)
    }
}

/// Parses the `kind` column of a stored event row.
pub fn event_kind_of(kind: &str) -> (r: Result<IssEventKind, String>)
    ensures
        match r {
            Ok(k) => spec_event_kind_of(kind@) == Ok::<IssEventKind, Seq<char>>(k),
            Err(e) => spec_event_kind_of(kind@) == Err::<IssEventKind, Seq<char>>(e@),
        },
{
    if str_eq(kind, "visible_pass") {
        Ok(IssEventKind::VisiblePass)
    } else if str_eq(kind, "sun_transit") {
        Ok(IssEventKind::SunTransit)
    } else if str_eq(kind, "moon_transit") {
        Ok(IssEventKind::MoonTransit)
    } else {
        let mut e = String::from_str("unknown iss_events kind: ");
        e.append(kind);
        Err(e)
    }
}

/// Writing a kind and reading it back gives the same kind.
pub proof fn lemma_kind_round_trip(k: IssEventKind)
    ensures
        spec_event_kind_of(spec_kind_name(k)) == Ok::<IssEventKind, Seq<char>>(k),
{
    reveal_strlit("visible_pass");
    reveal_strlit("sun_transit");
    reveal_strlit("moon_transit");
    assert("sun_transit"@[0] != "visible_pass"@[0]);
    assert("moon_transit"@[0] != "visible_pass"@[0]);
    assert("moon_transit"@[0] != "sun_transit"@[0]);
}

/// Which list an ISS opportunity comes from.
#[derive(Clone, Copy, PartialEq, Eq, Debug)]
pub enum OpportunitySource {
    Pass,
    SunDisk,
    MoonDisk,
}

/// Pass peaks, then Sun events, then Moon events, as one list of times.
pub open spec fn merged_times(passes: Seq<i128>, sun: Seq<i128>, moon: Seq<i128>) -> Seq<i128> {
    passes + sun + moon
}

/// Source and index of the item at position `p` of the merged list.
pub open spec fn merged_item(passes: Seq<i128>, sun: Seq<i128>, p: int) -> (OpportunitySource, int) {
    if p < passes.len() {
        (OpportunitySource::Pass, p)
    } else if p < passes.len() + sun.len() {
        (OpportunitySource::SunDisk, p - passes.len())
    } else {
        (OpportunitySource::MoonDisk, p - passes.len() - sun.len())
    }
}

/// The merged opportunities in time order; equal times keep passes, then Sun, then Moon
/// events, each in list order.
pub open spec fn spec_opportunity_order(passes: Seq<i128>, sun: Seq<i128>, moon: Seq<i128>) -> Seq<
    (OpportunitySource, int),
> {
    stable_order_spec(merged_times(passes, sun, moon)).map_values(
        |p: usize| merged_item(passes, sun, p as int),
    )
}

/// Event time of a merged item.
pub open spec fn item_time(passes: Seq<i128>, sun: Seq<i128>, moon: Seq<i128>, it: (OpportunitySource, int)) -> i128 {
    match it.0 {
        OpportunitySource::Pass => passes[it.1],
        OpportunitySource::SunDisk => sun[it.1],
        OpportunitySource::MoonDisk => moon[it.1],
    }
}

/// The merged list holds every pass and disk event once, in nondecreasing time.
pub proof fn lemma_opportunities_chronological(passes: Seq<i128>, sun: Seq<i128>, moon: Seq<i128>)
    ensures
        spec_opportunity_order(passes, sun, moon).len() == passes.len() + sun.len() + moon.len(),
        forall|i: int, j: int|
            0 <= i < j < spec_opportunity_order(passes, sun, moon).len() ==> item_time(
                passes,
                sun,
                moon,
                #[trigger] spec_opportunity_order(passes, sun, moon)[i],
            ) <= item_time(passes, sun, moon, #[trigger] spec_opportunity_order(passes, sun, moon)[j]),
{
    let t = merged_times(passes, sun, moon);
    let s = stable_order_spec(t);
    let o = spec_opportunity_order(passes, sun, moon);
    lemma_stable_order_positions(t);
    assert forall|p: int| 0 <= p < t.len() implies item_time(passes, sun, moon, merged_item(passes, sun, p))
        == #[trigger] t[p] by {
        if p < passes.len() {
            assert(t[p] == passes[p]);
        } else if p < passes.len() + sun.len() {
            assert(t[p] == (passes + sun)[p]);
        } else {
            assert(t[p] == moon[p - passes.len() - sun.len()]);
        }
    }
    assert forall|i: int, j: int| 0 <= i < j < o.len() implies item_time(passes, sun, moon, #[trigger] o[i])
        <= item_time(passes, sun, moon, #[trigger] o[j]) by {
        assert(o[i] == merged_item(passes, sun, s[i] as int));
        assert(o[j] == merged_item(passes, sun, s[j] as int));
        assert(time_pos_leq(t)(s[i], s[j]));
        assert(t[s[i] as int] == item_time(passes, sun, moon, o[i]));
        assert(t[s[j] as int] == item_time(passes, sun, moon, o[j]));
    }
}

/// Chronological list of visible passes (by peak) and Sun/Moon disk events (by center time).
pub fn opportunity_list(pass_peaks_ns: &Vec<i128>, sun_centers_ns: &Vec<i128>, moon_centers_ns: &Vec<i128>) -> (r: Vec<(OpportunitySource, usize)>)
    ensures
        r@.map_values(|x: (OpportunitySource, usize)| (x.0, x.1 as int)) == spec_opportunity_order(
            pass_peaks_ns@,
            sun_centers_ns@,
            moon_centers_ns@,
        ),
{
    let mut times: Vec<i128> = Vec::new();
    let mut i: usize = 0;
    while i < pass_peaks_ns.len()
        invariant
            i <= pass_peaks_ns@.len(),
            times@ == pass_peaks_ns@.take(i as int),
        decreases pass_peaks_ns@.len() - i,
    {
        times.push(pass_peaks_ns[i]);
        assert(times@ =~= pass_peaks_ns@.take(i + 1));
        i = i + 1;
    }
    assert(pass_peaks_ns@.take(i as int) =~= pass_peaks_ns@);
    let mut j: usize = 0;
    while j < sun_centers_ns.len()
        invariant
            j <= sun_centers_ns@.len(),
            times@ == pass_peaks_ns@ + sun_centers_ns@.take(j as int),
        decreases sun_centers_ns@.len() - j,
    {
        times.push(sun_centers_ns[j]);
        assert(times@ =~= pass_peaks_ns@ + sun_centers_ns@.take(j + 1));
        j = j + 1;
    }
    assert(sun_centers_ns@.take(j as int) =~= sun_centers_ns@);
    let mut k: usize = 0;
    while k < moon_centers_ns.len()
        invariant
            k <= moon_centers_ns@.len(),
            times@ == pass_peaks_ns@ + sun_centers_ns@ + moon_centers_ns@.take(k as int),
        decreases moon_centers_ns@.len() - k,
    {
        times.push(moon_centers_ns[k]);
        assert(times@ =~= pass_peaks_ns@ + sun_centers_ns@ + moon_centers_ns@.take(k + 1));
        k = k + 1;
    }
    assert(moon_centers_ns@.take(k as int) =~= moon_centers_ns@);
    let ghost mt = merged_times(pass_peaks_ns@, sun_centers_ns@, moon_centers_ns@);
    assert(times@ == mt);
    let order = stable_order(&times);
    proof {
        lemma_stable_order_positions(times@);
    }
    let np = pass_peaks_ns.len();
    let ns = sun_centers_ns.len();
    let mut r: Vec<(OpportunitySource, usize)> = Vec::new();
    let mut q: usize = 0;
    while q < order.len()
        invariant
            q <= order@.len(),
            np == pass_peaks_ns@.len(),
            ns == sun_centers_ns@.len(),
            order@ == stable_order_spec(mt),
            mt == merged_times(pass_peaks_ns@, sun_centers_ns@, moon_centers_ns@),
            forall|t: int| 0 <= t < order@.len() ==> #[trigger] order@[t] < mt.len(),
            r@.len() == q,
            forall|t: int|
                0 <= t < q ==> ((#[trigger] r@[t]).0, r@[t].1 as int) == merged_item(
                    pass_peaks_ns@,
                    sun_centers_ns@,
                    order@[t] as int,
                ),
        decreases order@.len() - q,
    {
        let p = order[q];
        if p < np {
            r.push((OpportunitySource::Pass, p));
        } else if p - np < ns {
            r.push((OpportunitySource::SunDisk, p - np));
        } else {
            r.push((OpportunitySource::MoonDisk, p - np - ns));
        }
        q = q + 1;
    }
    assert(r@.map_values(|x: (OpportunitySource, usize)| (x.0, x.1 as int)) =~= spec_opportunity_order(
        pass_peaks_ns@,
        sun_centers_ns@,
        moon_centers_ns@,
    ));
    r
}

/// Visible-pass duration in whole seconds: the stored visible-window length when positive,
/// else AOS→LOS truncated to whole seconds and floored at zero.
pub open spec fn spec_pass_duration_secs(duration_secs: i64, aos_ns: i128, los_ns: i128) -> int {
    if duration_secs > 0 {
        duration_secs as int
    } else {
        let s = trunc_div(los_ns - aos_ns, 1_000_000_000);
        if s < 0 {
            0
        } else {
            s
        }
    }
}

/// Duration of a pass in whole seconds.
pub fn pass_duration_secs(duration_secs: i64, aos_ns: i128, los_ns: i128) -> (r: i64)
    requires
        nanos_in_calendar_span(aos_ns as int),
        nanos_in_calendar_span(los_ns as int),
    ensures
        r == spec_pass_duration_secs(duration_secs, aos_ns, los_ns),
{
    if duration_secs > 0 {
        duration_secs
    } else {
        let d: i128 = los_ns - aos_ns;
        if d >= 0 {
            (d / 1_000_000_000) as i64
        } else {
            0
        }
    }
}


/// Warning shown for an element set of the given age (ns): past a day, pass times may
/// drift; past half a day, the disk-event corridor is uncertain; otherwise none.
pub open spec fn spec_tle_age_warning(age_ns: int) -> Option<Seq<char>> {
    if age_ns > PASS_STALE_AGE_MS * 1_000_000 {
        Some("TLE older than 24 h - later pass times may drift; refresh recommended."@)
    } else if age_ns > TRANSIT_WARN_AGE_MS * 1_000_000 {
        Some("TLE older than 12 h - Sun/Moon disk corridor (~5-10 km) is uncertain."@)
    } else {
        None
    }
}

/// Warning for the age of the cached element set, if any.
pub fn tle_age_warning(age_ns: i128) -> (r: Option<&'static str>)
    ensures
        match r {
            Some(w) => spec_tle_age_warning(age_ns as int) == Some(w@),
            None => spec_tle_age_warning(age_ns as int) is None,
        },
{
    if age_ns > PASS_STALE_AGE_MS as i128 * 1_000_000 {
        Some("TLE older than 24 h - later pass times may drift; refresh recommended.")
    } else if age_ns > TRANSIT_WARN_AGE_MS as i128 * 1_000_000 {
        Some("TLE older than 12 h - Sun/Moon disk corridor (~5-10 km) is uncertain.")
    } else {
        None
    }
}

/// Whether the run from `s` to `e` is longer than the best run so far (any run is, when
/// there is none yet).
pub open spec fn longer_run(best: Option<(i128, i128)>, s: int, e: int) -> bool {
    match best {
        None => true,
        Some((a, b)) => e - s > b - a,
    }
}

/// The longest run of visible samples along a pass, as the samples come in: the best
/// run so far (first and last instant, ns) and the start of the run in progress.
pub struct VisibleRuns {
    pub best: Option<(i128, i128)>,
    pub run_start: Option<i128>,
}

impl VisibleRuns {
    /// All instants held are calendar instants.
    pub open spec fn wf(&self) -> bool {
        &&& (self.best matches Some((a, b)) ==> nanos_in_calendar_span(a as int) && nanos_in_calendar_span(b as int))
        &&& (self.run_start matches Some(s) ==> nanos_in_calendar_span(s as int))
    }

    /// No sample yet.
    pub fn new() -> (r: Self)
        ensures
            r.best is None,
            r.run_start is None,
            r.wf(),
    {
        VisibleRuns { best: None, run_start: None }
    }

    /// The sample at `t_ns`, `step_ns` after the previous one.  A visible sample starts a
    /// run if none is in progress; a hidden one ends the run in progress, whose last
    /// sample was at `t_ns - step_ns`, and that run becomes the best when it has positive
    /// length and is longer than the best so far.
    pub fn sample(&mut self, t_ns: i128, visible: bool, step_ns: i128)
        requires
            old(self).wf(),
            nanos_in_calendar_span(t_ns as int),
            !visible && old(self).run_start is Some ==> nanos_in_calendar_span(t_ns - step_ns),
        ensures
            final(self).wf(),
            visible ==> final(self).best == old(self).best && final(self).run_start == match old(
                self,
            ).run_start {
                Some(s) => Some(s),
                None => Some(t_ns),
            },
            !visible ==> final(self).run_start is None && final(self).best == match old(self).run_start {
                None => old(self).best,
                Some(s) => if t_ns - step_ns > s && longer_run(old(self).best, s as int, t_ns - step_ns) {
                    Some((s, (t_ns - step_ns) as i128))
                } else {
                    old(self).best
                },
            },
    {
        if visible {
            if self.run_start.is_none() {
                self.run_start = Some(t_ns);
            }
        } else {
            match self.run_start {
                None => {},
                Some(s) => {
                    self.run_start = None;
                    let end = t_ns - step_ns;
                    if end > s {
                        let better = match self.best {
                            None => true,
                            Some((a, b)) => end - s > b - a,
                        };
                        if better {
                            self.best = Some((s, end));
                        }
                    }
                },
            }
        }
    }

    /// The longest run once the last sample, at `los_ns`, is in: a run still in progress
    /// ends there and wins when longer than the best so far.
    pub fn finish(&self, los_ns: i128) -> (r: Option<(i128, i128)>)
        requires
            self.wf(),
            nanos_in_calendar_span(los_ns as int),
        ensures
            r == match self.run_start {
                None => self.best,
                Some(s) => if longer_run(self.best, s as int, los_ns as int) {
                    Some((s, los_ns))
                } else {
                    self.best
                },
            },
    {
        match self.run_start {
            None => self.best,
            Some(s) => {
                let better = match self.best {
                    None => true,
                    Some((a, b)) => los_ns - s > b - a,
                };
                if better {
                    Some((s, los_ns))
                } else {
                    self.best
                }
            },
        }
    }
}

} // verus!
