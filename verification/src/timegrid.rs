use vstd::prelude::*;

verus! {

/// A span that every UTC instant representable by the calendar library lies in
/// (seconds since the Unix epoch); the library's own range is a little narrower.
pub open spec fn secs_in_calendar_span(ts: int) -> bool {
    -9_000_000_000_000 <= ts <= 9_000_000_000_000
}

/// The same span in milliseconds.
pub open spec fn millis_in_calendar_span(ms: int) -> bool {
    -9_100_000_000_000_000 <= ms <= 9_100_000_000_000_000
}

/// A span that every UTC instant representable by the calendar library lies in, in
/// nanoseconds since the Unix epoch.
pub open spec fn nanos_in_calendar_span(ns: int) -> bool {
    -10_000_000_000_000_000_000_000_000 <= ns <= 10_000_000_000_000_000_000_000_000
}

/// Start of the `step_min`-minute slot holding `ts` (seconds; slots aligned on the epoch).
pub open spec fn spec_floor_to_minutes(ts: int, step_min: int) -> int {
    ts - ts % (step_min * 60)
}

/// First `step_min`-minute slot boundary at or after `ts` (seconds).
pub open spec fn spec_ceil_to_minutes(ts: int, step_min: int) -> int {
    if ts % (step_min * 60) == 0 {
        ts
    } else {
        ts + (step_min * 60 - ts % (step_min * 60))
    }
}

/// Euclidean remainder of `a` by a positive `b` (what `i64::rem_euclid` computes).
pub(crate) fn rem_euclid_i64(a: i64, b: i64) -> (r: i64)
    requires
        b > 0,
    ensures
        r == a as int % b as int,
{
    if a >= 0 {
        a % b
    } else {
        let n: i64 = -(a + 1);
        let m = n % b;
        proof {
            let ai = a as int;
            let bi = b as int;
            let ni = n as int;
            let mi = m as int;
            vstd::arithmetic::div_mod::lemma_fundamental_div_mod(ni, bi);
            let q = ni / bi;
            assert(ai == (-q - 1) * bi + (bi - 1 - mi)) by (nonlinear_arith)
                requires ni == bi * q + mi, ai == -ni - 1;
            vstd::arithmetic::div_mod::lemma_mod_bound(ni, bi);
            vstd::arithmetic::div_mod::lemma_fundamental_div_mod_converse(ai, bi, -q - 1, bi - 1 - mi);
        }
        b - 1 - m
    }
}

/// Largest step in minutes whose length in seconds fits in an `i64` (`i64::MAX / 60`).
pub const MAX_STEP_MINUTES: i64 = 153_722_867_280_912_930;

/// Rounds a UTC timestamp (seconds) down to a multiple of `step_min` minutes; the
/// rounded instant has to be a calendar instant again.
pub fn floor_to_minutes(ts: i64, step_min: i64) -> (r: i64)
    requires
        secs_in_calendar_span(ts as int),
        0 < step_min <= MAX_STEP_MINUTES,
        secs_in_calendar_span(spec_floor_to_minutes(ts as int, step_min as int)),
    ensures
        r == spec_floor_to_minutes(ts as int, step_min as int),
{
    let step = step_min * 60;
    let rem = rem_euclid_i64(ts, step);
    ts - rem
}

/// Rounds a UTC timestamp (seconds) up to a multiple of `step_min` minutes; the rounded
/// instant has to be a calendar instant again.
pub fn ceil_to_minutes(ts: i64, step_min: i64) -> (r: i64)
    requires
        secs_in_calendar_span(ts as int),
        0 < step_min <= MAX_STEP_MINUTES,
        secs_in_calendar_span(spec_ceil_to_minutes(ts as int, step_min as int)),
    ensures
        r == spec_ceil_to_minutes(ts as int, step_min as int),
{
    let step = step_min * 60;
    let rem = rem_euclid_i64(ts, step);
    if rem == 0 {
        ts
    } else {
        ts + (step - rem)
    }
}

/// Rounding down and up bracket the instant within one slot, on slot boundaries.
pub proof fn lemma_minute_rounding_brackets(ts: int, step_min: int)
    requires
        step_min > 0,
    ensures
        spec_floor_to_minutes(ts, step_min) <= ts <= spec_ceil_to_minutes(ts, step_min),
        ts - spec_floor_to_minutes(ts, step_min) < step_min * 60,
        spec_ceil_to_minutes(ts, step_min) - ts < step_min * 60,
        spec_floor_to_minutes(ts, step_min) % (step_min * 60) == 0,
        spec_ceil_to_minutes(ts, step_min) % (step_min * 60) == 0,
        spec_floor_to_minutes(spec_floor_to_minutes(ts, step_min), step_min) == spec_floor_to_minutes(ts, step_min),
        spec_ceil_to_minutes(spec_ceil_to_minutes(ts, step_min), step_min) == spec_ceil_to_minutes(ts, step_min),
{
    let step = step_min * 60;
    assert(step > 0) by (nonlinear_arith)
        requires step_min > 0, step == step_min * 60;
    vstd::arithmetic::div_mod::lemma_fundamental_div_mod(ts, step);
    let f = ts - ts % step;
    assert(f == step * (ts / step));
    vstd::arithmetic::div_mod::lemma_mod_multiples_basic(ts / step, step);
    assert((ts / step) * step == step * (ts / step)) by (nonlinear_arith);
    if ts % step != 0 {
        let c = ts + (step - ts % step);
        assert(c == step * (ts / step + 1)) by (nonlinear_arith)
            requires c == ts + (step - ts % step), ts == step * (ts / step) + ts % step;
        vstd::arithmetic::div_mod::lemma_mod_multiples_basic(ts / step + 1, step);
        assert((ts / step + 1) * step == step * (ts / step + 1)) by (nonlinear_arith);
    }
}


/// One night of one calendar date: the date as a day number (days from the common
/// era, day 1 = 0001-01-01) and the dark-time bounds in UTC epoch milliseconds.
pub struct NightInfo {
    pub date: i32,
    pub night_start_ms: i64,
    pub night_end_ms: i64,
}

/// Sample instants `start, start + step, …` up to and including `end` (none when `end < start`).
pub open spec fn spec_ticks(start: int, end: int, step: int) -> Seq<int> {
    if end < start {
        seq![]
    } else {
        Seq::new(((end - start) / step + 1) as nat, |k: int| start + k * step)
    }
}

/// Largest sampling interval in minutes that the calendar library's durations can hold
/// (their limit is `i64::MAX` milliseconds).
pub const MAX_INTERVAL_MINUTES: i64 = 153_722_867_280_912;

/// Sampling a night steps once past its last sample; that step has to stay a calendar
/// instant (nothing is stepped when the night is empty).
pub open spec fn night_steps_fit(night: NightInfo, step: int) -> bool {
    night.night_end_ms < night.night_start_ms || millis_in_calendar_span(
        spec_ticks(night.night_start_ms as int, night.night_end_ms as int, step).last() + step,
    )
}

/// Sample instants (ms) of one night every `interval_minutes`.
pub fn night_ticks(night: &NightInfo, interval_minutes: i64) -> (r: Vec<i64>)
    requires
        0 < interval_minutes <= MAX_INTERVAL_MINUTES,
        millis_in_calendar_span(night.night_start_ms as int),
        millis_in_calendar_span(night.night_end_ms as int),
        night_steps_fit(*night, interval_minutes * 60000),
    ensures
        r@.map_values(|t: i64| t as int) == spec_ticks(
            night.night_start_ms as int,
            night.night_end_ms as int,
            interval_minutes * 60000,
        ),
{
    let step: i64 = interval_minutes * 60000;
    let s = night.night_start_ms;
    let e = night.night_end_ms;
    let mut ticks: Vec<i64> = Vec::new();
    if e < s {
        assert(ticks@.map_values(|t: i64| t as int) =~= spec_ticks(s as int, e as int, step as int));
        return ticks;
    }
    let ghost last: int = spec_ticks(s as int, e as int, step as int).last();
    proof {
        vstd::arithmetic::div_mod::lemma_fundamental_div_mod((e - s) as int, step as int);
        vstd::arithmetic::div_mod::lemma_mod_bound((e - s) as int, step as int);
        assert(((e - s) as int / step as int) >= 0) by (nonlinear_arith)
            requires e - s >= 0, step > 0;
        assert(last == s + ((e - s) as int / step as int) * step);
    }
    let mut t: i64 = s;
    let ghost mut k: int = 0;
    while t <= e
        invariant
            s <= e,
            millis_in_calendar_span(s as int),
            millis_in_calendar_span(e as int),
            0 < step,
            last == s + ((e - s) as int / step as int) * step,
            millis_in_calendar_span(last + step),
            0 <= k,
            t == s + k * step,
            s <= t,
            t <= e ==> k <= (e - s) as int / step as int,
            t > e ==> t <= last + step,
            ticks@.len() == k,
            forall|j: int| 0 <= j < k ==> #[trigger] ticks@[j] == s + j * step,
        decreases e as int + step as int - t as int,
    {
        ticks.push(t);
        proof {
            assert(s + (k + 1) * step == s + k * step + step) by (nonlinear_arith);
            assert(k * step <= ((e - s) as int / step as int) * step) by (nonlinear_arith)
                requires k <= (e - s) as int / step as int, step > 0;
            if t + step <= e {
                assert((k + 1) * step <= (e - s) as int);
                vstd::arithmetic::div_mod::lemma_div_is_ordered((k + 1) * step, (e - s) as int, step as int);
                vstd::arithmetic::div_mod::lemma_div_multiples_vanish(k + 1, step as int);
                assert((k + 1) * step == step * (k + 1)) by (nonlinear_arith);
            }
        }
        t = t + step;
        proof {
            k = k + 1;
        }
    }
    proof {
        let n = ((e - s) / (step as int) + 1) as nat;
        assert(e - s == (k - 1) * step + (e - (s + (k - 1) * step))) by (nonlinear_arith);
        assert(s + (k - 1) * step == s + k * step - step) by (nonlinear_arith);
        vstd::arithmetic::div_mod::lemma_fundamental_div_mod_converse(
            (e - s) as int,
            step as int,
            k - 1,
            e - (s + (k - 1) * step),
        );
        assert(ticks@.map_values(|t: i64| t as int) =~= spec_ticks(s as int, e as int, step as int));
    }
    ticks
}

/// Every sample lies inside the night, the first is its start, samples are `step`
/// apart, and the sample after the last would fall past the end.
pub proof fn lemma_ticks_cover_night(start: int, end: int, step: int)
    requires
        step > 0,
        start <= end,
    ensures
        spec_ticks(start, end, step).len() >= 1,
        spec_ticks(start, end, step)[0] == start,
        forall|k: int|
            0 <= k < spec_ticks(start, end, step).len() ==> start <= #[trigger] spec_ticks(
                start,
                end,
                step,
            )[k] <= end,
        forall|k: int|
            0 <= k < spec_ticks(start, end, step).len() - 1 ==> #[trigger] spec_ticks(
                start,
                end,
                step,
            )[k + 1] - spec_ticks(start, end, step)[k] == step,
        spec_ticks(start, end, step).last() + step > end,
{
    let t = spec_ticks(start, end, step);
    let n = (end - start) / step;
    vstd::arithmetic::div_mod::lemma_fundamental_div_mod(end - start, step);
    vstd::arithmetic::div_mod::lemma_mod_bound(end - start, step);
    assert(n >= 0) by (nonlinear_arith)
        requires end - start >= 0, step > 0, n == (end - start) / step;
    assert forall|k: int| 0 <= k < t.len() implies start <= #[trigger] t[k] <= end by {
        assert(k * step <= n * step) by (nonlinear_arith)
            requires 0 <= k <= n, step > 0;
        assert(0 <= k * step) by (nonlinear_arith)
            requires 0 <= k, step > 0;
    }
    assert forall|k: int| 0 <= k < t.len() - 1 implies #[trigger] t[k + 1] - t[k] == step by {
        assert(start + (k + 1) * step - (start + k * step) == step) by (nonlinear_arith);
    }
    assert(t.last() == start + n * step);
}

/// The nights' sample instants, per night date.
pub fn build_night_intervals(nights: &Vec<NightInfo>, interval_minutes: i64) -> (r: Vec<(i32, Vec<i64>)>)
    requires
        0 < interval_minutes <= MAX_INTERVAL_MINUTES,
        forall|i: int|
            #![trigger nights@[i]]
            0 <= i < nights@.len() ==> millis_in_calendar_span(nights@[i].night_start_ms as int)
                && millis_in_calendar_span(nights@[i].night_end_ms as int)
                && night_steps_fit(nights@[i], interval_minutes * 60000),
    ensures
        r@.len() == nights@.len(),
        forall|i: int|
            0 <= i < r@.len() ==> (#[trigger] r@[i]).0 == nights@[i].date && r@[i].1@.map_values(
                |t: i64| t as int,
            ) == spec_ticks(
                nights@[i].night_start_ms as int,
                nights@[i].night_end_ms as int,
                interval_minutes * 60000,
            ),
{
    let mut out: Vec<(i32, Vec<i64>)> = Vec::new();
    let mut i: usize = 0;
    while i < nights.len()
        invariant
            i <= nights@.len(),
            0 < interval_minutes <= MAX_INTERVAL_MINUTES,
            forall|j: int|
                #![trigger nights@[j]]
                0 <= j < nights@.len() ==> millis_in_calendar_span(nights@[j].night_start_ms as int)
                    && millis_in_calendar_span(nights@[j].night_end_ms as int)
                    && night_steps_fit(nights@[j], interval_minutes * 60000),
            out@.len() == i,
            forall|j: int|
                0 <= j < i ==> (#[trigger] out@[j]).0 == nights@[j].date && out@[j].1@.map_values(
                    |t: i64| t as int,
                ) == spec_ticks(
                    nights@[j].night_start_ms as int,
                    nights@[j].night_end_ms as int,
                    interval_minutes * 60000,
                ),
        decreases nights@.len() - i,
    {
        let ticks = night_ticks(&nights[i], interval_minutes);
        out.push((nights[i].date, ticks));
        i = i + 1;
    }
    out
}


/// Sunrise and sunset (UTC epoch seconds) computed for one calendar day.
pub struct DailySun {
    pub date: i32,
    pub rise: i64,
    pub set: i64,
}

/// Night of day `d`: from its sunset rounded up to 10 minutes to the next day's
/// sunrise rounded down to 10 minutes, in milliseconds.
pub open spec fn spec_night_between(d: DailySun, next: DailySun) -> (i32, int, int) {
    (
        d.date,
        spec_ceil_to_minutes(d.set as int, 10) * 1000,
        spec_floor_to_minutes(next.rise as int, 10) * 1000,
    )
}

pub open spec fn night_view(n: NightInfo) -> (i32, int, int) {
    (n.date, n.night_start_ms as int, n.night_end_ms as int)
}

/// One night per consecutive pair of days: all days but the last get a night.
pub fn nights_from_daily(daily: &Vec<DailySun>) -> (r: Vec<NightInfo>)
    requires
        forall|i: int|
            #![trigger daily@[i]]
            0 <= i < daily@.len() ==> secs_in_calendar_span(daily@[i].rise as int)
                && secs_in_calendar_span(daily@[i].set as int),
    ensures
        r@.len() == if daily@.len() == 0 { 0 } else { daily@.len() - 1 },
        forall|i: int|
            0 <= i < r@.len() ==> night_view(#[trigger] r@[i]) == spec_night_between(
                daily@[i],
                daily@[i + 1],
            ),
{
    let mut out: Vec<NightInfo> = Vec::new();
    if daily.len() == 0 {
        return out;
    }
    let n = daily.len() - 1;
    let mut i: usize = 0;
    while i < n
        invariant
            i <= n,
            n == daily@.len() - 1,
            forall|j: int|
                #![trigger daily@[j]]
                0 <= j < daily@.len() ==> secs_in_calendar_span(daily@[j].rise as int)
                    && secs_in_calendar_span(daily@[j].set as int),
            out@.len() == i,
            forall|j: int|
                0 <= j < i ==> night_view(#[trigger] out@[j]) == spec_night_between(daily@[j], daily@[j + 1]),
        decreases n - i,
    {
        let d = &daily[i];
        let next = &daily[i + 1];
        let start = ceil_to_minutes(d.set, 10);
        let end = floor_to_minutes(next.rise, 10);
        proof {
            lemma_minute_rounding_brackets(d.set as int, 10);
            lemma_minute_rounding_brackets(next.rise as int, 10);
        }
        out.push(NightInfo { date: d.date, night_start_ms: start * 1000, night_end_ms: end * 1000 });
        i = i + 1;
    }
    out
}

/// Middle of the night, rounded toward its start (ms).
pub open spec fn spec_night_midpoint(n: NightInfo) -> int {
    n.night_start_ms + trunc_div2(n.night_end_ms - n.night_start_ms)
}

/// Halving truncated toward zero.
pub open spec fn trunc_div2(a: int) -> int {
    if a >= 0 {
        a / 2
    } else {
        -((-a) / 2)
    }
}

/// Midpoint of a night (ms).
pub fn night_midpoint(n: &NightInfo) -> (r: i64)
    requires
        millis_in_calendar_span(n.night_start_ms as int),
        millis_in_calendar_span(n.night_end_ms as int),
    ensures
        r == spec_night_midpoint(*n),
{
    let d: i64 = n.night_end_ms - n.night_start_ms;
    if d >= 0 {
        n.night_start_ms + d / 2
    } else {
        n.night_start_ms - (-d) / 2
    }
}

/// Day number (days from the common era) of 1970-01-01.
pub const UNIX_EPOCH_DAY: i64 = 719_163;

/// UTC midnight starting day `day` (days from the common era), in epoch milliseconds.
pub open spec fn spec_midnight_ms(day: int) -> int {
    (day - UNIX_EPOCH_DAY) * 86_400_000
}

/// UTC window `[midnight(date), midnight(date + days))` in epoch milliseconds.
pub fn utc_window_for_dates(date: i32, days: i64) -> (r: (i64, i64))
    requires
        -100_000_000 <= date as int + days <= 100_000_000,
    ensures
        r.0 == spec_midnight_ms(date as int),
        r.1 == spec_midnight_ms(date as int + days),
{
    let d0: i64 = date as i64;
    let start = (d0 - UNIX_EPOCH_DAY) * 86_400_000;
    let end = (d0 + days - UNIX_EPOCH_DAY) * 86_400_000;
    (start, end)
}


/// Instant the weather forecast is read for: now on the ISS view; else the middle of the
/// selected night when it has positive length; else noon of the selected date.
pub open spec fn spec_weather_target_ms(iss_view: bool, now_ms: int, night: Option<NightInfo>, noon_ms: int) -> int {
    if iss_view {
        now_ms
    } else {
        match night {
            Some(n) => if n.night_end_ms > n.night_start_ms {
                spec_night_midpoint(n)
            } else {
                noon_ms
            },
            None => noon_ms,
        }
    }
}

/// Forecast instant (ms) for the current view.
pub fn weather_target_ms(iss_view: bool, now_ms: i64, night: Option<&NightInfo>, noon_ms: i64) -> (r: i64)
    requires
        match night {
            Some(n) => millis_in_calendar_span(n.night_start_ms as int) && millis_in_calendar_span(
                n.night_end_ms as int,
            ),
            None => true,
        },
    ensures
        r == spec_weather_target_ms(
            iss_view,
            now_ms as int,
            match night {
                Some(n) => Some(*n),
                None => None,
            },
            noon_ms as int,
        ),
{
    if iss_view {
        return now_ms;
    }
    match night {
        Some(n) => {
            if n.night_end_ms > n.night_start_ms {
                night_midpoint(n)
            } else {
                noon_ms
            }
        },
        None => noon_ms,
    }
}

} // verus!
