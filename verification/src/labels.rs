use vstd::prelude::*;
use crate::segments::trunc_div;
use crate::timegrid::{lemma_ticks_cover_night, night_ticks, rem_euclid_i64, spec_ticks, NightInfo};
use crate::text::{decimal, pad2, push_decimal, push_pad2, push_signed_decimal, signed_decimal};

verus! {

/// Short description of a Bortle dark-sky class (1 = excellent … 9 = inner city).
pub open spec fn spec_bortle_hint(class: u8) -> Seq<char> {
    if class == 1 {
        "excellent dark sky"@
    } else if class == 2 {
        "typical truly dark"@
    } else if class == 3 {
        "rural sky"@
    } else if class == 4 {
        "rural/suburban"@
    } else if class == 5 {
        "suburban"@
    } else if class == 6 {
        "bright suburban"@
    } else if class == 7 {
        "suburban/urban"@
    } else if class == 8 {
        "city sky"@
    } else {
        "inner city"@
    }
}

/// UI hint text for a Bortle class; every class above 8 reads as "inner city".
pub fn bortle_hint(class: u8) -> (r: &'static str)
    ensures
        r@ == spec_bortle_hint(class),
{
    match class {
        1 => "excellent dark sky",
        2 => "typical truly dark",
        3 => "rural sky",
        4 => "rural/suburban",
        5 => "suburban",
        6 => "bright suburban",
        7 => "suburban/urban",
        8 => "city sky",
        _ => "inner city",
    }
}


/// Bortle class assumed when none is stored (suburban).
pub fn default_bortle_class() -> (r: u8)
    ensures
        r == 5,
{
    5
}

/// Bortle class forced into `1..=9`.
pub open spec fn spec_clamp_bortle(b: u8) -> u8 {
    if b < 1 {
        1
    } else if b > 9 {
        9
    } else {
        b
    }
}

/// Clamps a Bortle class into `1..=9`.
pub fn clamp_bortle(b: u8) -> (r: u8)
    ensures
        r == spec_clamp_bortle(b),
{
    if b < 1 {
        1
    } else if b > 9 {
        9
    } else {
        b
    }
}

/// `minutes` as `"{h}h {mm}m"` when at least an hour, else `"{m}m"` (hours and
/// remaining minutes truncated toward zero).
pub open spec fn spec_format_duration(minutes: int) -> Seq<char> {
    let h = trunc_div(minutes, 60);
    let m = minutes - 60 * h;
    if h > 0 {
        decimal(h as nat) + "h "@ + pad2(m as nat) + "m"@
    } else {
        signed_decimal(m) + "m"@
    }
}

fn div60_trunc(a: i64) -> (q: i64)
    ensures
        q == trunc_div(a as int, 60),
{
    if a >= 0 {
        a / 60
    } else {
        let n: i128 = 0i128 - a as i128;
        let q: i128 = n / 60;
        (0i128 - q) as i64
    }
}

/// Visible-duration text used in tooltips, e.g. `"2h 05m"` or `"45m"`.
pub fn format_duration(minutes: i64) -> (r: String)
    ensures
        r@ == spec_format_duration(minutes as int),
{
    let h = div60_trunc(minutes);
    let m = minutes - 60 * h;
    let mut s = String::new();
    if h > 0 {
        push_decimal(&mut s, h as u64);
        s.append("h ");
        push_pad2(&mut s, m as u64);
        s.append("m");
    } else {
        push_signed_decimal(&mut s, m);
        s.append("m");
    }
    s
}

/// Age text for a cache entry `age_minutes` old (negative ages count as zero).
pub open spec fn spec_format_age(age_minutes: int) -> Seq<char> {
    let mins = if age_minutes < 0 { 0 } else { age_minutes };
    if mins < 1 {
        "just now"@
    } else if mins < 60 {
        decimal(mins as nat) + " min ago"@
    } else {
        decimal((mins / 60) as nat) + " h ago"@
    }
}

/// Status text for how long ago something was fetched.
pub fn format_age_minutes(age_minutes: i64) -> (r: String)
    ensures
        r@ == spec_format_age(age_minutes as int),
{
    let mins = if age_minutes < 0 {
        0
    } else {
        age_minutes
    };
    if mins < 1 {
        String::from_str("just now")
    } else if mins < 60 {
        let mut s = String::new();
        push_decimal(&mut s, mins as u64);
        s.append(" min ago");
        s
    } else {
        let mut s = String::new();
        push_decimal(&mut s, (mins / 60) as u64);
        s.append(" h ago");
        s
    }
}

/// `"HH:MM"` with both fields zero-padded to two digits.
pub open spec fn spec_format_hm(hour: nat, minute: nat) -> Seq<char> {
    pad2(hour) + ":"@ + pad2(minute)
}

/// Clock text `"HH:MM"`.
pub fn format_hm(hour: u32, minute: u32) -> (r: String)
    ensures
        r@ == spec_format_hm(hour as nat, minute as nat),
{
    let mut s = String::new();
    push_pad2(&mut s, hour as u64);
    s.append(":");
    push_pad2(&mut s, minute as u64);
    s
}

/// Hour label `"HH:00"`.
pub fn format_hour_label(hour: u32) -> (r: String)
    ensures
        r@ == pad2(hour as nat) + ":00"@,
{
    let mut s = String::new();
    push_pad2(&mut s, hour as u64);
    s.append(":00");
    s
}

/// Time of day of an offset of `total_minutes` from midnight, wrapped into one day.
pub open spec fn spec_clock_of_minutes(total_minutes: int) -> Seq<char> {
    let mins = total_minutes % 1440;
    spec_format_hm((mins / 60) as nat, (mins % 60) as nat)
}

/// Clock label of a (possibly negative) minute offset from local midnight.
pub fn format_clock_minutes(total_minutes: i64) -> (r: String)
    ensures
        r@ == spec_clock_of_minutes(total_minutes as int),
{
    let mins: i64 = if total_minutes >= 0 {
        total_minutes % 1440
    } else {
        let n: i128 = -1i128 - total_minutes as i128;
        let m: i128 = n % 1440;
        proof {
            let q = n / 1440;
            vstd::arithmetic::div_mod::lemma_fundamental_div_mod(n as int, 1440);
            vstd::arithmetic::div_mod::lemma_mod_bound(n as int, 1440);
            vstd::arithmetic::div_mod::lemma_fundamental_div_mod_converse(
                total_minutes as int,
                1440,
                -q - 1,
                1439 - m,
            );
        }
        (1439 - m) as i64
    };
    format_hm((mins / 60) as u32, (mins % 60) as u32)
}

/// Compass word of an eighth of the horizon (`0` = north, clockwise); others read north-west.
pub open spec fn spec_compass_octant(idx: i32) -> Seq<char> {
    if idx == 0 {
        "north"@
    } else if idx == 1 {
        "north-east"@
    } else if idx == 2 {
        "east"@
    } else if idx == 3 {
        "south-east"@
    } else if idx == 4 {
        "south"@
    } else if idx == 5 {
        "south-west"@
    } else if idx == 6 {
        "west"@
    } else {
        "north-west"@
    }
}

/// Compass word for an octant index.
pub fn compass_octant(idx: i32) -> (r: &'static str)
    ensures
        r@ == spec_compass_octant(idx),
{
    match idx {
        0 => "north",
        1 => "north-east",
        2 => "east",
        3 => "south-east",
        4 => "south",
        5 => "south-west",
        6 => "west",
        _ => "north-west",
    }
}

/// The sixteen wind directions, from north clockwise.
pub open spec fn spec_wind_cardinal(idx: usize) -> Seq<char> {
    let i = idx % 16;
    if i == 0 { "N"@ } else if i == 1 { "NNE"@ } else if i == 2 { "NE"@ } else if i == 3 { "ENE"@ }
    else if i == 4 { "E"@ } else if i == 5 { "ESE"@ } else if i == 6 { "SE"@ } else if i == 7 { "SSE"@ }
    else if i == 8 { "S"@ } else if i == 9 { "SSW"@ } else if i == 10 { "SW"@ } else if i == 11 { "WSW"@ }
    else if i == 12 { "W"@ } else if i == 13 { "WNW"@ } else if i == 14 { "NW"@ } else { "NNW"@ }
}

/// Wind direction label of a sixteenth-of-the-horizon index (wrapped modulo 16).
pub fn wind_cardinal(idx: usize) -> (r: &'static str)
    ensures
        r@ == spec_wind_cardinal(idx),
{
    match idx % 16 {
        0 => "N",
        1 => "NNE",
        2 => "NE",
        3 => "ENE",
        4 => "E",
        5 => "ESE",
        6 => "SE",
        7 => "SSE",
        8 => "S",
        9 => "SSW",
        10 => "SW",
        11 => "WSW",
        12 => "W",
        13 => "WNW",
        14 => "NW",
        _ => "NNW",
    }
}

/// Map tile source chosen by the user.
#[derive(Clone, Copy, PartialEq, Eq, Debug)]
pub enum MapTileMode {
    /// Use OSM when reachable, otherwise no tiles.
    Auto,
    Online,
    Offline,
}

impl MapTileMode {
    /// Short UI label of the mode.
    pub fn label(self) -> (r: &'static str)
        ensures
            r@ == match self {
                MapTileMode::Auto => "Auto"@,
                MapTileMode::Online => "OSM"@,
                MapTileMode::Offline => "Offline"@,
            },
    {
        match self {
            MapTileMode::Auto => "Auto",
            MapTileMode::Online => "OSM",
            MapTileMode::Offline => "Offline",
        }
    }
}

/// Whether tiles are fetched online: forced by `Online`/`Offline`; in `Auto`,
/// only once the reachability probe has finished and found the tile host.
pub open spec fn spec_use_online(mode: MapTileMode, probe_finished: bool, reachable: bool) -> bool {
    match mode {
        MapTileMode::Online => true,
        MapTileMode::Offline => false,
        MapTileMode::Auto => probe_finished && reachable,
    }
}

/// Effective tile source after applying mode and probe state.
pub fn use_online(mode: MapTileMode, probe_finished: bool, reachable: bool) -> (r: bool)
    ensures
        r == spec_use_online(mode, probe_finished, reachable),
{
    match mode {
        MapTileMode::Online => true,
        MapTileMode::Offline => false,
        MapTileMode::Auto => {
            if !probe_finished {
                false
            } else {
                reachable
            }
        },
    }
}

/// Map status text for the effective tile source.
pub fn tile_status_label(online: bool) -> (r: &'static str)
    ensures
        r@ == if online { "Active: OSM"@ } else { "Active: offline (no tiles)"@ },
{
    if online {
        "Active: OSM"
    } else {
        "Active: offline (no tiles)"
    }
}

/// Corner handle of a visibility zone in the polar editor.
#[derive(Clone, Copy, PartialEq, Eq, Debug)]
pub enum ViewWindowCorner {
    MinAzMinAlt,
    MinAzMaxAlt,
    MaxAzMinAlt,
    MaxAzMaxAlt,
}

impl ViewWindowCorner {
    /// The four corners, in handle order.
    pub fn all() -> (r: [ViewWindowCorner; 4])
        ensures
            r@ == seq![
                ViewWindowCorner::MinAzMinAlt,
                ViewWindowCorner::MinAzMaxAlt,
                ViewWindowCorner::MaxAzMinAlt,
                ViewWindowCorner::MaxAzMaxAlt,
            ],
    {
        let r = [
            ViewWindowCorner::MinAzMinAlt,
            ViewWindowCorner::MinAzMaxAlt,
            ViewWindowCorner::MaxAzMinAlt,
            ViewWindowCorner::MaxAzMaxAlt,
        ];
        assert(r@ =~= seq![
            ViewWindowCorner::MinAzMinAlt,
            ViewWindowCorner::MinAzMaxAlt,
            ViewWindowCorner::MaxAzMinAlt,
            ViewWindowCorner::MaxAzMaxAlt,
        ]);
        r
    }

    /// Whether the corner moves the minimum (else the maximum) azimuth bound.
    pub fn moves_min_az(self) -> (r: bool)
        ensures
            r == (self == ViewWindowCorner::MinAzMinAlt || self == ViewWindowCorner::MinAzMaxAlt),
    {
        match self {
            ViewWindowCorner::MinAzMinAlt | ViewWindowCorner::MinAzMaxAlt => true,
            _ => false,
        }
    }

    /// Whether the corner moves the minimum (else the maximum) altitude bound.
    pub fn moves_min_alt(self) -> (r: bool)
        ensures
            r == (self == ViewWindowCorner::MinAzMinAlt || self == ViewWindowCorner::MaxAzMinAlt),
    {
        match self {
            ViewWindowCorner::MinAzMinAlt | ViewWindowCorner::MaxAzMinAlt => true,
            _ => false,
        }
    }
}


/// Spacing in days of the date axis marks for a view from day `start` to day `end`:
/// weekly beyond two months, every other day beyond three weeks, else daily.
pub open spec fn spec_day_grid_step(start: int, end: int) -> int {
    let span = if end - start > 1 { end - start } else { 1 };
    if span > 60 {
        7
    } else if span > 20 {
        2
    } else {
        1
    }
}

/// Date axis marks (days from the common era): `start`, then every step, up to `end`.
pub fn day_grid_marks(start: i32, end: i32) -> (r: Vec<i32>)
    requires
        i32::MIN <= end - start <= i32::MAX,
        start > end || start + ((end - start) / spec_day_grid_step(start as int, end as int) + 1)
            * spec_day_grid_step(start as int, end as int) <= i32::MAX,
    ensures
        r@.map_values(|d: i32| d as int) == spec_ticks(
            start as int,
            end as int,
            spec_day_grid_step(start as int, end as int),
        ),
{
    let diff: i32 = end - start;
    let span: i32 = if diff > 1 {
        diff
    } else {
        1
    };
    let step: i32 = if span > 60 {
        7
    } else if span > 20 {
        2
    } else {
        1
    };
    let ghost g = spec_day_grid_step(start as int, end as int);
    assert(step == g);
    let mut marks: Vec<i32> = Vec::new();
    if end < start {
        assert(marks@.map_values(|d: i32| d as int) =~= spec_ticks(start as int, end as int, g));
        return marks;
    }
    let ghost n: int = (end - start) / (step as int);
    proof {
        vstd::arithmetic::div_mod::lemma_fundamental_div_mod((end - start) as int, step as int);
        vstd::arithmetic::div_mod::lemma_mod_bound((end - start) as int, step as int);
    }
    let mut day: i32 = start;
    let ghost mut k: int = 0;
    while day <= end
        invariant
            start <= end,
            1 <= step <= 7,
            n == (end - start) / (step as int),
            end - start == step * n + (end - start) % (step as int),
            0 <= (end - start) % (step as int) < step,
            start + (n + 1) * step <= i32::MAX,
            0 <= k <= n + 1,
            day == start + k * step,
            marks@.len() == k,
            forall|j: int| 0 <= j < k ==> #[trigger] marks@[j] == start + j * step,
        decreases end as int + step as int - day as int,
    {
        proof {
            if k > n {
                assert(k * step >= (n + 1) * step) by (nonlinear_arith)
                    requires k >= n + 1, step >= 1;
                assert((n + 1) * step == step * n + step) by (nonlinear_arith);
            }
            assert(k <= n);
            assert(start + (k + 1) * step <= start + (n + 1) * step) by (nonlinear_arith)
                requires k <= n, step >= 1;
            assert(start + (k + 1) * step == start + k * step + step) by (nonlinear_arith);
        }
        marks.push(day);
        day = day + step;
        proof {
            k = k + 1;
        }
    }
    proof {
        if k < n + 1 {
            assert(k * step <= n * step) by (nonlinear_arith)
                requires k <= n, step >= 1;
            assert(n * step == step * n) by (nonlinear_arith);
        }
        assert(k == n + 1);
        assert(marks@.map_values(|d: i32| d as int) =~= spec_ticks(start as int, end as int, g));
    }
    marks
}

/// First whole UTC hour at or after the instant `ms` (epoch milliseconds).
pub open spec fn spec_first_whole_hour(ms: int) -> int {
    if ms % 3_600_000 == 0 {
        ms
    } else {
        ms + (3_600_000 - ms % 3_600_000)
    }
}

/// Time axis marks (UTC epoch ms): every whole UTC hour from `start_ms` to `end_ms`.
pub fn hour_grid_marks(start_ms: i64, end_ms: i64) -> (r: Vec<i64>)
    requires
        -9_000_000_000_000_000 <= start_ms <= 9_000_000_000_000_000,
        -9_000_000_000_000_000 <= end_ms <= 9_000_000_000_000_000,
    ensures
        r@.map_values(|t: i64| t as int) == spec_ticks(spec_first_whole_hour(start_ms as int), end_ms as int, 3_600_000),
{
    let rem = rem_euclid_i64(start_ms, 3_600_000);
    let first: i64 = if rem == 0 {
        start_ms
    } else {
        start_ms + (3_600_000 - rem)
    };
    let night = NightInfo { date: 0, night_start_ms: first, night_end_ms: end_ms };
    proof {
        if first <= end_ms {
            lemma_ticks_cover_night(first as int, end_ms as int, 3_600_000);
        }
    }
    night_ticks(&night, 60)
}

} // verus!
