use vstd::prelude::*;
use crate::text::str_eq;

verus! {

/// The forecast payload kept in a weather cache file: the API answer as YAML text.
pub struct ForecastData {
    pub yaml_content: String,
}


/// The name pattern is `{prefix}_{digits}.yaml`; in the prefix, a `.` matches any
/// character but a line feed.
pub open spec fn prefix_matches(p: Seq<char>, n: Seq<char>) -> bool {
    p.len() <= n.len() && forall|i: int|
        0 <= i < p.len() ==> if p[i] == '.' {
            n[i] != '\n'
        } else {
            #[trigger] n[i] == p[i]
        }
}

pub open spec fn is_ascii_digit(c: char) -> bool {
    '0' <= c <= '9'
}

/// Value of a string of ASCII digits.
pub open spec fn digits_value(s: Seq<char>) -> int
    decreases s.len(),
{
    if s.len() == 0 {
        0
    } else {
        digits_value(s.drop_last()) * 10 + (s.last() as int - '0' as int)
    }
}

/// The timestamp that a cache file name carries for `prefix`: the name must be the prefix,
/// `_`, one or more ASCII digits and `.yaml`, and the digits must fit an `i64`.
pub open spec fn spec_cache_timestamp(name: Seq<char>, prefix: Seq<char>) -> Option<int> {
    let k = prefix.len() as int;
    let n = name.len() as int;
    let digits = name.subrange(k + 1, n - 5);
    if n >= k + 7 && prefix_matches(prefix, name) && name[k] == '_' && name.subrange(n - 5, n)
        == ".yaml"@ && (forall|i: int| 0 <= i < digits.len() ==> is_ascii_digit(#[trigger] digits[i]))
        && digits_value(digits) <= i64::MAX {
        Some(digits_value(digits))
    } else {
        None
    }
}

proof fn lemma_digits_value_nonneg(s: Seq<char>)
    requires
        forall|i: int| 0 <= i < s.len() ==> is_ascii_digit(#[trigger] s[i]),
    ensures
        digits_value(s) >= 0,
    decreases s.len(),
{
    if s.len() > 0 {
        lemma_digits_value_nonneg(s.drop_last());
    }
}

proof fn lemma_digits_value_grows(s: Seq<char>, t: Seq<char>)
    requires
        s.len() > 0,
        s == t.take(s.len() as int),
        s.len() <= t.len(),
        forall|i: int| 0 <= i < t.len() ==> is_ascii_digit(#[trigger] t[i]),
    ensures
        digits_value(t) >= digits_value(s),
    decreases t.len() - s.len(),
{
    if t.len() > s.len() {
        let t2 = t.drop_last();
        assert(t2.take(s.len() as int) =~= s);
        lemma_digits_value_grows(s, t2);
        lemma_digits_value_nonneg(t2);
    } else {
        assert(s =~= t);
    }
}

/// Reads the fetch timestamp out of a weather cache file name written for `prefix`.
pub fn parse_cache_timestamp(name: &str, prefix: &str) -> (r: Option<i64>)
    ensures
        match r {
            Some(v) => spec_cache_timestamp(name@, prefix@) == Some(v as int),
            None => spec_cache_timestamp(name@, prefix@) is None,
        },
{
    let n = name.unicode_len();
    let k = prefix.unicode_len();
    if n < 7 || k > n - 7 {
        return None;
    }
    let mut i: usize = 0;
    while i < k
        invariant
            n == name@.len(),
            k == prefix@.len(),
            k + 7 <= n,
            i <= k,
            forall|j: int|
                0 <= j < i ==> if prefix@[j] == '.' {
                    name@[j] != '\n'
                } else {
                    #[trigger] name@[j] == prefix@[j]
                },
        decreases k - i,
    {
        let pc = prefix.get_char(i);
        let nc = name.get_char(i);
        if pc == '.' {
            if nc == '\n' {
                return None;
            }
        } else if nc != pc {
            return None;
        }
        i = i + 1;
    }
    if name.get_char(k) != '_' {
        return None;
    }
    if !str_eq(name.substring_char(n - 5, n), ".yaml") {
        return None;
    }
    let ghost digits = name@.subrange(k + 1, n - 5);
    let mut v: i128 = 0;
    let mut j: usize = k + 1;
    while j < n - 5
        invariant
            n == name@.len(),
            k == prefix@.len(),
            k + 7 <= n,
            k + 1 <= j <= n - 5,
            digits == name@.subrange(k + 1, n - 5),
            forall|t: int| k + 1 <= t < j ==> is_ascii_digit(#[trigger] name@[t]),
            v == digits_value(name@.subrange(k + 1, j as int)),
            0 <= v <= i64::MAX,
        decreases n - 5 - j,
    {
        let c = name.get_char(j);
        if !('0' <= c && c <= '9') {
            proof {
                assert(digits[j - (k + 1)] == c);
            }
            return None;
        }
        let d: i128 = (c as u32 - '0' as u32) as i128;
        assert(name@.subrange(k + 1, j + 1).drop_last() =~= name@.subrange(k + 1, j as int));
        assert(name@.subrange(k + 1, j + 1).last() == c);
        v = v * 10 + d;
        if v > 0x7fff_ffff_ffff_ffff {
            proof {
                if forall|t: int| 0 <= t < digits.len() ==> is_ascii_digit(#[trigger] digits[t]) {
                    assert(digits.take(j + 1 - (k + 1)) =~= name@.subrange(k + 1, j + 1));
                    lemma_digits_value_grows(name@.subrange(k + 1, j + 1), digits);
                }
            }
            return None;
        }
        j = j + 1;
    }
    assert(name@.subrange(k + 1, (n - 5) as int) =~= digits);
    assert forall|t: int| 0 <= t < digits.len() implies is_ascii_digit(#[trigger] digits[t]) by {
        assert(digits[t] == name@[t + k + 1]);
    }
    Some(v as i64)
}

/// Whether the calendar library can represent the UTC instant `secs` seconds after the
/// epoch: its dates run from -262143-01-01 to 262142-12-31, so the instants from
/// -262143-01-01 00:00:00 to 262142-12-31 23:59:59 UTC.
pub open spec fn spec_utc_secs_valid(secs: i64) -> bool {
    -8_334_601_228_800 <= secs <= 8_210_266_876_799
}

/// `chrono::DateTime::<Utc>::from_timestamp(secs, 0).is_some()`: true exactly for the
/// seconds of the calendar library's date range.
#[verifier::external_body]
fn utc_secs_valid(secs: i64) -> (r: bool)
    ensures
        r == spec_utc_secs_valid(secs),
{
    chrono::DateTime::<chrono::Utc>::from_timestamp(secs, 0).is_some()
}

/// Age (ns) of the cache file `name` at `now_ns`, given whether the instant its name
/// carries is representable: a usable file has a representable timestamp and an age in
/// `(0, freshness_ns]`.
pub open spec fn cache_age_given(
    name: Seq<char>,
    prefix: Seq<char>,
    now_ns: int,
    freshness_ns: int,
    representable: bool,
) -> Option<int> {
    match spec_cache_timestamp(name, prefix) {
        Some(ts) => {
            let age = now_ns - ts * 1_000_000_000;
            if representable && 0 < age <= freshness_ns {
                Some(age)
            } else {
                None
            }
        },
        None => None,
    }
}

/// Whether the timestamp that `name` carries (if any) is a representable instant.
pub open spec fn timestamp_representable(name: Seq<char>, prefix: Seq<char>) -> bool {
    match spec_cache_timestamp(name, prefix) {
        Some(ts) => spec_utc_secs_valid(ts as i64),
        None => false,
    }
}

/// Age (ns) of the cache file `name` at `now_ns`, when it is a usable cache file.
pub open spec fn spec_cache_age(name: Seq<char>, prefix: Seq<char>, now_ns: int, freshness_ns: int) -> Option<int> {
    cache_age_given(name, prefix, now_ns, freshness_ns, timestamp_representable(name, prefix))
}

/// The file of least age among the usable ones (the first in directory order on a tie),
/// given for each name whether its timestamp is representable.
pub fn freshest_cache(
    names: &Vec<String>,
    prefix: &str,
    now_ns: i128,
    freshness_ns: i128,
    representable: &Vec<bool>,
) -> (r: Option<usize>)
    requires
        representable@.len() == names@.len(),
        -1_000_000_000_000_000_000_000_000i128 <= now_ns <= 1_000_000_000_000_000_000_000_000i128,
    ensures
        match r {
            Some(i) => {
                &&& i < names@.len()
                &&& cache_age_given(names@[i as int]@, prefix@, now_ns as int, freshness_ns as int, representable@[i as int]) is Some
                &&& forall|j: int|
                    #![trigger names@[j]]
                    0 <= j < names@.len() ==> match cache_age_given(names@[j]@, prefix@, now_ns as int, freshness_ns as int, representable@[j]) {
                        Some(a) => a >= cache_age_given(names@[i as int]@, prefix@, now_ns as int, freshness_ns as int, representable@[i as int])->0
                            && (j < i ==> a > cache_age_given(names@[i as int]@, prefix@, now_ns as int, freshness_ns as int, representable@[i as int])->0),
                        None => true,
                    }
            },
            None => forall|j: int|
                #![trigger names@[j]]
                0 <= j < names@.len() ==> cache_age_given(names@[j]@, prefix@, now_ns as int, freshness_ns as int, representable@[j]) is None,
        },
{
    let mut best: Option<usize> = None;
    let mut best_age: i128 = 0;
    let mut i: usize = 0;
    while i < names.len()
        invariant
            i <= names@.len(),
            representable@.len() == names@.len(),
            -1_000_000_000_000_000_000_000_000i128 <= now_ns <= 1_000_000_000_000_000_000_000_000i128,
            match best {
                Some(b) => {
                    &&& b < i
                    &&& cache_age_given(names@[b as int]@, prefix@, now_ns as int, freshness_ns as int, representable@[b as int]) == Some(best_age as int)
                    &&& forall|j: int|
                        #![trigger names@[j]]
                        0 <= j < i ==> match cache_age_given(names@[j]@, prefix@, now_ns as int, freshness_ns as int, representable@[j]) {
                            Some(a) => a >= best_age && (j < b ==> a > best_age),
                            None => true,
                        }
                },
                None => forall|j: int|
                    #![trigger names@[j]]
                    0 <= j < i ==> cache_age_given(names@[j]@, prefix@, now_ns as int, freshness_ns as int, representable@[j]) is None,
            },
        decreases names@.len() - i,
    {
        match parse_cache_timestamp(names[i].as_str(), prefix) {
            Some(ts) => {
                if representable[i] {
                    let age: i128 = now_ns - (ts as i128) * 1_000_000_000;
                    if 0 < age && age <= freshness_ns {
                        let better = match best {
                            Some(_) => age < best_age,
                            None => true,
                        };
                        if better {
                            best = Some(i);
                            best_age = age;
                        }
                    }
                }
            },
            None => {},
        }
        i = i + 1;
    }
    best
}

/// The freshest usable cache file: the first (in directory order) of least age.
pub fn pick_fresh_cache(names: &Vec<String>, prefix: &str, now_ns: i128, freshness_ns: i128) -> (r: Option<usize>)
    requires
        -1_000_000_000_000_000_000_000_000i128 <= now_ns <= 1_000_000_000_000_000_000_000_000i128,
    ensures
        match r {
            Some(i) => {
                &&& i < names@.len()
                &&& spec_cache_age(names@[i as int]@, prefix@, now_ns as int, freshness_ns as int) is Some
                &&& forall|j: int|
                    #![trigger names@[j]]
                    0 <= j < names@.len() ==> match spec_cache_age(names@[j]@, prefix@, now_ns as int, freshness_ns as int) {
                        Some(a) => a >= spec_cache_age(names@[i as int]@, prefix@, now_ns as int, freshness_ns as int)->0
                            && (j < i ==> a > spec_cache_age(names@[i as int]@, prefix@, now_ns as int, freshness_ns as int)->0),
                        None => true,
                    }
            },
            None => forall|j: int|
                #![trigger names@[j]]
                0 <= j < names@.len() ==> spec_cache_age(names@[j]@, prefix@, now_ns as int, freshness_ns as int) is None,
        },
{
    let mut flags: Vec<bool> = Vec::new();
    let mut i: usize = 0;
    while i < names.len()
        invariant
            i <= names@.len(),
            flags@.len() == i,
            forall|j: int| 0 <= j < i ==> #[trigger] flags@[j] == timestamp_representable(names@[j]@, prefix@),
        decreases names@.len() - i,
    {
        let ok = match parse_cache_timestamp(names[i].as_str(), prefix) {
            Some(ts) => utc_secs_valid(ts),
            None => false,
        };
        flags.push(ok);
        i = i + 1;
    }
    let r = freshest_cache(names, prefix, now_ns, freshness_ns, &flags);
    assert forall|j: int| 0 <= j < names@.len() implies #[trigger] cache_age_given(
        names@[j]@,
        prefix@,
        now_ns as int,
        freshness_ns as int,
        flags@[j],
    ) == spec_cache_age(names@[j]@, prefix@, now_ns as int, freshness_ns as int) by {
        assert(flags@[j] == timestamp_representable(names@[j]@, prefix@));
    }
    r
}

/// Indices of the hourly samples with `start_ms <= t <= end_ms`, in order.
pub fn hours_within(times_ms: &Vec<i64>, start_ms: i64, end_ms: i64) -> (r: Vec<usize>)
    ensures
        forall|i: int, j: int| 0 <= i < j < r@.len() ==> r@[i] < r@[j],
        forall|i: int| 0 <= i < r@.len() ==> #[trigger] r@[i] < times_ms@.len(),
        forall|k: int|
            0 <= k < times_ms@.len() ==> (r@.contains(k as usize) <==> start_ms <= #[trigger] times_ms@[k]
                <= end_ms),
{
    let mut out: Vec<usize> = Vec::new();
    let mut k: usize = 0;
    while k < times_ms.len()
        invariant
            k <= times_ms@.len(),
            forall|i: int| 0 <= i < out@.len() ==> #[trigger] out@[i] < k,
            forall|i: int, j: int| 0 <= i < j < out@.len() ==> out@[i] < out@[j],
            forall|m: int| 0 <= m < k ==> (out@.contains(m as usize) <==> start_ms <= #[trigger] times_ms@[m] <= end_ms),
        decreases times_ms@.len() - k,
    {
        let ghost before = out@;
        let t = times_ms[k];
        let hit = start_ms <= t && t <= end_ms;
        if hit {
            out.push(k);
        }
        assert forall|m: int| 0 <= m < k + 1 implies (out@.contains(m as usize) <==> start_ms <= #[trigger] times_ms@[m] <= end_ms) by {
            if m < k {
                if before.contains(m as usize) {
                    let i = choose|i: int| 0 <= i < before.len() && before[i] == m as usize;
                    assert(out@[i] == m as usize);
                }
                if out@.contains(m as usize) {
                    let i = choose|i: int| 0 <= i < out@.len() && out@[i] == m as usize;
                    if i < before.len() {
                        assert(before[i] == m as usize);
                    }
                }
            } else {
                if hit {
                    assert(out@[before.len() as int] == k);
                } else if out@.contains(k) {
                    let i = choose|i: int| 0 <= i < out@.len() && out@[i] == k;
                    assert(out@[i] < k);
                }
            }
        }
        k = k + 1;
    }
    out
}

} // verus!
