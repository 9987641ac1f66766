use vstd::prelude::*;
use vstd::string::StringSliceAdditionalSpecFns;
use vstd::utf8::encode_utf8;
use crate::timegrid::nanos_in_calendar_span;
use crate::text::{decimal, push_char, push_decimal, spec_trim, trim_str};

verus! {

/// NORAD catalog number of the ISS.
pub const ISS_NORAD_ID: u64 = 25544;

/// Celestrak query for the ISS element set, in TLE format.
pub open spec fn spec_celestrak_iss_tle_url() -> Seq<char> {
    "https://celestrak.org/NORAD/elements/gp.php?CATNR="@ + decimal(ISS_NORAD_ID as nat) + "&FORMAT=tle"@
}

/// URL of the ISS element set on Celestrak.
pub fn celestrak_iss_tle_url() -> (r: String)
    ensures
        r@ == spec_celestrak_iss_tle_url(),
{
    let mut s = String::from_str("https://celestrak.org/NORAD/elements/gp.php?CATNR=");
    push_decimal(&mut s, ISS_NORAD_ID);
    s.append("&FORMAT=tle");
    s
}

/// A line without the carriage return that ended it, if any.
pub open spec fn strip_cr(c: Seq<char>) -> Seq<char> {
    if c.len() > 0 && c.last() == '\r' {
        c.drop_last()
    } else {
        c
    }
}

/// Lines finished so far and the line in progress, after reading `s`.
pub open spec fn lines_state(s: Seq<char>) -> (Seq<Seq<char>>, Seq<char>)
    decreases s.len(),
{
    if s.len() == 0 {
        (seq![], seq![])
    } else {
        let (d, c) = lines_state(s.drop_last());
        if s.last() == '\n' {
            (d.push(strip_cr(c)), seq![])
        } else {
            (d, c.push(s.last()))
        }
    }
}

/// Lines of a text as `str::lines` yields them: split at `\n`, a `\r` before the `\n`
/// dropped, no empty last line after a final line feed.
pub open spec fn spec_lines(s: Seq<char>) -> Seq<Seq<char>> {
    let (d, c) = lines_state(s);
    if c.len() > 0 {
        d.push(c)
    } else {
        d
    }
}

pub open spec fn trimmed_nonempty_lines(lines: Seq<Seq<char>>) -> Seq<Seq<char>>
    decreases lines.len(),
{
    if lines.len() == 0 {
        seq![]
    } else {
        let p = trimmed_nonempty_lines(lines.drop_last());
        let t = spec_trim(lines.last());
        if t.len() > 0 {
            p.push(t)
        } else {
            p
        }
    }
}

/// The trimmed, non-blank lines of a TLE text.
pub open spec fn spec_tle_lines(text: Seq<char>) -> Seq<Seq<char>> {
    trimmed_nonempty_lines(spec_lines(text))
}

fn trimmed_push(out: &mut Vec<String>, line: &String)
    ensures
        crate::segments::string_views(final(out)@) == if spec_trim(line@).len() > 0 {
            crate::segments::string_views(old(out)@).push(spec_trim(line@))
        } else {
            crate::segments::string_views(old(out)@)
        },
{
    let ghost before = crate::segments::string_views(out@);
    let t = trim_str(line.as_str());
    if t.unicode_len() > 0 {
        out.push(String::from_str(t));
        assert(crate::segments::string_views(out@) =~= before.push(spec_trim(line@)));
    }
}

/// The trimmed, non-blank lines of `text`.
pub fn tle_lines(text: &str) -> (r: Vec<String>)
    ensures
        crate::segments::string_views(r@) == spec_tle_lines(text@),
{
    let n = text.unicode_len();
    let mut done: Vec<String> = Vec::new();
    let mut cur = String::new();
    let ghost mut raw: Seq<Seq<char>> = seq![];
    let mut i: usize = 0;
    while i < n
        invariant
            n == text@.len(),
            i <= n,
            lines_state(text@.take(i as int)) == (raw, cur@),
            crate::segments::string_views(done@) == trimmed_nonempty_lines(raw),
        decreases n - i,
    {
        let c = text.get_char(i);
        assert(text@.take(i + 1).drop_last() =~= text@.take(i as int));
        assert(text@.take(i + 1).last() == c);
        if c == '\n' {
            let k = cur.unicode_len();
            let line = if k > 0 && cur.get_char(k - 1) == '\r' {
                String::from_str(cur.as_str().substring_char(0, k - 1))
            } else {
                cur
            };
            proof {
                if k > 0 && cur@.last() == '\r' {
                    assert(cur@.subrange(0, k - 1) =~= cur@.drop_last());
                }
                raw = raw.push(line@);
            }
            trimmed_push(&mut done, &line);
            proof {
                assert(raw.drop_last() == lines_state(text@.take(i as int)).0);
            }
            cur = String::new();
        } else {
            push_char(&mut cur, c);
        }
        i = i + 1;
    }
    assert(text@.take(n as int) =~= text@);
    if cur.unicode_len() > 0 {
        let ghost before = raw;
        proof {
            raw = raw.push(cur@);
            assert(raw.drop_last() =~= before);
        }
        trimmed_push(&mut done, &cur);
        assert(spec_lines(text@) == raw);
    } else {
        assert(spec_lines(text@) == raw);
    }
    done
}

/// A TLE block in its parts: satellite name and the two element lines.
pub struct TleLines {
    pub name: String,
    pub line1: String,
    pub line2: String,
}

/// Name given to a two-line block, which carries no name line.
pub open spec fn default_tle_name() -> Seq<char> {
    "ISS (ZARYA)"@
}

/// Layout of a TLE text: a two-line block (first line starts with `1`) gets the default
/// name; else a name line followed by a line starting with `1`; else it is rejected.
pub open spec fn spec_tle_layout(text: Seq<char>) -> Result<(Seq<char>, Seq<char>, Seq<char>), Seq<char>> {
    let l = spec_tle_lines(text);
    if l.len() < 2 {
        Err("TLE text too short"@)
    } else if l[0][0] == '1' {
        Ok((default_tle_name(), l[0], l[1]))
    } else if l.len() >= 3 && l[1][0] == '1' {
        Ok((l[0], l[1], l[2]))
    } else {
        Err("unrecognized TLE layout ("@ + decimal(l.len()) + " lines)"@)
    }
}

/// Splits a 2- or 3-line TLE text into name and element lines.
pub fn tle_layout(text: &str) -> (r: Result<TleLines, String>)
    ensures
        match r {
            Ok(t) => spec_tle_layout(text@) == Ok::<(Seq<char>, Seq<char>, Seq<char>), Seq<char>>((t.name@, t.line1@, t.line2@)),
            Err(e) => spec_tle_layout(text@) == Err::<(Seq<char>, Seq<char>, Seq<char>), Seq<char>>(e@),
        },
{
    let lines = tle_lines(text);
    let ghost l = spec_tle_lines(text@);
    proof {
        assert forall|i: int| 0 <= i < lines@.len() implies #[trigger] lines@[i]@ == l[i] by {
            assert(crate::segments::string_views(lines@)[i] == lines@[i]@);
        }
        assert forall|i: int| 0 <= i < l.len() implies (#[trigger] l[i]).len() > 0 by {
            lemma_trimmed_nonempty(spec_lines(text@), i);
        }
    }
    if lines.len() < 2 {
        return Err(String::from_str("TLE text too short"));
    }
    if lines[0].as_str().get_char(0) == '1' {
        return Ok(TleLines { name: String::from_str("ISS (ZARYA)"), line1: lines[0].clone(), line2: lines[1].clone() });
    }
    if lines.len() >= 3 && lines[1].as_str().get_char(0) == '1' {
        return Ok(TleLines { name: lines[0].clone(), line1: lines[1].clone(), line2: lines[2].clone() });
    }
    let mut e = String::from_str("unrecognized TLE layout (");
    push_decimal(&mut e, lines.len() as u64);
    e.append(" lines)");
    Err(e)
}

proof fn lemma_trimmed_nonempty(lines: Seq<Seq<char>>, i: int)
    requires
        0 <= i < trimmed_nonempty_lines(lines).len(),
    ensures
        trimmed_nonempty_lines(lines)[i].len() > 0,
    decreases lines.len(),
{
    let p = trimmed_nonempty_lines(lines.drop_last());
    if i < p.len() {
        lemma_trimmed_nonempty(lines.drop_last(), i);
    }
}


/// What `sgp4::Elements::from_tle` gives for a name and the bytes of two element lines:
/// the epoch of the parsed elements as whole UTC epoch seconds (rounded down) and the
/// nanoseconds past them, or the debug text of its error.
pub uninterp spec fn spec_tle_elements(name: Seq<char>, line1: Seq<u8>, line2: Seq<u8>) -> Result<(int, int), Seq<char>>;

/// What `sgp4::Constants::from_elements` gives for the elements parsed from a name and
/// the bytes of two element lines: success, or the debug text of its error.
pub uninterp spec fn spec_tle_constants(name: Seq<char>, line1: Seq<u8>, line2: Seq<u8>) -> Result<(), Seq<char>>;

/// The checksum column of a full-length (69-byte) element line holds a byte no lower
/// than `'0'`.  The element parser subtracts `'0'` from that byte in 8 bits, so a lower
/// byte there would overflow.
pub open spec fn checksum_column_ok(bytes: Seq<u8>) -> bool {
    bytes.len() == 69 ==> bytes[68] >= 48u8
}

/// The bytes of an element line as handed to the element parser: a byte below `'0'` in
/// the checksum column of a full-length line becomes `':'`.  The parser reads that byte
/// only to compare it, less `'0'`, with the checksum digit; with either byte the
/// comparison fails (the wrapped difference of the first is at least 208, that of `':'`
/// is 10), so the parser answers as it does, without overflow checks, on the line as
/// given.
pub open spec fn parser_bytes(bytes: Seq<u8>) -> Seq<u8> {
    if checksum_column_ok(bytes) {
        bytes
    } else {
        bytes.update(68, 58u8)
    }
}

/// `sgp4::Elements::from_tle` on the lines' bytes, then, on success,
/// `sgp4::Constants::from_elements` on the parsed elements.  The parsed epoch is read out
/// in UTC (`NaiveDateTime::and_utc`) as `timestamp` and `timestamp_subsec_nanos`, and
/// errors as their debug text.  Both outcomes are named over the name and the bytes,
/// nothing else is claimed of them.  The element parser is only called where neither
/// line would make its checksum subtraction overflow.
#[verifier::external_body]
fn elements_from_tle(name: &str, line1: &[u8], line2: &[u8]) -> (r: Result<(i64, u32, Result<(), String>), String>)
    requires
        checksum_column_ok(line1@),
        checksum_column_ok(line2@),
    ensures
        match r {
            Ok((secs, nanos, constants)) => spec_tle_elements(name@, line1@, line2@) == Ok::<(int, int), Seq<char>>(
                (secs as int, nanos as int),
            )
                && match constants {
                    Ok(_) => spec_tle_constants(name@, line1@, line2@) == Ok::<(), Seq<char>>(()),
                    Err(k) => spec_tle_constants(name@, line1@, line2@) == Err::<(), Seq<char>>(k@),
                },
            Err(m) => spec_tle_elements(name@, line1@, line2@) == Err::<(int, int), Seq<char>>(m@),
        },
{
    match sgp4::Elements::from_tle(Some(name.to_owned()), line1, line2) {
        Ok(e) => {
            let constants = match sgp4::Constants::from_elements(&e) {
                Ok(_) => Ok(()),
                Err(k) => Err(format!("{k:?}")),
            };
            let epoch = e.datetime.and_utc();
            Ok((epoch.timestamp(), epoch.timestamp_subsec_nanos(), constants))
        },
        Err(e) => Err(format!("{e:?}")),
    }
}

/// The bytes of `line` as handed to the element parser (see `parser_bytes`).
fn line_parser_bytes(line: &str) -> (r: Vec<u8>)
    ensures
        r@ == parser_bytes(line.spec_bytes()),
        checksum_column_ok(r@),
{
    let mut b = vstd::slice::slice_to_vec(line.as_bytes());
    if b.len() == 69 && b[68] < 48u8 {
        b.set(68, 58u8);
    }
    b
}

/// An ISS element set as cached on disk, times in UTC epoch nanoseconds.
pub struct CachedTle {
    pub name: String,
    pub line1: String,
    pub line2: String,
    pub fetched_at_ns: i128,
    pub tle_epoch_ns: i128,
}

impl CachedTle {
    /// Time since the element set was fetched (ns).
    pub fn age_ns(&self, now_ns: i128) -> (r: i128)
        requires
            nanos_in_calendar_span(now_ns as int),
            nanos_in_calendar_span(self.fetched_at_ns as int),
        ensures
            r == now_ns - self.fetched_at_ns,
    {
        now_ns - self.fetched_at_ns
    }

    /// Time since the element set's own epoch (ns).
    pub fn epoch_age_ns(&self, now_ns: i128) -> (r: i128)
        requires
            nanos_in_calendar_span(now_ns as int),
            nanos_in_calendar_span(self.tle_epoch_ns as int),
        ensures
            r == now_ns - self.tle_epoch_ns,
    {
        now_ns - self.tle_epoch_ns
    }

    /// Fresh while younger than `freshness_ns`.
    pub fn is_fresh(&self, now_ns: i128, freshness_ns: i128) -> (r: bool)
        requires
            nanos_in_calendar_span(now_ns as int),
            nanos_in_calendar_span(self.fetched_at_ns as int),
        ensures
            r == (now_ns - self.fetched_at_ns < freshness_ns),
    {
        self.age_ns(now_ns) < freshness_ns
    }
}

/// An instant given as whole epoch seconds (rounded down) and the nanoseconds past them,
/// in nanoseconds.
pub open spec fn secs_nanos(secs: int, nanos: int) -> int {
    secs * 1_000_000_000 + nanos
}

/// The cached element set made from a TLE layout, the element parser's outcome (the
/// epoch as whole UTC epoch seconds and the nanoseconds past them, or its error text)
/// and the propagation-constants outcome (consulted only when the elements parsed).
pub fn cached_tle_from(
    lines: TleLines,
    parsed: Result<(i64, u32), String>,
    constants: Result<(), String>,
    fetched_at_ns: i128,
) -> (r: Result<CachedTle, String>)
    ensures
        match parsed {
            Err(m) => r is Err && r->Err_0@ == "TLE parse: "@ + m@,
            Ok((secs, nanos)) => match constants {
                Err(m) => r is Err && r->Err_0@ == "SGP4 constants: "@ + m@,
                Ok(_) => r matches Ok(c) && c.name@ == lines.name@ && c.line1@ == lines.line1@
                    && c.line2@ == lines.line2@ && c.fetched_at_ns == fetched_at_ns
                    && c.tle_epoch_ns == secs_nanos(secs as int, nanos as int),
            },
        },
{
    match parsed {
        Err(m) => {
            let mut msg = String::from_str("TLE parse: ");
            msg.append(m.as_str());
            Err(msg)
        },
        Ok((secs, nanos)) => match constants {
            Err(m) => {
                let mut msg = String::from_str("SGP4 constants: ");
                msg.append(m.as_str());
                Err(msg)
            },
            Ok(()) => Ok(
                CachedTle {
                    name: lines.name,
                    line1: lines.line1,
                    line2: lines.line2,
                    fetched_at_ns,
                    tle_epoch_ns: secs as i128 * 1_000_000_000 + nanos as i128,
                },
            ),
        },
    }
}

/// Parses a 2- or 3-line TLE text fetched at `fetched_at_ns`: the layout decides name
/// and lines; the element parser and the propagation constants then have to accept
/// them, and the epoch of the elements is kept.  The parser gets the lines' bytes as
/// `parser_bytes` gives them.
pub fn parse_tle_text(text: &str, fetched_at_ns: i128) -> (r: Result<CachedTle, String>)
    ensures
        match spec_tle_layout(text@) {
            Err(e) => r is Err && r->Err_0@ == e,
            Ok((n, l1, l2)) => {
                let b1 = parser_bytes(encode_utf8(l1));
                let b2 = parser_bytes(encode_utf8(l2));
                match spec_tle_elements(n, b1, b2) {
                    Err(m) => r is Err && r->Err_0@ == "TLE parse: "@ + m,
                    Ok((secs, nanos)) => match spec_tle_constants(n, b1, b2) {
                        Err(k) => r is Err && r->Err_0@ == "SGP4 constants: "@ + k,
                        Ok(_) => r matches Ok(c) && c.name@ == n && c.line1@ == l1 && c.line2@ == l2
                            && c.fetched_at_ns == fetched_at_ns && c.tle_epoch_ns == secs_nanos(secs, nanos),
                    },
                }
            },
        },
{
    let t = match tle_layout(text) {
        Ok(t) => t,
        Err(e) => return Err(e),
    };
    let b1 = line_parser_bytes(t.line1.as_str());
    let b2 = line_parser_bytes(t.line2.as_str());
    match elements_from_tle(t.name.as_str(), b1.as_slice(), b2.as_slice()) {
        Err(m) => cached_tle_from(t, Err(m), Ok(()), fetched_at_ns),
        Ok((secs, nanos, constants)) => cached_tle_from(t, Ok((secs, nanos)), constants, fetched_at_ns),
    }
}

} // verus!
