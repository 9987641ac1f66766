use vstd::prelude::*;
use crate::segments::string_views;
use crate::text::{
    contains_str, has_prefix, has_substring, remove_spaces, spec_lower,
    spec_remove_spaces, spec_trim, spec_upper, starts_with_str, to_lower_string, to_upper_string,
    trim_str,
};

verus! {

/// The identifying text of a catalog entry (NGC/IC/Messier catalog row), as the
/// identifier, search and label logic reads it.
pub struct DeepObject {
    pub messier: Option<String>,
    pub ngc: Option<String>,
    pub name: Option<String>,
    pub object_type: Option<String>,
    pub object_type_abrev: Option<String>,
    pub common_names: Option<String>,
}

/// The trimmed text of a field, when present and not blank.
pub open spec fn trimmed_field(o: Option<String>) -> Option<Seq<char>> {
    match o {
        Some(s) => if spec_trim(s@).len() > 0 {
            Some(spec_trim(s@))
        } else {
            None
        },
        None => None,
    }
}

/// Messier id as shown: upper-cased when written with its `M`, else prefixed by `M`.
pub open spec fn messier_display(m: Seq<char>) -> Seq<char> {
    if m[0] == 'M' || m[0] == 'm' {
        spec_upper(m)
    } else {
        "M"@ + m
    }
}

/// NGC id as shown: upper-cased without spaces when written with `NGC`, else prefixed by `NGC`.
pub open spec fn ngc_display(n: Seq<char>) -> Seq<char> {
    if has_prefix(spec_upper(n), "NGC"@) {
        spec_remove_spaces(spec_upper(n))
    } else {
        "NGC"@ + n
    }
}

/// Stable display id: Messier (`M31`) first, else NGC (`NGC7000`), else the catalog name.
pub open spec fn spec_display_id(o: DeepObject) -> Option<Seq<char>> {
    match trimmed_field(o.messier) {
        Some(m) => Some(messier_display(m)),
        None => match trimmed_field(o.ngc) {
            Some(n) => Some(ngc_display(n)),
            None => trimmed_field(o.name),
        },
    }
}

/// Type label: the object type, else its abbreviation, else `DSO`.
pub open spec fn spec_type_label(o: DeepObject) -> Seq<char> {
    match trimmed_field(o.object_type) {
        Some(t) => t,
        None => match trimmed_field(o.object_type_abrev) {
            Some(a) => a,
            None => "DSO"@,
        },
    }
}

/// Canonical form of an id for comparisons: trimmed, upper-cased, spaces removed.
pub open spec fn spec_normalize_dso_id(id: Seq<char>) -> Seq<char> {
    spec_remove_spaces(spec_upper(spec_trim(id)))
}

/// The texts a search looks through, in order: display id, Messier, NGC, name,
/// common names, object type (each when present).
pub open spec fn search_haystack(o: DeepObject) -> Seq<Seq<char>> {
    let d = match spec_display_id(o) {
        Some(x) => seq![x],
        None => seq![],
    };
    d + opt_seq(o.messier) + opt_seq(o.ngc) + opt_seq(o.name) + opt_seq(o.common_names) + opt_seq(
        o.object_type,
    )
}

pub open spec fn opt_seq(o: Option<String>) -> Seq<Seq<char>> {
    match o {
        Some(s) => seq![s@],
        None => seq![],
    }
}

/// A blank query matches everything; otherwise some searched text, lower-cased,
/// contains the trimmed, lower-cased query.
pub open spec fn spec_matches_search(o: DeepObject, query: Seq<char>) -> bool {
    let q = spec_lower(spec_trim(query));
    q.len() == 0 || exists|i: int|
        0 <= i < search_haystack(o).len() && has_substring(
            spec_lower(#[trigger] search_haystack(o)[i]),
            q,
        )
}

fn trimmed_nonblank(o: &Option<String>) -> (r: Option<&str>)
    ensures
        match r {
            Some(s) => trimmed_field(*o) == Some(s@),
            None => trimmed_field(*o) is None,
        },
{
    match o {
        Some(s) => {
            let t = trim_str(s.as_str());
            if t.unicode_len() > 0 {
                Some(t)
            } else {
                None
            }
        },
        None => None,
    }
}

/// Canonical form of an id: trimmed, upper-cased, spaces removed.
pub fn normalize_dso_id(id: &str) -> (r: String)
    ensures
        r@ == spec_normalize_dso_id(id@),
{
    let t = trim_str(id);
    let u = to_upper_string(t);
    remove_spaces(u.as_str())
}

impl DeepObject {
    /// Display id: Messier first, else NGC, else the catalog name.
    pub fn display_id(&self) -> (r: Option<String>)
        ensures
            match r {
                Some(s) => spec_display_id(*self) == Some(s@),
                None => spec_display_id(*self) is None,
            },
    {
        if let Some(m) = trimmed_nonblank(&self.messier) {
            let c = m.get_char(0);
            if c == 'M' || c == 'm' {
                return Some(to_upper_string(m));
            } else {
                let mut id = String::from_str("M");
                id.append(m);
                return Some(id);
            }
        }
        if let Some(n) = trimmed_nonblank(&self.ngc) {
            let u = to_upper_string(n);
            if starts_with_str(u.as_str(), "NGC") {
                return Some(remove_spaces(u.as_str()));
            } else {
                let mut id = String::from_str("NGC");
                id.append(n);
                return Some(id);
            }
        }
        match trimmed_nonblank(&self.name) {
            Some(t) => Some(String::from_str(t)),
            None => None,
        }
    }

    /// Object type label, falling back to the abbreviation, then `DSO`.
    pub fn type_label(&self) -> (r: String)
        ensures
            r@ == spec_type_label(*self),
    {
        if let Some(t) = trimmed_nonblank(&self.object_type) {
            return String::from_str(t);
        }
        if let Some(a) = trimmed_nonblank(&self.object_type_abrev) {
            return String::from_str(a);
        }
        String::from_str("DSO")
    }

    /// Whether the entry carries a (non-blank) Messier number.
    pub fn has_messier(&self) -> (r: bool)
        ensures
            r == (trimmed_field(self.messier) is Some),
    {
        trimmed_nonblank(&self.messier).is_some()
    }

    /// Whether the entry carries a (non-blank) NGC number.
    pub fn has_ngc(&self) -> (r: bool)
        ensures
            r == (trimmed_field(self.ngc) is Some),
    {
        trimmed_nonblank(&self.ngc).is_some()
    }

    /// Case-insensitive substring search over the entry's ids, names and type.
    pub fn matches_search(&self, query: &str) -> (r: bool)
        ensures
            r == spec_matches_search(*self, query@),
    {
        let q = to_lower_string(trim_str(query));
        if q.unicode_len() == 0 {
            return true;
        }
        let mut hay: Vec<String> = Vec::new();
        match self.display_id() {
            Some(d) => hay.push(d),
            None => {},
        }
        let ghost n0 = hay@.len();
        push_opt(&mut hay, &self.messier);
        push_opt(&mut hay, &self.ngc);
        push_opt(&mut hay, &self.name);
        push_opt(&mut hay, &self.common_names);
        push_opt(&mut hay, &self.object_type);
        assert(string_views(hay@) =~= search_haystack(*self));
        let mut i: usize = 0;
        while i < hay.len()
            invariant
                i <= hay@.len(),
                string_views(hay@) == search_haystack(*self),
                q@ == spec_lower(spec_trim(query@)),
                forall|k: int| 0 <= k < i ==> !has_substring(spec_lower(#[trigger] search_haystack(*self)[k]), q@),
            decreases hay@.len() - i,
        {
            let l = to_lower_string(hay[i].as_str());
            assert(string_views(hay@)[i as int] == hay@[i as int]@);
            if contains_str(l.as_str(), q.as_str()) {
                return true;
            }
            i = i + 1;
        }
        false
    }
}

/// The field is present and, lower-cased, contains the trimmed, lower-cased query.
pub open spec fn field_contains(f: Option<String>, query: Seq<char>) -> bool {
    match f {
        Some(s) => has_substring(spec_lower(s@), spec_lower(spec_trim(query))),
        None => false,
    }
}

/// A search matches an entry exactly when the trimmed, lower-cased query is empty or is
/// contained, case-insensitively, in one of: the display id, the Messier field, the NGC
/// field, the catalog name, the common names, the object type.
pub proof fn lemma_search_fields(o: DeepObject, query: Seq<char>)
    ensures
        spec_matches_search(o, query) <==> {
            ||| spec_lower(spec_trim(query)).len() == 0
            ||| (spec_display_id(o) matches Some(d) && has_substring(spec_lower(d), spec_lower(spec_trim(query))))
            ||| field_contains(o.messier, query)
            ||| field_contains(o.ngc, query)
            ||| field_contains(o.name, query)
            ||| field_contains(o.common_names, query)
            ||| field_contains(o.object_type, query)
        },
{
    let q = spec_lower(spec_trim(query));
    let h = search_haystack(o);
    let d = match spec_display_id(o) {
        Some(x) => seq![x],
        None => seq![],
    };
    assert(h == d + opt_seq(o.messier) + opt_seq(o.ngc) + opt_seq(o.name) + opt_seq(o.common_names) + opt_seq(
        o.object_type,
    ));
    // Each field, when present, stands at a known position of the haystack.
    let p1 = d.len() as int;
    let p2 = p1 + opt_seq(o.messier).len();
    let p3 = p2 + opt_seq(o.ngc).len();
    let p4 = p3 + opt_seq(o.name).len();
    let p5 = p4 + opt_seq(o.common_names).len();
    assert(h.len() == p5 + opt_seq(o.object_type).len());
    if let Some(x) = spec_display_id(o) {
        assert(h[0] == x);
    }
    if let Some(x) = o.messier {
        assert(h[p1] == x@);
    }
    if let Some(x) = o.ngc {
        assert(h[p2] == x@);
    }
    if let Some(x) = o.name {
        assert(h[p3] == x@);
    }
    if let Some(x) = o.common_names {
        assert(h[p4] == x@);
    }
    if let Some(x) = o.object_type {
        assert(h[p5] == x@);
    }
    if q.len() != 0 && spec_matches_search(o, query) {
        let i = choose|i: int| 0 <= i < h.len() && has_substring(spec_lower(#[trigger] h[i]), q);
        if i < p1 {
            assert(h[i] == d[i]);
        } else if i < p2 {
            assert(h[i] == opt_seq(o.messier)[i - p1]);
        } else if i < p3 {
            assert(h[i] == opt_seq(o.ngc)[i - p2]);
        } else if i < p4 {
            assert(h[i] == opt_seq(o.name)[i - p3]);
        } else if i < p5 {
            assert(h[i] == opt_seq(o.common_names)[i - p4]);
        } else {
            assert(h[i] == opt_seq(o.object_type)[i - p5]);
        }
    }
}

fn push_opt(hay: &mut Vec<String>, o: &Option<String>)
    ensures
        string_views(final(hay)@) == string_views(old(hay)@) + opt_seq(*o),
{
    let ghost before = string_views(hay@);
    match o {
        Some(s) => {
            hay.push(s.clone());
            assert(string_views(hay@) =~= before + opt_seq(*o));
        },
        None => {
            assert(string_views(hay@) =~= before + opt_seq(*o));
        },
    }
}


pub open spec fn pairs_view(s: Seq<(String, String)>) -> Seq<(Seq<char>, Seq<char>)> {
    s.map_values(|p: (String, String)| (p.0@, p.1@))
}

/// The association list holds the pair `p`.
pub open spec fn has_pair(s: Seq<(Seq<char>, Seq<char>)>, p: (Seq<char>, Seq<char>)) -> bool {
    exists|i: int| 0 <= i < s.len() && #[trigger] s[i] == p
}

/// Some entry of the association list has key `k`.
pub open spec fn has_key(s: Seq<(Seq<char>, Seq<char>)>, k: Seq<char>) -> bool {
    exists|i: int| 0 <= i < s.len() && #[trigger] s[i].0 == k
}

/// Map insertion on an association list: the last entry with key `k` gets value `v`;
/// without such an entry, `(k, v)` is appended.
pub open spec fn spec_upsert(s: Seq<(Seq<char>, Seq<char>)>, k: Seq<char>, v: Seq<char>) -> Seq<
    (Seq<char>, Seq<char>),
>
    decreases s.len(),
{
    if !has_key(s, k) {
        s.push((k, v))
    } else if s.last().0 == k {
        s.drop_last().push((k, v))
    } else {
        spec_upsert(s.drop_last(), k, v).push(s.last())
    }
}

proof fn lemma_upsert_at(s: Seq<(Seq<char>, Seq<char>)>, k: Seq<char>, v: Seq<char>, j: int)
    requires
        0 <= j < s.len(),
        s[j].0 == k,
        forall|i: int| j < i < s.len() ==> s[i].0 != k,
    ensures
        spec_upsert(s, k, v) == s.update(j, (k, v)),
    decreases s.len(),
{
    assert(has_key(s, k));
    if j == s.len() - 1 {
        assert(s.drop_last().push((k, v)) =~= s.update(j, (k, v)));
    } else {
        assert(s.drop_last()[j].0 == k);
        lemma_upsert_at(s.drop_last(), k, v, j);
        assert(s.drop_last().update(j, (k, v)).push(s.last()) =~= s.update(j, (k, v)));
    }
}

proof fn lemma_upsert_new(s: Seq<(Seq<char>, Seq<char>)>, k: Seq<char>, v: Seq<char>)
    requires
        forall|i: int| 0 <= i < s.len() ==> s[i].0 != k,
    ensures
        spec_upsert(s, k, v) == s.push((k, v)),
{
}

/// Keys of an association list are pairwise distinct.
pub open spec fn keys_distinct(s: Seq<(Seq<char>, Seq<char>)>) -> bool {
    forall|a: int, b: int| 0 <= a < b < s.len() ==> s[a].0 != s[b].0
}

fn upsert_pair(out: &mut Vec<(String, String)>, k: String, v: String)
    ensures
        pairs_view(final(out)@) == spec_upsert(pairs_view(old(out)@), k@, v@),
        keys_distinct(pairs_view(old(out)@)) ==> keys_distinct(pairs_view(final(out)@)),
{
    let ghost pv = pairs_view(out@);
    let mut j: usize = out.len();
    while j > 0
        invariant
            j <= out@.len(),
            out@ == old(out)@,
            pv == pairs_view(out@),
            forall|i: int| j <= i < pv.len() ==> pv[i].0 != k@,
        decreases j,
    {
        if out[j - 1].0 == k {
            proof {
                assert(pv[j - 1].0 == k@);
                lemma_upsert_at(pv, k@, v@, j - 1);
            }
            out.set(j - 1, (k, v));
            assert(pairs_view(out@) =~= pv.update(j - 1, (k@, v@)));
            return;
        }
        assert(pv[j - 1].0 != k@);
        j = j - 1;
    }
    proof {
        lemma_upsert_new(pv, k@, v@);
    }
    out.push((k, v));
    assert(pairs_view(out@) =~= pv.push((k@, v@)));
}

pub open spec fn normalized_ids(ids: Seq<String>) -> Seq<Seq<char>> {
    ids.map_values(|s: String| spec_normalize_dso_id(s@))
}

/// Type labels of the catalog entries among the first `k` whose display id matches one
/// of `want` (normalized ids), keyed by display id (a later entry overrides).
pub open spec fn type_map_upto(cat: Seq<DeepObject>, want: Seq<Seq<char>>, k: int) -> Seq<
    (Seq<char>, Seq<char>),
>
    decreases k,
{
    if k <= 0 {
        seq![]
    } else {
        let prev = type_map_upto(cat, want, k - 1);
        match spec_display_id(cat[k - 1]) {
            Some(id) => if want.contains(spec_normalize_dso_id(id)) {
                spec_upsert(prev, id, spec_type_label(cat[k - 1]))
            } else {
                prev
            },
            None => prev,
        }
    }
}

fn normalize_all(ids: &Vec<String>) -> (r: Vec<String>)
    ensures
        string_views(r@) == normalized_ids(ids@),
{
    let mut out: Vec<String> = Vec::new();
    let mut i: usize = 0;
    while i < ids.len()
        invariant
            i <= ids@.len(),
            string_views(out@) == normalized_ids(ids@).take(i as int),
        decreases ids@.len() - i,
    {
        let n = normalize_dso_id(ids[i].as_str());
        let ghost before = string_views(out@);
        out.push(n);
        assert(string_views(out@) =~= before.push(n@));
        assert(normalized_ids(ids@)[i as int] == spec_normalize_dso_id(ids@[i as int]@));
        assert(string_views(out@) =~= normalized_ids(ids@).take(i + 1));
        i = i + 1;
    }
    assert(normalized_ids(ids@).take(ids@.len() as int) =~= normalized_ids(ids@));
    out
}

fn seq_has(v: &Vec<String>, x: &String) -> (b: bool)
    ensures
        b == string_views(v@).contains(x@),
{
    let mut i: usize = 0;
    while i < v.len()
        invariant
            i <= v@.len(),
            forall|h: int| 0 <= h < i ==> v@[h]@ != x@,
        decreases v@.len() - i,
    {
        if v[i] == *x {
            assert(string_views(v@)[i as int] == x@);
            return true;
        }
        i = i + 1;
    }
    assert forall|h: int| 0 <= h < string_views(v@).len() implies string_views(v@)[h] != x@ by {
        assert(string_views(v@)[h] == v@[h]@);
    }
    false
}

/// Type labels, keyed by display id, of the catalog entries whose display id matches
/// one of `ids` once both are normalized.
pub fn dso_type_map_for_ids(catalog: &Vec<DeepObject>, ids: &Vec<String>) -> (r: Vec<(String, String)>)
    ensures
        pairs_view(r@) == type_map_upto(catalog@, normalized_ids(ids@), catalog@.len() as int),
        keys_distinct(pairs_view(r@)),
{
    let want = normalize_all(ids);
    let mut out: Vec<(String, String)> = Vec::new();
    let mut k: usize = 0;
    while k < catalog.len()
        invariant
            k <= catalog@.len(),
            string_views(want@) == normalized_ids(ids@),
            pairs_view(out@) == type_map_upto(catalog@, normalized_ids(ids@), k as int),
            keys_distinct(pairs_view(out@)),
        decreases catalog@.len() - k,
    {
        let obj = &catalog[k];
        match obj.display_id() {
            Some(id) => {
                let n = normalize_dso_id(id.as_str());
                if seq_has(&want, &n) {
                    let label = obj.type_label();
                    upsert_pair(&mut out, id, label);
                }
            },
            None => {},
        }
        k = k + 1;
    }
    out
}

/// Entry `i` is the last among the first `n` catalog entries whose display id is `d`.
pub open spec fn last_with_display_id(cat: Seq<DeepObject>, d: Seq<char>, n: int, i: int) -> bool {
    0 <= i < n && spec_display_id(cat[i]) == Some(d) && forall|j: int|
        i < j < n ==> spec_display_id(#[trigger] cat[j]) != Some(d)
}

/// Some entry among the first `n` has display id `d`, and `d` normalized is wanted.
pub open spec fn wanted_display_id(cat: Seq<DeepObject>, want: Seq<Seq<char>>, n: int, d: Seq<char>) -> bool {
    want.contains(spec_normalize_dso_id(d)) && exists|i: int|
        0 <= i < n && spec_display_id(#[trigger] cat[i]) == Some(d)
}

proof fn lemma_upsert_distinct(s: Seq<(Seq<char>, Seq<char>)>, k: Seq<char>, v: Seq<char>)
    requires
        keys_distinct(s),
    ensures
        keys_distinct(spec_upsert(s, k, v)),
        spec_upsert(s, k, v).len() >= s.len(),
        forall|x: Seq<char>| has_key(spec_upsert(s, k, v), x) <==> (has_key(s, x) || x == k),
        forall|j: int|
            0 <= j < spec_upsert(s, k, v).len() ==> (#[trigger] spec_upsert(s, k, v)[j]).0 == k
                ==> spec_upsert(s, k, v)[j].1 == v,
        forall|j: int|
            0 <= j < spec_upsert(s, k, v).len() ==> (#[trigger] spec_upsert(s, k, v)[j]).0 != k
                ==> j < s.len() && spec_upsert(s, k, v)[j] == s[j],
{
    let u = spec_upsert(s, k, v);
    if has_key(s, k) {
        let j = choose|j: int| 0 <= j < s.len() && #[trigger] s[j].0 == k;
        lemma_upsert_at(s, k, v, j);
        assert forall|x: Seq<char>| has_key(u, x) <==> (has_key(s, x) || x == k) by {
            if has_key(u, x) {
                let i = choose|i: int| 0 <= i < u.len() && #[trigger] u[i].0 == x;
                if i != j {
                    assert(s[i].0 == x);
                }
            }
            if has_key(s, x) {
                let i = choose|i: int| 0 <= i < s.len() && #[trigger] s[i].0 == x;
                if i != j {
                    assert(u[i].0 == x);
                } else {
                    assert(u[j].0 == x);
                }
            }
            if x == k {
                assert(u[j].0 == x);
            }
        }
    } else {
        lemma_upsert_new(s, k, v);
        assert forall|x: Seq<char>| has_key(u, x) <==> (has_key(s, x) || x == k) by {
            if has_key(u, x) {
                let i = choose|i: int| 0 <= i < u.len() && #[trigger] u[i].0 == x;
                if i < s.len() {
                    assert(s[i].0 == x);
                }
            }
            if has_key(s, x) {
                let i = choose|i: int| 0 <= i < s.len() && #[trigger] s[i].0 == x;
                assert(u[i].0 == x);
            }
            if x == k {
                assert(u[s.len() as int].0 == x);
            }
        }
    }
}

proof fn lemma_type_map_step(cat: Seq<DeepObject>, want: Seq<Seq<char>>, n: int)
    requires
        0 <= n <= cat.len(),
    ensures
        keys_distinct(type_map_upto(cat, want, n)),
        forall|x: Seq<char>| has_key(type_map_upto(cat, want, n), x) <==> wanted_display_id(cat, want, n, x),
        forall|j: int, i: int|
            0 <= j < type_map_upto(cat, want, n).len() && last_with_display_id(
                cat,
                (#[trigger] type_map_upto(cat, want, n)[j]).0,
                n,
                i,
            ) ==> type_map_upto(cat, want, n)[j].1 == spec_type_label(#[trigger] cat[i]),
    decreases n,
{
    let m = type_map_upto(cat, want, n);
    if n > 0 {
        lemma_type_map_step(cat, want, n - 1);
        let p = type_map_upto(cat, want, n - 1);
        let o = cat[n - 1];
        match spec_display_id(o) {
            Some(d) => {
                if want.contains(spec_normalize_dso_id(d)) {
                    lemma_upsert_distinct(p, d, spec_type_label(o));
                    assert(m == spec_upsert(p, d, spec_type_label(o)));
                    assert forall|x: Seq<char>| has_key(m, x) <==> wanted_display_id(cat, want, n, x) by {
                        if wanted_display_id(cat, want, n, x) && x != d {
                            let i = choose|i: int| 0 <= i < n && spec_display_id(#[trigger] cat[i]) == Some(x);
                            assert(i < n - 1);
                            assert(wanted_display_id(cat, want, n - 1, x));
                        }
                        if has_key(p, x) {
                            assert(wanted_display_id(cat, want, n - 1, x));
                            let i = choose|i: int| 0 <= i < n - 1 && spec_display_id(#[trigger] cat[i]) == Some(x);
                            assert(0 <= i < n);
                        }
                        if x == d {
                            assert(spec_display_id(cat[n - 1]) == Some(x));
                        }
                    }
                    assert forall|j: int, i: int|
                        0 <= j < m.len() && last_with_display_id(cat, (#[trigger] m[j]).0, n, i)
                            implies m[j].1 == spec_type_label(#[trigger] cat[i]) by {
                        if m[j].0 == d {
                            if i != n - 1 {
                                assert(spec_display_id(cat[n - 1]) != Some(d));
                            }
                        } else {
                            assert(m[j] == p[j]);
                            assert(i != n - 1);
                            assert(last_with_display_id(cat, p[j].0, n - 1, i));
                        }
                    }
                } else {
                    assert(m == p);
                    assert forall|x: Seq<char>| has_key(m, x) <==> wanted_display_id(cat, want, n, x) by {
                        if wanted_display_id(cat, want, n, x) {
                            let i = choose|i: int| 0 <= i < n && spec_display_id(#[trigger] cat[i]) == Some(x);
                            if i == n - 1 {
                                assert(x == d);
                            }
                            assert(wanted_display_id(cat, want, n - 1, x));
                        }
                        if has_key(p, x) {
                            assert(wanted_display_id(cat, want, n - 1, x));
                            let i = choose|i: int| 0 <= i < n - 1 && spec_display_id(#[trigger] cat[i]) == Some(x);
                            assert(0 <= i < n);
                        }
                    }
                    assert forall|j: int, i: int|
                        0 <= j < m.len() && last_with_display_id(cat, (#[trigger] m[j]).0, n, i)
                            implies m[j].1 == spec_type_label(#[trigger] cat[i]) by {
                        assert(p[j].0 == m[j].0);
                        assert(has_key(p, p[j].0));
                        assert(m[j].0 != d);
                        assert(last_with_display_id(cat, p[j].0, n - 1, i));
                    }
                }
            },
            None => {
                assert(m == p);
                assert forall|x: Seq<char>| has_key(m, x) <==> wanted_display_id(cat, want, n, x) by {
                    if wanted_display_id(cat, want, n, x) {
                        let i = choose|i: int| 0 <= i < n && spec_display_id(#[trigger] cat[i]) == Some(x);
                        assert(i != n - 1);
                        assert(wanted_display_id(cat, want, n - 1, x));
                    }
                    if has_key(p, x) {
                        assert(wanted_display_id(cat, want, n - 1, x));
                        let i = choose|i: int| 0 <= i < n - 1 && spec_display_id(#[trigger] cat[i]) == Some(x);
                        assert(0 <= i < n);
                    }
                }
                assert forall|j: int, i: int|
                    0 <= j < m.len() && last_with_display_id(cat, (#[trigger] m[j]).0, n, i)
                        implies m[j].1 == spec_type_label(#[trigger] cat[i]) by {
                    assert(i != n - 1);
                    assert(last_with_display_id(cat, p[j].0, n - 1, i));
                }
            },
        }
    }
}

/// The display-id to type map holds each display id of a catalog entry whose normalized
/// form is wanted, once and no other key; its label is that of the last catalog entry
/// with that display id.
pub proof fn lemma_type_map_keys_and_labels(catalog: Seq<DeepObject>, ids: Seq<String>)
    ensures
        keys_distinct(type_map_upto(catalog, normalized_ids(ids), catalog.len() as int)),
        forall|x: Seq<char>|
            has_key(type_map_upto(catalog, normalized_ids(ids), catalog.len() as int), x) <==> (
            normalized_ids(ids).contains(spec_normalize_dso_id(x)) && exists|i: int|
                0 <= i < catalog.len() && spec_display_id(#[trigger] catalog[i]) == Some(x)),
        forall|j: int, i: int|
            0 <= j < type_map_upto(catalog, normalized_ids(ids), catalog.len() as int).len()
                && last_with_display_id(
                catalog,
                (#[trigger] type_map_upto(catalog, normalized_ids(ids), catalog.len() as int)[j]).0,
                catalog.len() as int,
                i,
            ) ==> type_map_upto(catalog, normalized_ids(ids), catalog.len() as int)[j].1
                == spec_type_label(#[trigger] catalog[i]),
{
    let m = type_map_upto(catalog, normalized_ids(ids), catalog.len() as int);
    lemma_type_map_step(catalog, normalized_ids(ids), catalog.len() as int);
    assert forall|x: Seq<char>|
        has_key(m, x) <==> (normalized_ids(ids).contains(spec_normalize_dso_id(x)) && exists|i: int|
            0 <= i < catalog.len() && spec_display_id(#[trigger] catalog[i]) == Some(x)) by {
        assert(has_key(m, x) <==> wanted_display_id(catalog, normalized_ids(ids), catalog.len() as int, x));
    }
}

proof fn lemma_last_with_exists(cat: Seq<DeepObject>, d: Seq<char>, n: int, i: int)
    requires
        0 <= i < n <= cat.len(),
        spec_display_id(cat[i]) == Some(d),
    ensures
        exists|l: int| #[trigger] last_with_display_id(cat, d, n, l),
    decreases n,
{
    if spec_display_id(cat[n - 1]) == Some(d) {
        assert(last_with_display_id(cat, d, n, n - 1));
    } else {
        lemma_last_with_exists(cat, d, n - 1, i);
        let l = choose|l: int| #[trigger] last_with_display_id(cat, d, n - 1, l);
        assert(last_with_display_id(cat, d, n, l));
    }
}

proof fn lemma_type_map_same_wanted(cat: Seq<DeepObject>, w1: Seq<Seq<char>>, w2: Seq<Seq<char>>, n: int)
    requires
        forall|x: Seq<char>| w1.contains(x) <==> w2.contains(x),
    ensures
        type_map_upto(cat, w1, n) == type_map_upto(cat, w2, n),
    decreases n,
{
    if n > 0 {
        lemma_type_map_same_wanted(cat, w1, w2, n - 1);
    }
}

/// Asking for more ids only adds to the display-id to type map: when every normalized id
/// of `ids1` is one of `ids2`, each (display id, label) pair of the map for `ids1` is in
/// the map for `ids2`; with the same normalized ids on both sides, the maps are equal.
pub proof fn lemma_type_map_monotone(catalog: Seq<DeepObject>, ids1: Seq<String>, ids2: Seq<String>)
    requires
        forall|x: Seq<char>| normalized_ids(ids1).contains(x) ==> normalized_ids(ids2).contains(x),
    ensures
        forall|j: int|
            0 <= j < type_map_upto(catalog, normalized_ids(ids1), catalog.len() as int).len() ==> has_pair(
                type_map_upto(catalog, normalized_ids(ids2), catalog.len() as int),
                #[trigger] type_map_upto(catalog, normalized_ids(ids1), catalog.len() as int)[j],
            ),
        (forall|x: Seq<char>| normalized_ids(ids2).contains(x) ==> normalized_ids(ids1).contains(x))
            ==> type_map_upto(catalog, normalized_ids(ids1), catalog.len() as int) == type_map_upto(
            catalog,
            normalized_ids(ids2),
            catalog.len() as int,
        ),
{
    let n = catalog.len() as int;
    let m1 = type_map_upto(catalog, normalized_ids(ids1), n);
    let m2 = type_map_upto(catalog, normalized_ids(ids2), n);
    lemma_type_map_step(catalog, normalized_ids(ids1), n);
    lemma_type_map_step(catalog, normalized_ids(ids2), n);
    assert forall|j: int| 0 <= j < m1.len() implies has_pair(m2, #[trigger] m1[j]) by {
        let x = m1[j].0;
        assert(has_key(m1, x));
        assert(wanted_display_id(catalog, normalized_ids(ids1), n, x));
        let i = choose|i: int| 0 <= i < n && spec_display_id(#[trigger] catalog[i]) == Some(x);
        assert(wanted_display_id(catalog, normalized_ids(ids2), n, x));
        assert(has_key(m2, x));
        let k = choose|k: int| 0 <= k < m2.len() && #[trigger] m2[k].0 == x;
        lemma_last_with_exists(catalog, x, n, i);
        let l = choose|l: int| #[trigger] last_with_display_id(catalog, x, n, l);
        assert(m1[j].1 == spec_type_label(catalog[l]));
        assert(m2[k].1 == spec_type_label(catalog[l]));
        assert(m2[k] == m1[j]);
    }
    if forall|x: Seq<char>| normalized_ids(ids2).contains(x) ==> normalized_ids(ids1).contains(x) {
        lemma_type_map_same_wanted(catalog, normalized_ids(ids1), normalized_ids(ids2), n);
    }
}

/// Index of the first catalog entry whose display id, upper-cased without spaces,
/// equals the normalized `id`.
pub open spec fn spec_find_by_display_id(cat: Seq<DeepObject>, id: Seq<char>, k: int) -> bool {
    match spec_display_id(cat[k]) {
        Some(d) => spec_remove_spaces(spec_upper(d)) == spec_normalize_dso_id(id),
        None => false,
    }
}

/// First catalog entry whose display id matches `id` (case- and space-insensitive).
pub fn find_by_display_id(catalog: &Vec<DeepObject>, id: &str) -> (r: Option<usize>)
    ensures
        match r {
            Some(k) => k < catalog@.len() && spec_find_by_display_id(catalog@, id@, k as int)
                && forall|j: int| 0 <= j < k ==> !spec_find_by_display_id(catalog@, id@, j),
            None => forall|j: int|
                0 <= j < catalog@.len() ==> !spec_find_by_display_id(catalog@, id@, j),
        },
{
    let needle = normalize_dso_id(id);
    let mut k: usize = 0;
    while k < catalog.len()
        invariant
            k <= catalog@.len(),
            needle@ == spec_normalize_dso_id(id@),
            forall|j: int| 0 <= j < k ==> !spec_find_by_display_id(catalog@, id@, j),
        decreases catalog@.len() - k,
    {
        match catalog[k].display_id() {
            Some(d) => {
                let u = to_upper_string(d.as_str());
                let c = remove_spaces(u.as_str());
                if c == needle {
                    return Some(k);
                }
            },
            None => {},
        }
        k = k + 1;
    }
    None
}

/// Catalog indices whose entries carry a Messier number, in catalog order.
pub fn messier_indices(catalog: &Vec<DeepObject>) -> (r: Vec<usize>)
    ensures
        forall|i: int| 0 <= i < r@.len() ==> #[trigger] r@[i] < catalog@.len(),
        forall|i: int, j: int| 0 <= i < j < r@.len() ==> r@[i] < r@[j],
        forall|k: int|
            0 <= k < catalog@.len() ==> (r@.contains(k as usize) <==> trimmed_field(
                #[trigger] catalog@[k].messier,
            ) is Some),
{
    let mut out: Vec<usize> = Vec::new();
    let mut k: usize = 0;
    while k < catalog.len()
        invariant
            k <= catalog@.len(),
            forall|i: int| 0 <= i < out@.len() ==> #[trigger] out@[i] < k,
            forall|i: int, j: int| 0 <= i < j < out@.len() ==> out@[i] < out@[j],
            forall|m: int|
                0 <= m < k ==> (out@.contains(m as usize) <==> trimmed_field(
                    #[trigger] catalog@[m].messier,
                ) is Some),
        decreases catalog@.len() - k,
    {
        let ghost before = out@;
        if catalog[k].has_messier() {
            out.push(k);
            assert forall|m: int| 0 <= m < k + 1 implies (out@.contains(m as usize) <==> trimmed_field(
                #[trigger] catalog@[m].messier) is Some) by {
                if m < k {
                    if before.contains(m as usize) {
                        let i = choose|i: int| 0 <= i < before.len() && before[i] == m as usize;
                        assert(out@[i] == m as usize);
                    }
                    if out@.contains(m as usize) {
                        let i = choose|i: int| 0 <= i < out@.len() && out@[i] == m as usize;
                        if i < before.len() {
                            assert(before[i] == m as usize);
                        }
                    }
                } else {
                    assert(out@[before.len() as int] == k);
                }
            }
        } else {
            assert forall|m: int| 0 <= m < k + 1 implies (out@.contains(m as usize) <==> trimmed_field(
                #[trigger] catalog@[m].messier) is Some) by {
                if m == k {
                    if out@.contains(k) {
                        let i = choose|i: int| 0 <= i < out@.len() && out@[i] == k;
                        assert(out@[i] < k);
                    }
                }
            }
        }
        k = k + 1;
    }
    out
}

/// Catalog indices of entries with an NGC number but no Messier number, in catalog order.
pub fn ngc_without_messier_indices(catalog: &Vec<DeepObject>) -> (r: Vec<usize>)
    ensures
        forall|i: int| 0 <= i < r@.len() ==> #[trigger] r@[i] < catalog@.len(),
        forall|i: int, j: int| 0 <= i < j < r@.len() ==> r@[i] < r@[j],
        forall|k: int|
            0 <= k < catalog@.len() ==> (r@.contains(k as usize) <==> (trimmed_field(
                #[trigger] catalog@[k].ngc,
            ) is Some && trimmed_field(catalog@[k].messier) is None)),
{
    let mut out: Vec<usize> = Vec::new();
    let mut k: usize = 0;
    while k < catalog.len()
        invariant
            k <= catalog@.len(),
            forall|i: int| 0 <= i < out@.len() ==> #[trigger] out@[i] < k,
            forall|i: int, j: int| 0 <= i < j < out@.len() ==> out@[i] < out@[j],
            forall|m: int|
                0 <= m < k ==> (out@.contains(m as usize) <==> (trimmed_field(
                    #[trigger] catalog@[m].ngc,
                ) is Some && trimmed_field(catalog@[m].messier) is None)),
        decreases catalog@.len() - k,
    {
        let ghost before = out@;
        if catalog[k].has_ngc() && !catalog[k].has_messier() {
            out.push(k);
            assert forall|m: int| 0 <= m < k + 1 implies (out@.contains(m as usize) <==> (trimmed_field(
                #[trigger] catalog@[m].ngc) is Some && trimmed_field(catalog@[m].messier) is None)) by {
                if m < k {
                    if before.contains(m as usize) {
                        let i = choose|i: int| 0 <= i < before.len() && before[i] == m as usize;
                        assert(out@[i] == m as usize);
                    }
                    if out@.contains(m as usize) {
                        let i = choose|i: int| 0 <= i < out@.len() && out@[i] == m as usize;
                        if i < before.len() {
                            assert(before[i] == m as usize);
                        }
                    }
                } else {
                    assert(out@[before.len() as int] == k);
                }
            }
        } else {
            assert forall|m: int| 0 <= m < k + 1 implies (out@.contains(m as usize) <==> (trimmed_field(
                #[trigger] catalog@[m].ngc) is Some && trimmed_field(catalog@[m].messier) is None)) by {
                if m == k {
                    if out@.contains(k) {
                        let i = choose|i: int| 0 <= i < out@.len() && out@[i] == k;
                        assert(out@[i] < k);
                    }
                }
            }
        }
        k = k + 1;
    }
    out
}


/// Catalog entries whose display id, upper-cased without spaces, is one of the
/// normalized `ids` (the objects whose tracks get computed).
pub open spec fn is_target(cat: Seq<DeepObject>, want: Seq<Seq<char>>, k: int) -> bool {
    match spec_display_id(cat[k]) {
        Some(d) => want.contains(spec_remove_spaces(spec_upper(d))),
        None => false,
    }
}

/// Indices of the catalog entries selected by `ids`, in catalog order.
pub fn select_target_indices(catalog: &Vec<DeepObject>, ids: &Vec<String>) -> (r: Vec<usize>)
    ensures
        forall|i: int, j: int| 0 <= i < j < r@.len() ==> r@[i] < r@[j],
        forall|i: int| 0 <= i < r@.len() ==> #[trigger] r@[i] < catalog@.len(),
        forall|k: int|
            0 <= k < catalog@.len() ==> (r@.contains(k as usize) <==> is_target(
                catalog@,
                normalized_ids(ids@),
                k,
            )),
{
    let want = normalize_all(ids);
    let mut out: Vec<usize> = Vec::new();
    let mut k: usize = 0;
    while k < catalog.len()
        invariant
            k <= catalog@.len(),
            string_views(want@) == normalized_ids(ids@),
            forall|i: int| 0 <= i < out@.len() ==> #[trigger] out@[i] < k,
            forall|i: int, j: int| 0 <= i < j < out@.len() ==> out@[i] < out@[j],
            forall|m: int|
                0 <= m < k ==> (out@.contains(m as usize) <==> is_target(
                    catalog@,
                    normalized_ids(ids@),
                    m,
                )),
        decreases catalog@.len() - k,
    {
        let ghost before = out@;
        let hit = match catalog[k].display_id() {
            Some(d) => {
                let u = to_upper_string(d.as_str());
                let c = remove_spaces(u.as_str());
                seq_has(&want, &c)
            },
            None => false,
        };
        if hit {
            out.push(k);
        }
        assert forall|m: int| 0 <= m < k + 1 implies (out@.contains(m as usize) <==> is_target(
            catalog@,
            normalized_ids(ids@),
            m,
        )) by {
            if m < k {
                if before.contains(m as usize) {
                    let i = choose|i: int| 0 <= i < before.len() && before[i] == m as usize;
                    assert(out@[i] == m as usize);
                }
                if out@.contains(m as usize) {
                    let i = choose|i: int| 0 <= i < out@.len() && out@[i] == m as usize;
                    if i < before.len() {
                        assert(before[i] == m as usize);
                    }
                }
            } else {
                if hit {
                    assert(out@[before.len() as int] == k);
                } else if out@.contains(k) {
                    let i = choose|i: int| 0 <= i < out@.len() && out@[i] == k;
                    assert(out@[i] < k);
                }
            }
        }
        k = k + 1;
    }
    out
}

/// Positions `i` (over `names`) whose normalized name is among the normalized `want`.
pub open spec fn name_wanted(names: Seq<String>, want: Seq<Seq<char>>, i: int) -> bool {
    want.contains(spec_normalize_dso_id(names[i]@))
}

/// Indices of the cached samples that belong to one of the selected ids (both sides
/// normalized), in order; none when nothing is selected.
pub fn filter_selected(names: &Vec<String>, selected_ids: &Vec<String>) -> (r: Vec<usize>)
    ensures
        forall|i: int, j: int| 0 <= i < j < r@.len() ==> r@[i] < r@[j],
        forall|i: int| 0 <= i < r@.len() ==> #[trigger] r@[i] < names@.len(),
        forall|k: int|
            0 <= k < names@.len() ==> (r@.contains(k as usize) <==> name_wanted(
                names@,
                normalized_ids(selected_ids@),
                k,
            )),
{
    let want = normalize_all(selected_ids);
    let mut out: Vec<usize> = Vec::new();
    let mut k: usize = 0;
    while k < names.len()
        invariant
            k <= names@.len(),
            string_views(want@) == normalized_ids(selected_ids@),
            forall|i: int| 0 <= i < out@.len() ==> #[trigger] out@[i] < k,
            forall|i: int, j: int| 0 <= i < j < out@.len() ==> out@[i] < out@[j],
            forall|m: int|
                0 <= m < k ==> (out@.contains(m as usize) <==> name_wanted(
                    names@,
                    normalized_ids(selected_ids@),
                    m,
                )),
        decreases names@.len() - k,
    {
        let ghost before = out@;
        let n = normalize_dso_id(names[k].as_str());
        let hit = seq_has(&want, &n);
        if hit {
            out.push(k);
        }
        assert forall|m: int| 0 <= m < k + 1 implies (out@.contains(m as usize) <==> name_wanted(
            names@,
            normalized_ids(selected_ids@),
            m,
        )) by {
            if m < k {
                if before.contains(m as usize) {
                    let i = choose|i: int| 0 <= i < before.len() && before[i] == m as usize;
                    assert(out@[i] == m as usize);
                }
                if out@.contains(m as usize) {
                    let i = choose|i: int| 0 <= i < out@.len() && out@[i] == m as usize;
                    if i < before.len() {
                        assert(before[i] == m as usize);
                    }
                }
            } else {
                if hit {
                    assert(out@[before.len() as int] == k);
                } else if out@.contains(k) {
                    let i = choose|i: int| 0 <= i < out@.len() && out@[i] == k;
                    assert(out@[i] < k);
                }
            }
        }
        k = k + 1;
    }
    out
}

/// Indices of the selected ids with no cached track among `existing_names` (both sides
/// normalized), in selection order.
pub fn missing_ids(selected_ids: &Vec<String>, existing_names: &Vec<String>) -> (r: Vec<usize>)
    ensures
        forall|i: int, j: int| 0 <= i < j < r@.len() ==> r@[i] < r@[j],
        forall|i: int| 0 <= i < r@.len() ==> #[trigger] r@[i] < selected_ids@.len(),
        forall|k: int|
            0 <= k < selected_ids@.len() ==> (r@.contains(k as usize) <==> !name_wanted(
                selected_ids@,
                normalized_ids(existing_names@),
                k,
            )),
{
    let have = normalize_all(existing_names);
    let mut out: Vec<usize> = Vec::new();
    let mut k: usize = 0;
    while k < selected_ids.len()
        invariant
            k <= selected_ids@.len(),
            string_views(have@) == normalized_ids(existing_names@),
            forall|i: int| 0 <= i < out@.len() ==> #[trigger] out@[i] < k,
            forall|i: int, j: int| 0 <= i < j < out@.len() ==> out@[i] < out@[j],
            forall|m: int|
                0 <= m < k ==> (out@.contains(m as usize) <==> !name_wanted(
                    selected_ids@,
                    normalized_ids(existing_names@),
                    m,
                )),
        decreases selected_ids@.len() - k,
    {
        let ghost before = out@;
        let n = normalize_dso_id(selected_ids[k].as_str());
        let hit = !seq_has(&have, &n);
        if hit {
            out.push(k);
        }
        assert forall|m: int| 0 <= m < k + 1 implies (out@.contains(m as usize) <==> !name_wanted(
            selected_ids@,
            normalized_ids(existing_names@),
            m,
        )) by {
            if m < k {
                if before.contains(m as usize) {
                    let i = choose|i: int| 0 <= i < before.len() && before[i] == m as usize;
                    assert(out@[i] == m as usize);
                }
                if out@.contains(m as usize) {
                    let i = choose|i: int| 0 <= i < out@.len() && out@[i] == m as usize;
                    if i < before.len() {
                        assert(before[i] == m as usize);
                    }
                }
            } else {
                if hit {
                    assert(out@[before.len() as int] == k);
                } else if out@.contains(k) {
                    let i = choose|i: int| 0 <= i < out@.len() && out@[i] == k;
                    assert(out@[i] < k);
                }
            }
        }
        k = k + 1;
    }
    out
}

/// A night needs deep-sky work when some selected id has no cached track that night.
pub open spec fn night_needs(selected_ids: Seq<String>, cached: Seq<String>) -> bool {
    exists|k: int|
        0 <= k < selected_ids.len() && !name_wanted(selected_ids, normalized_ids(cached), k)
}

/// Positions (over `cached_per_night`) of the nights where some selected id is not cached.
pub fn nights_needing_selected_dso(selected_ids: &Vec<String>, cached_per_night: &Vec<Vec<String>>) -> (r: Vec<usize>)
    ensures
        forall|i: int, j: int| 0 <= i < j < r@.len() ==> r@[i] < r@[j],
        forall|i: int| 0 <= i < r@.len() ==> #[trigger] r@[i] < cached_per_night@.len(),
        forall|k: int|
            0 <= k < cached_per_night@.len() ==> (r@.contains(k as usize) <==> night_needs(
                selected_ids@,
                #[trigger] cached_per_night@[k]@,
            )),
{
    let mut out: Vec<usize> = Vec::new();
    let mut k: usize = 0;
    while k < cached_per_night.len()
        invariant
            k <= cached_per_night@.len(),
            forall|i: int| 0 <= i < out@.len() ==> #[trigger] out@[i] < k,
            forall|i: int, j: int| 0 <= i < j < out@.len() ==> out@[i] < out@[j],
            forall|m: int|
                0 <= m < k ==> (out@.contains(m as usize) <==> night_needs(
                    selected_ids@,
                    #[trigger] cached_per_night@[m]@,
                )),
        decreases cached_per_night@.len() - k,
    {
        let ghost before = out@;
        let miss = missing_ids(selected_ids, &cached_per_night[k]);
        let hit = miss.len() > 0;
        proof {
            if hit {
                assert(miss@.contains(miss@[0]));
                let j = miss@[0] as int;
                assert(!name_wanted(selected_ids@, normalized_ids(cached_per_night@[k as int]@), j));
                assert(night_needs(selected_ids@, cached_per_night@[k as int]@));
            } else {
                assert forall|j: int| 0 <= j < selected_ids@.len() implies name_wanted(
                    selected_ids@, normalized_ids(cached_per_night@[k as int]@), j) by {
                    if !name_wanted(selected_ids@, normalized_ids(cached_per_night@[k as int]@), j) {
                        assert(miss@.contains(j as usize));
                    }
                }
            }
        }
        if hit {
            out.push(k);
        }
        assert forall|m: int| 0 <= m < k + 1 implies (out@.contains(m as usize) <==> night_needs(
            selected_ids@,
            #[trigger] cached_per_night@[m]@,
        )) by {
            if m < k {
                if before.contains(m as usize) {
                    let i = choose|i: int| 0 <= i < before.len() && before[i] == m as usize;
                    assert(out@[i] == m as usize);
                }
                if out@.contains(m as usize) {
                    let i = choose|i: int| 0 <= i < out@.len() && out@[i] == m as usize;
                    if i < before.len() {
                        assert(before[i] == m as usize);
                    }
                }
            } else {
                if hit {
                    assert(out@[before.len() as int] == k);
                } else if out@.contains(k) {
                    let i = choose|i: int| 0 <= i < out@.len() && out@[i] == k;
                    assert(out@[i] < k);
                }
            }
        }
        k = k + 1;
    }
    out
}

/// Type labels keyed by display id of the entries at `idx`, in that order (a later
/// entry overrides).
pub open spec fn type_map_of_entries(cat: Seq<DeepObject>, idx: Seq<usize>, k: int) -> Seq<(Seq<char>, Seq<char>)>
    decreases k,
{
    if k <= 0 {
        seq![]
    } else {
        let prev = type_map_of_entries(cat, idx, k - 1);
        match spec_display_id(cat[idx[k - 1] as int]) {
            Some(id) => spec_upsert(prev, id, spec_type_label(cat[idx[k - 1] as int])),
            None => prev,
        }
    }
}

/// Type labels, keyed by display id, of the catalog entries at `indices`.
pub fn type_map_for_indices(catalog: &Vec<DeepObject>, indices: &Vec<usize>) -> (r: Vec<(String, String)>)
    requires
        forall|i: int| 0 <= i < indices@.len() ==> #[trigger] indices@[i] < catalog@.len(),
    ensures
        pairs_view(r@) == type_map_of_entries(catalog@, indices@, indices@.len() as int),
        keys_distinct(pairs_view(r@)),
{
    let mut out: Vec<(String, String)> = Vec::new();
    let mut k: usize = 0;
    while k < indices.len()
        invariant
            k <= indices@.len(),
            forall|i: int| 0 <= i < indices@.len() ==> #[trigger] indices@[i] < catalog@.len(),
            pairs_view(out@) == type_map_of_entries(catalog@, indices@, k as int),
            keys_distinct(pairs_view(out@)),
        decreases indices@.len() - k,
    {
        let obj = &catalog[indices[k]];
        match obj.display_id() {
            Some(id) => {
                let label = obj.type_label();
                upsert_pair(&mut out, id, label);
            },
            None => {},
        }
        k = k + 1;
    }
    out
}

} // verus!
