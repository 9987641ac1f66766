use vstd::prelude::*;
use crate::order::{lemma_stable_order_positions, stable_order, stable_order_spec};
use crate::timegrid::nanos_in_calendar_span;

verus! {

/// What segmenting reads of one sampled position: the object's name and the
/// sample instant in UTC epoch nanoseconds.  Positions are referred to by their
/// index in the slice of keys.
pub struct PositionKey {
    pub name: String,
    pub time_ns: i128,
}

/// Every sample instant is a calendar instant.
pub open spec fn keys_in_calendar(keys: Seq<PositionKey>) -> bool {
    forall|i: int| 0 <= i < keys.len() ==> nanos_in_calendar_span(#[trigger] keys[i].time_ns as int)
}

/// Truncating division (toward zero) by a positive divisor.
pub open spec fn trunc_div(a: int, d: int) -> int {
    if a >= 0 {
        a / d
    } else {
        -((-a) / d)
    }
}

/// Whole minutes from `from_ns` to `to_ns`, truncated toward zero (negative when `to` is
/// earlier).
pub open spec fn minutes_between(from_ns: int, to_ns: int) -> int {
    trunc_div(to_ns - from_ns, 60_000_000_000)
}

/// Indices `< k` of the keys named `name`, ascending.
pub open spec fn name_indices(keys: Seq<PositionKey>, name: Seq<char>, k: int) -> Seq<usize>
    decreases k,
{
    if k <= 0 {
        seq![]
    } else {
        let p = name_indices(keys, name, k - 1);
        if keys[k - 1].name@ == name {
            p.push((k - 1) as usize)
        } else {
            p
        }
    }
}

/// Two samples belong to the same continuous track when at most `gap` minutes apart.
pub open spec fn joins(keys: Seq<PositionKey>, a: usize, b: usize, gap: i64) -> bool {
    minutes_between(keys[a as int].time_ns as int, keys[b as int].time_ns as int) <= gap
}

/// Nonempty pieces, consecutive samples inside a piece join, consecutive pieces do not.
pub open spec fn well_split(keys: Seq<PositionKey>, segs: Seq<Seq<usize>>, gap: i64) -> bool {
    &&& forall|k: int| 0 <= k < segs.len() ==> #[trigger] segs[k].len() > 0
    &&& forall|k: int, p: int|
        0 <= k < segs.len() && 0 <= p < segs[k].len() - 1 ==> joins(
            keys,
            #[trigger] segs[k][p],
            segs[k][p + 1],
            gap,
        )
    &&& forall|k: int|
        0 <= k < segs.len() - 1 ==> !joins(keys, #[trigger] segs[k].last(), segs[k + 1][0], gap)
}

/// One continuous visibility track: indices of the positions it holds.
pub struct ObjectSegment {
    pub indices: Vec<usize>,
}

impl View for ObjectSegment {
    type V = Seq<usize>;

    open spec fn view(&self) -> Seq<usize> {
        self.indices@
    }
}

pub open spec fn seg_views(segs: Seq<ObjectSegment>) -> Seq<Seq<usize>> {
    segs.map_values(|s: ObjectSegment| s@)
}

impl ObjectSegment {
    /// Number of samples in the track.
    pub fn len(&self) -> (n: usize)
        ensures
            n == self@.len(),
    {
        self.indices.len()
    }

    /// True when the track holds no sample.
    pub fn is_empty(&self) -> (b: bool)
        ensures
            b == (self@.len() == 0),
    {
        self.indices.len() == 0
    }
}

fn minutes_between_exec(from_ns: i128, to_ns: i128) -> (m: i64)
    requires
        nanos_in_calendar_span(from_ns as int),
        nanos_in_calendar_span(to_ns as int),
    ensures
        m == minutes_between(from_ns as int, to_ns as int),
{
    let d: i128 = to_ns - from_ns;
    if d >= 0 {
        assert(d / 60_000_000_000 <= 1_000_000_000_000_000) by (nonlinear_arith)
            requires d <= 20_000_000_000_000_000_000_000_000i128, d >= 0;
        (d / 60_000_000_000) as i64
    } else {
        let nd: i128 = -d;
        assert(nd / 60_000_000_000 <= 1_000_000_000_000_000) by (nonlinear_arith)
            requires nd <= 20_000_000_000_000_000_000_000_000i128, nd >= 0;
        -((nd / 60_000_000_000) as i64)
    }
}

proof fn lemma_seg_views_push(segs: Seq<ObjectSegment>, s: ObjectSegment)
    ensures
        seg_views(segs.push(s)) == seg_views(segs).push(s@),
{
    assert(seg_views(segs.push(s)) =~= seg_views(segs).push(s@));
}

/// Splits the samples named `name` into continuous tracks: a new track starts
/// whenever two consecutive samples of that name lie more than `gap` minutes apart.
pub fn segments_for_name(keys: &Vec<PositionKey>, name: &String, gap: i64) -> (r: Vec<
    ObjectSegment,
>)
    requires
        keys_in_calendar(keys@),
    ensures
        seg_views(r@).flatten() == name_indices(keys@, name@, keys@.len() as int),
        well_split(keys@, seg_views(r@), gap),
{
    let mut segs: Vec<ObjectSegment> = Vec::new();
    let mut cur: Vec<usize> = Vec::new();
    let mut k: usize = 0;
    while k < keys.len()
        invariant
            k <= keys@.len(),
            keys_in_calendar(keys@),
            seg_views(segs@).flatten() + cur@ == name_indices(keys@, name@, k as int),
            well_split(keys@, seg_views(segs@), gap),
            segs@.len() > 0 ==> cur@.len() > 0,
            forall|p: int| 0 <= p < cur@.len() - 1 ==> joins(keys@, #[trigger] cur@[p], cur@[p + 1], gap),
            segs@.len() > 0 ==> !joins(keys@, seg_views(segs@).last().last(), cur@[0], gap),
            forall|p: int| 0 <= p < cur@.len() ==> #[trigger] cur@[p] < k,
        decreases keys@.len() - k,
    {
        let ghost old_segs = seg_views(segs@);
        let ghost old_cur = cur@;
        if keys[k].name == *name {
            if cur.len() == 0 {
                cur.push(k);
                assert(old_segs.len() == 0);
            } else {
                let last = cur[cur.len() - 1];
                let m = minutes_between_exec(keys[last].time_ns, keys[k].time_ns);
                if m <= gap {
                    cur.push(k);
                    assert(old_segs.flatten() + cur@ =~= (old_segs.flatten() + old_cur).push(
                        k as usize,
                    ));
                } else {
                    let done = ObjectSegment { indices: cur };
                    proof {
                        lemma_seg_views_push(segs@, done);
                        old_segs.lemma_flatten_push(old_cur);
                    }
                    segs.push(done);
                    cur = Vec::new();
                    cur.push(k);
                    assert(seg_views(segs@) == old_segs.push(old_cur));
                    assert(seg_views(segs@).flatten() + cur@ =~= (old_segs.flatten()
                        + old_cur).push(k as usize));
                }
            }
        }
        k = k + 1;
    }
    if cur.len() > 0 {
        let ghost old_segs = seg_views(segs@);
        let ghost old_cur = cur@;
        let done = ObjectSegment { indices: cur };
        proof {
            lemma_seg_views_push(segs@, done);
            old_segs.lemma_flatten_push(old_cur);
        }
        segs.push(done);
    } else {
        assert(seg_views(segs@).flatten() + cur@ =~= seg_views(segs@).flatten());
    }
    segs
}


pub open spec fn string_views(v: Seq<String>) -> Seq<Seq<char>> {
    v.map_values(|s: String| s@)
}

/// `names` lists each distinct name among the first `k` keys exactly once, in order
/// of first appearance.
pub open spec fn first_appearance_names(keys: Seq<PositionKey>, k: int, names: Seq<Seq<char>>) -> bool {
    &&& names_distinct(names)
    &&& names_cover(keys, k, names)
    &&& names_occur(keys, k, names)
    &&& names_ordered(keys, k, names)
}

pub open spec fn names_distinct(names: Seq<Seq<char>>) -> bool {
    forall|a: int, b: int| 0 <= a < b < names.len() ==> names[a] != names[b]
}

pub open spec fn names_cover(keys: Seq<PositionKey>, k: int, names: Seq<Seq<char>>) -> bool {
    forall|i: int| 0 <= i < k ==> names.contains(#[trigger] keys[i].name@)
}

pub open spec fn names_occur(keys: Seq<PositionKey>, k: int, names: Seq<Seq<char>>) -> bool {
    forall|g: int|
        #![trigger names[g]]
        0 <= g < names.len() ==> exists|i: int| 0 <= i < k && #[trigger] keys[i].name@ == names[g]
}

/// Some key before index `i` carries `name`.
pub open spec fn appears_before(keys: Seq<PositionKey>, name: Seq<char>, i: int) -> bool {
    exists|j: int| 0 <= j < i && #[trigger] keys[j].name@ == name
}

pub open spec fn names_ordered(keys: Seq<PositionKey>, k: int, names: Seq<Seq<char>>) -> bool {
    forall|g1: int, g2: int, i: int|
        #![trigger appears_before(keys, names[g1], i), names[g2]]
        0 <= g1 < g2 < names.len() && 0 <= i < k && keys[i].name@ == names[g2]
            ==> appears_before(keys, names[g1], i)
}

fn position_of_name(names: &Vec<String>, name: &String) -> (r: Option<usize>)
    ensures
        match r {
            Some(g) => g < names@.len() && names@[g as int]@ == name@,
            None => !string_views(names@).contains(name@),
        },
{
    let mut g: usize = 0;
    while g < names.len()
        invariant
            g <= names@.len(),
            forall|h: int| 0 <= h < g ==> names@[h]@ != name@,
        decreases names@.len() - g,
    {
        if names[g] == *name {
            return Some(g);
        }
        g = g + 1;
    }
    assert forall|h: int| 0 <= h < string_views(names@).len() implies string_views(names@)[h] != name@ by {
        assert(string_views(names@)[h] == names@[h]@);
    }
    None
}

/// The distinct object names of `keys`, in order of first appearance.
pub fn distinct_names(keys: &Vec<PositionKey>) -> (r: Vec<String>)
    ensures
        first_appearance_names(keys@, keys@.len() as int, string_views(r@)),
{
    let mut names: Vec<String> = Vec::new();
    let mut k: usize = 0;
    while k < keys.len()
        invariant
            k <= keys@.len(),
            first_appearance_names(keys@, k as int, string_views(names@)),
        decreases keys@.len() - k,
    {
        let ghost old_names = string_views(names@);
        match position_of_name(&names, &keys[k].name) {
            Some(g) => {
                assert(string_views(names@)[g as int] == keys@[k as int].name@);
                assert(string_views(names@).contains(keys@[k as int].name@));
                let ghost nv = string_views(names@);
                assert forall|g1: int, g2: int, i: int|
                    #![trigger appears_before(keys@, nv[g1], i), nv[g2]]
                    0 <= g1 < g2 < nv.len() && 0 <= i < k + 1 && keys@[i].name@ == nv[g2]
                    implies appears_before(keys@, nv[g1], i) by {
                    if i == k {
                        let i2 = choose|i2: int| 0 <= i2 < k && #[trigger] keys@[i2].name@ == nv[g2];
                        assert(keys@[i2].name@ == nv[g2] && nv[g1] == nv[g1]);
                        assert(appears_before(keys@, nv[g1], i2));
                        let j = choose|j: int| 0 <= j < i2 && #[trigger] keys@[j].name@ == nv[g1];
                        assert(keys@[j].name@ == nv[g1]);
                    } else {
                        assert(keys@[i].name@ == nv[g2] && nv[g1] == nv[g1]);
                        assert(appears_before(keys@, nv[g1], i));
                    }
                }
                assert(names_distinct(nv));
                assert(names_cover(keys@, k + 1, nv));
                assert(names_occur(keys@, k + 1, nv));
                assert(names_ordered(keys@, k + 1, nv));
            },
            None => {
                let n = keys[k].name.clone();
                names.push(n);
                let ghost nv = string_views(names@);
                assert(nv =~= old_names.push(keys@[k as int].name@));
                assert forall|i: int| 0 <= i < k + 1 implies nv.contains(#[trigger] keys@[i].name@) by {
                    if i < k {
                        let g = choose|g: int| 0 <= g < old_names.len() && old_names[g] == keys@[i].name@;
                        assert(nv[g] == keys@[i].name@);
                    } else {
                        assert(nv[nv.len() - 1] == keys@[i].name@);
                    }
                }
                assert forall|g: int| #![trigger nv[g]] 0 <= g < nv.len() implies exists|i: int| 0 <= i < k + 1 && #[trigger] keys@[i].name@ == nv[g] by {
                    if g < old_names.len() {
                        let i = choose|i: int| 0 <= i < k && #[trigger] keys@[i].name@ == old_names[g];
                        assert(keys@[i].name@ == nv[g]);
                    } else {
                        assert(keys@[k as int].name@ == nv[g]);
                    }
                }
                assert forall|g1: int, g2: int, i: int|
                    #![trigger appears_before(keys@, nv[g1], i), nv[g2]]
                    0 <= g1 < g2 < nv.len() && 0 <= i < k + 1 && keys@[i].name@ == nv[g2]
                    implies appears_before(keys@, nv[g1], i) by {
                    if g2 < old_names.len() {
                        assert(nv[g2] == old_names[g2]);
                        assert(nv[g1] == old_names[g1]);
                        if i == k {
                            assert(old_names.contains(keys@[k as int].name@)) by {
                                let i2 = choose|i2: int| 0 <= i2 < k && #[trigger] keys@[i2].name@ == old_names[g2];
                                assert(old_names[g2] == keys@[k as int].name@);
                            }
                            assert(false);
                        }
                    } else {
                        assert(nv[g1] == old_names[g1]);
                        let j = choose|j: int| 0 <= j < k && #[trigger] keys@[j].name@ == old_names[g1];
                        if i < k {
                            assert(old_names.contains(keys@[i].name@));
                            assert(false);
                        }
                        assert(keys@[j].name@ == nv[g1]);
                    }
                }
                assert(names_distinct(nv));
                assert(names_cover(keys@, k + 1, nv));
                assert(names_occur(keys@, k + 1, nv));
                assert(names_ordered(keys@, k + 1, nv));
            },
        }
        k = k + 1;
    }
    names
}


/// The tracks of one object.
pub struct NamedSegments {
    pub name: String,
    pub segments: Vec<ObjectSegment>,
}

/// Continuous visibility tracks grouped per object name.
pub struct ObjectPositionSegments {
    pub segments: Vec<NamedSegments>,
}

pub open spec fn group_names(groups: Seq<NamedSegments>) -> Seq<Seq<char>> {
    groups.map_values(|g: NamedSegments| g.name@)
}

impl ObjectPositionSegments {
    /// Each object name has at most one group.
    pub open spec fn wf(&self) -> bool {
        names_distinct(group_names(self.segments@))
    }
}

/// Every group holds exactly the samples of its name, split at gaps above `gap` minutes.
pub open spec fn groups_split(keys: Seq<PositionKey>, groups: Seq<NamedSegments>, gap: i64) -> bool {
    forall|g: int|
        0 <= g < groups.len() ==> {
            &&& seg_views((#[trigger] groups[g]).segments@).flatten() == name_indices(
                keys,
                groups[g].name@,
                keys.len() as int,
            )
            &&& well_split(keys, seg_views(groups[g].segments@), gap)
        }
}

/// `name_indices` lists exactly the keys (below `n`) that carry `name`, each below `n`.
pub proof fn lemma_name_indices_members(keys: Seq<PositionKey>, name: Seq<char>, n: int)
    requires
        0 <= n <= keys.len() <= usize::MAX,
    ensures
        forall|p: int| 0 <= p < name_indices(keys, name, n).len() ==> #[trigger] name_indices(keys, name, n)[p] < n,
        forall|k: int|
            0 <= k < n ==> (name_indices(keys, name, n).contains(k as usize) <==> #[trigger] keys[k].name@ == name),
    decreases n,
{
    if n > 0 {
        lemma_name_indices_members(keys, name, n - 1);
        let p = name_indices(keys, name, n - 1);
        let q = name_indices(keys, name, n);
        assert forall|k: int| 0 <= k < n implies (q.contains(k as usize) <==> #[trigger] keys[k].name@ == name) by {
            if keys[n - 1].name@ == name {
                assert(q == p.push((n - 1) as usize));
                if k < n - 1 {
                    if q.contains(k as usize) {
                        let w = choose|w: int| 0 <= w < q.len() && q[w] == k as usize;
                        if w < p.len() {
                            assert(p[w] == k as usize);
                        }
                    }
                    if p.contains(k as usize) {
                        let w = choose|w: int| 0 <= w < p.len() && p[w] == k as usize;
                        assert(q[w] == k as usize);
                    }
                } else {
                    assert(q[p.len() as int] == k as usize);
                }
            } else {
                assert(q == p);
                if k == n - 1 && q.contains(k as usize) {
                    let w = choose|w: int| 0 <= w < q.len() && q[w] == k as usize;
                    assert(p[w] < n - 1);
                }
            }
        }
    }
}

/// Sample `k` lies in the tracks of a group named after its object.
pub open spec fn sample_grouped(keys: Seq<PositionKey>, groups: Seq<NamedSegments>, k: int) -> bool {
    exists|g: int|
        0 <= g < groups.len() && #[trigger] groups[g].name@ == keys[k].name@ && seg_views(
            groups[g].segments@,
        ).flatten().contains(k as usize)
}

/// Grouping puts every sample in the tracks of the object it belongs to, in exactly one
/// group: groups carry distinct names and hold only samples of their own name.
pub proof fn lemma_every_sample_grouped(keys: Seq<PositionKey>, groups: Seq<NamedSegments>, gap: i64)
    requires
        keys.len() <= usize::MAX,
        first_appearance_names(keys, keys.len() as int, group_names(groups)),
        groups_split(keys, groups, gap),
    ensures
        forall|k: int| 0 <= k < keys.len() ==> #[trigger] sample_grouped(keys, groups, k),
        forall|g: int, k: int|
            0 <= g < groups.len() && 0 <= k < keys.len() && seg_views(
                (#[trigger] groups[g]).segments@,
            ).flatten().contains(k as usize) ==> groups[g].name@ == (#[trigger] keys[k]).name@,
        forall|a: int, b: int| 0 <= a < b < groups.len() ==> (#[trigger] groups[a]).name@ != (#[trigger] groups[b]).name@,
{
    let names = group_names(groups);
    let n = keys.len() as int;
    assert forall|k: int| 0 <= k < n implies #[trigger] sample_grouped(keys, groups, k) by {
        assert(names.contains(keys[k].name@));
        let g = choose|g: int| 0 <= g < names.len() && names[g] == keys[k].name@;
        assert(names[g] == groups[g].name@);
        lemma_name_indices_members(keys, groups[g].name@, n);
        assert(seg_views(groups[g].segments@).flatten() == name_indices(keys, groups[g].name@, n));
    }
    assert forall|g: int, k: int|
        0 <= g < groups.len() && 0 <= k < n && seg_views((#[trigger] groups[g]).segments@).flatten().contains(
            k as usize,
        ) implies groups[g].name@ == (#[trigger] keys[k]).name@ by {
        lemma_name_indices_members(keys, groups[g].name@, n);
        assert(seg_views(groups[g].segments@).flatten() == name_indices(keys, groups[g].name@, n));
    }
    assert forall|a: int, b: int| 0 <= a < b < groups.len() implies (#[trigger] groups[a]).name@
        != (#[trigger] groups[b]).name@ by {
        assert(names[a] == groups[a].name@);
        assert(names[b] == groups[b].name@);
    }
}

impl ObjectPositionSegments {
    /// No object, no track.
    pub fn new() -> (r: Self)
        ensures
            r.segments@.len() == 0,
            r.wf(),
    {
        ObjectPositionSegments { segments: Vec::new() }
    }

    /// Groups the samples by object name (in order of first appearance) and splits
    /// each object's samples, in input order, into tracks wherever two consecutive
    /// samples lie more than `max_segment_gap_minutes` apart.
    pub fn from_positions(keys: &Vec<PositionKey>, max_segment_gap_minutes: i64) -> (r: Self)
        requires
            keys_in_calendar(keys@),
        ensures
            first_appearance_names(keys@, keys@.len() as int, group_names(r.segments@)),
            groups_split(keys@, r.segments@, max_segment_gap_minutes),
            r.wf(),
    {
        let names = distinct_names(keys);
        let mut groups: Vec<NamedSegments> = Vec::new();
        let mut g: usize = 0;
        while g < names.len()
            invariant
                g <= names@.len(),
                keys_in_calendar(keys@),
                groups@.len() == g,
                forall|h: int| 0 <= h < g ==> (#[trigger] groups@[h]).name@ == names@[h]@,
                groups_split(keys@, groups@, max_segment_gap_minutes),
            decreases names@.len() - g,
        {
            let segs = segments_for_name(keys, &names[g], max_segment_gap_minutes);
            let name = names[g].clone();
            groups.push(NamedSegments { name, segments: segs });
            g = g + 1;
        }
        assert(group_names(groups@) =~= string_views(names@));
        ObjectPositionSegments { segments: groups }
    }
}


pub open spec fn time_of(keys: Seq<PositionKey>, i: usize) -> int {
    keys[i as int].time_ns as int
}

/// Sample times of the indices `f`.
pub open spec fn key_times(keys: Seq<PositionKey>, f: Seq<usize>) -> Seq<i128> {
    f.map_values(|i: usize| keys[i as int].time_ns)
}

/// `f` reordered by sample time; samples with equal times keep their order in `f`.
pub open spec fn stable_time_sort(keys: Seq<PositionKey>, f: Seq<usize>) -> Seq<usize> {
    stable_order_spec(key_times(keys, f)).map_values(|p: usize| f[p as int])
}

/// Reorders the sample indices `f` by sample time, keeping the order of `f` among equal times.
fn stable_sort_by_time(keys: &Vec<PositionKey>, f: &Vec<usize>) -> (r: Vec<usize>)
    requires
        forall|i: int| 0 <= i < f@.len() ==> #[trigger] f@[i] < keys@.len(),
    ensures
        r@ == stable_time_sort(keys@, f@),
        forall|i: int| 0 <= i < r@.len() ==> #[trigger] r@[i] < keys@.len(),
{
    let mut times: Vec<i128> = Vec::new();
    let mut k: usize = 0;
    while k < f.len()
        invariant
            k <= f@.len(),
            forall|i: int| 0 <= i < f@.len() ==> #[trigger] f@[i] < keys@.len(),
            times@ == key_times(keys@, f@).take(k as int),
        decreases f@.len() - k,
    {
        times.push(keys[f[k]].time_ns);
        assert(times@ =~= key_times(keys@, f@).take(k + 1));
        k = k + 1;
    }
    assert(times@ =~= key_times(keys@, f@));
    let order = stable_order(&times);
    proof {
        lemma_stable_order_positions(times@);
    }
    let mut r: Vec<usize> = Vec::new();
    let mut j: usize = 0;
    while j < order.len()
        invariant
            j <= order@.len(),
            order@.len() == f@.len(),
            order@ == stable_order_spec(key_times(keys@, f@)),
            forall|i: int| 0 <= i < order@.len() ==> #[trigger] order@[i] < f@.len(),
            forall|i: int| 0 <= i < f@.len() ==> #[trigger] f@[i] < keys@.len(),
            r@.len() == j,
            forall|i: int| 0 <= i < j ==> #[trigger] r@[i] == f@[order@[i] as int],
        decreases order@.len() - j,
    {
        r.push(f[order[j]]);
        j = j + 1;
    }
    assert(r@ =~= stable_time_sort(keys@, f@));
    r
}

pub open spec fn view_pred(in_view: Seq<bool>) -> spec_fn(usize) -> bool {
    |i: usize| in_view[i as int]
}

pub open spec fn in_view_filter(in_view: Seq<bool>, s: Seq<usize>) -> Seq<usize> {
    s.filter(view_pred(in_view))
}

/// The in-view samples of a track, in time order.
pub open spec fn visible_track(keys: Seq<PositionKey>, in_view: Seq<bool>, s: Seq<usize>) -> Seq<
    usize,
> {
    stable_time_sort(keys, in_view_filter(in_view, s))
}

/// The samples of a visible track come in nondecreasing time.
pub proof fn lemma_visible_track_in_time_order(keys: Seq<PositionKey>, in_view: Seq<bool>, s: Seq<usize>)
    ensures
        forall|i: int, j: int|
            0 <= i < j < visible_track(keys, in_view, s).len() ==> time_of(
                keys,
                #[trigger] visible_track(keys, in_view, s)[i],
            ) <= time_of(keys, #[trigger] visible_track(keys, in_view, s)[j]),
{
    let f = in_view_filter(in_view, s);
    let times = key_times(keys, f);
    let order = stable_order_spec(times);
    let t = visible_track(keys, in_view, s);
    lemma_stable_order_positions(times);
    assert forall|i: int, j: int| 0 <= i < j < t.len() implies time_of(keys, #[trigger] t[i]) <= time_of(
        keys,
        #[trigger] t[j],
    ) by {
        assert(t[i] == f[order[i] as int]);
        assert(t[j] == f[order[j] as int]);
        assert(crate::order::time_pos_leq(times)(order[i], order[j]));
        assert(times[order[i] as int] == keys[f[order[i] as int] as int].time_ns);
        assert(times[order[j] as int] == keys[f[order[j] as int] as int].time_ns);
    }
}

/// A visible track is kept when it has a sample and spans at least `min` minutes.
pub open spec fn track_kept(keys: Seq<PositionKey>, t: Seq<usize>, min: i64) -> bool {
    t.len() > 0 && minutes_between(time_of(keys, t[0]), time_of(keys, t.last())) >= min
}

/// The visible parts of `segs` that are kept, in order.
pub open spec fn kept_tracks(
    keys: Seq<PositionKey>,
    in_view: Seq<bool>,
    min: i64,
    segs: Seq<Seq<usize>>,
) -> Seq<Seq<usize>>
    decreases segs.len(),
{
    if segs.len() == 0 {
        seq![]
    } else {
        let prev = kept_tracks(keys, in_view, min, segs.drop_last());
        let t = visible_track(keys, in_view, segs.last());
        if track_kept(keys, t, min) {
            prev.push(t)
        } else {
            prev
        }
    }
}

pub open spec fn groups_view(groups: Seq<NamedSegments>) -> Seq<(Seq<char>, Seq<Seq<usize>>)> {
    groups.map_values(|g: NamedSegments| (g.name@, seg_views(g.segments@)))
}

/// The selected objects that keep at least one track, each with its kept tracks, in order.
pub open spec fn kept_groups(
    keys: Seq<PositionKey>,
    in_view: Seq<bool>,
    min: i64,
    selected: Seq<Seq<char>>,
    groups: Seq<(Seq<char>, Seq<Seq<usize>>)>,
) -> Seq<(Seq<char>, Seq<Seq<usize>>)>
    decreases groups.len(),
{
    if groups.len() == 0 {
        seq![]
    } else {
        let prev = kept_groups(keys, in_view, min, selected, groups.drop_last());
        let g = groups.last();
        let tracks = kept_tracks(keys, in_view, min, g.1);
        if selected.contains(g.0) && tracks.len() > 0 {
            prev.push((g.0, tracks))
        } else {
            prev
        }
    }
}

/// Every index held by a track is a valid index into `n` keys.
pub open spec fn indices_below(groups: Seq<NamedSegments>, n: int) -> bool {
    forall|g: int, k: int, p: int|
        0 <= g < groups.len() && 0 <= k < groups[g].segments@.len() && 0 <= p
            < groups[g].segments@[k]@.len() ==> #[trigger] groups[g].segments@[k]@[p] < n
}

fn name_selected(selected: &Vec<String>, name: &String) -> (b: bool)
    ensures
        b == string_views(selected@).contains(name@),
{
    let mut i: usize = 0;
    while i < selected.len()
        invariant
            i <= selected@.len(),
            forall|h: int| 0 <= h < i ==> selected@[h]@ != name@,
        decreases selected@.len() - i,
    {
        if selected[i] == *name {
            assert(string_views(selected@)[i as int] == name@);
            return true;
        }
        i = i + 1;
    }
    assert forall|h: int| 0 <= h < string_views(selected@).len() implies string_views(selected@)[h]
        != name@ by {
        assert(string_views(selected@)[h] == selected@[h]@);
    }
    false
}

fn visible_track_exec(keys: &Vec<PositionKey>, in_view: &Vec<bool>, seg: &ObjectSegment) -> (r: Vec<
    usize,
>)
    requires
        in_view@.len() == keys@.len(),
        forall|p: int| 0 <= p < seg@.len() ==> #[trigger] seg@[p] < keys@.len(),
    ensures
        r@ == visible_track(keys@, in_view@, seg@),
        forall|i: int| 0 <= i < r@.len() ==> #[trigger] r@[i] < keys@.len(),
{
    let mut f: Vec<usize> = Vec::new();
    let mut k: usize = 0;
    let ghost pred = view_pred(in_view@);
    while k < seg.indices.len()
        invariant
            k <= seg@.len(),
            pred == view_pred(in_view@),
            in_view@.len() == keys@.len(),
            forall|p: int| 0 <= p < seg@.len() ==> #[trigger] seg@[p] < keys@.len(),
            f@ == seg@.take(k as int).filter(pred),
            forall|p: int| 0 <= p < f@.len() ==> #[trigger] f@[p] < keys@.len(),
        decreases seg@.len() - k,
    {
        let i = seg.indices[k];
        proof {
            assert(seg@.take(k + 1) =~= seg@.take(k as int).push(i));
            seg@.take(k as int).lemma_filter_push(i, pred);
        }
        if in_view[i] {
            f.push(i);
        }
        k = k + 1;
    }
    assert(seg@.take(seg@.len() as int) =~= seg@);
    stable_sort_by_time(keys, &f)
}

impl ObjectPositionSegments {
    /// Keeps the selected objects and, within each, the in-view part of every track,
    /// reordered by time, when it spans at least `min_duration_minutes`; objects left
    /// without a track are dropped.  `in_view[i]` tells whether sample `i` lies inside
    /// one of the observer's view windows.
    pub fn filter_view(
        &self,
        keys: &Vec<PositionKey>,
        in_view: &Vec<bool>,
        min_duration_minutes: i64,
        selected_object_names: &Vec<String>,
    ) -> (r: ObjectPositionSegments)
        requires
            self.wf(),
            keys_in_calendar(keys@),
            in_view@.len() == keys@.len(),
            indices_below(self.segments@, keys@.len() as int),
        ensures
            groups_view(r.segments@) == kept_groups(
                keys@,
                in_view@,
                min_duration_minutes,
                string_views(selected_object_names@),
                groups_view(self.segments@),
            ),
            r.wf(),
    {
        let ghost sel = string_views(selected_object_names@);
        let ghost gv = groups_view(self.segments@);
        let mut out: Vec<NamedSegments> = Vec::new();
        let mut g: usize = 0;
        while g < self.segments.len()
            invariant
                g <= self.segments@.len(),
                keys_in_calendar(keys@),
                in_view@.len() == keys@.len(),
                indices_below(self.segments@, keys@.len() as int),
                sel == string_views(selected_object_names@),
                gv == groups_view(self.segments@),
                groups_view(out@) == kept_groups(keys@, in_view@, min_duration_minutes, sel, gv.take(g as int)),
            decreases self.segments@.len() - g,
        {
            let group = &self.segments[g];
            let ghost sv = seg_views(group.segments@);
            assert(gv.take(g + 1).drop_last() =~= gv.take(g as int));
            assert(gv.take(g + 1).last() == (group.name@, sv));
            if name_selected(selected_object_names, &group.name) {
                let mut tracks: Vec<ObjectSegment> = Vec::new();
                let mut k: usize = 0;
                while k < group.segments.len()
                    invariant
                        k <= group.segments@.len(),
                        keys_in_calendar(keys@),
                        g < self.segments@.len(),
                        group == self.segments@[g as int],
                        sv == seg_views(group.segments@),
                        in_view@.len() == keys@.len(),
                        indices_below(self.segments@, keys@.len() as int),
                        seg_views(tracks@) == kept_tracks(keys@, in_view@, min_duration_minutes, sv.take(k as int)),
                    decreases group.segments@.len() - k,
                {
                    assert(sv.take(k + 1).drop_last() =~= sv.take(k as int));
                    assert(sv.take(k + 1).last() == group.segments@[k as int]@);
                    let seg = &group.segments[k];
                    assert forall|p: int| 0 <= p < seg@.len() implies #[trigger] seg@[p] < keys@.len() by {
                        assert(self.segments@[g as int].segments@[k as int]@[p] < keys@.len());
                    }
                    let t = visible_track_exec(keys, in_view, seg);
                    if t.len() > 0 {
                        let first = t[0];
                        let last = t[t.len() - 1];
                        let m = minutes_between_exec(keys[first].time_ns, keys[last].time_ns);
                        if m >= min_duration_minutes {
                            let ghost before = tracks@;
                            let new_seg = ObjectSegment { indices: t };
                            proof { lemma_seg_views_push(tracks@, new_seg); }
                            tracks.push(new_seg);
                        }
                    }
                    k = k + 1;
                }
                assert(sv.take(group.segments@.len() as int) =~= sv);
                if tracks.len() > 0 {
                    let name = group.name.clone();
                    let ghost before = out@;
                    out.push(NamedSegments { name, segments: tracks });
                    assert(groups_view(out@) =~= groups_view(before).push((group.name@, seg_views(out@.last().segments@))));
                }
            }
            g = g + 1;
        }
        assert(gv.take(self.segments@.len() as int) =~= gv);
        let r = ObjectPositionSegments { segments: out };
        proof {
            lemma_group_names_view(self.segments@);
            lemma_group_names_view(r.segments@);
            lemma_kept_groups_by_name(keys@, in_view@, min_duration_minutes, sel, gv);
        }
        r
    }
}


/// Group names of a view of groups are pairwise distinct.
pub open spec fn view_names_distinct(groups: Seq<(Seq<char>, Seq<Seq<usize>>)>) -> bool {
    forall|a: int, b: int| 0 <= a < b < groups.len() ==> (#[trigger] groups[a]).0 != (#[trigger] groups[b]).0
}

proof fn lemma_group_names_view(groups: Seq<NamedSegments>)
    ensures
        names_distinct(group_names(groups)) <==> view_names_distinct(groups_view(groups)),
{
    let gv = groups_view(groups);
    let nv = group_names(groups);
    assert forall|a: int| 0 <= a < groups.len() implies #[trigger] gv[a].0 == nv[a] by {}
    if names_distinct(nv) {
        assert forall|a: int, b: int| 0 <= a < b < gv.len() implies (#[trigger] gv[a]).0 != (#[trigger] gv[b]).0 by {
            assert(nv[a] != nv[b]);
        }
    }
    if view_names_distinct(gv) {
        assert forall|a: int, b: int| 0 <= a < b < nv.len() implies nv[a] != nv[b] by {
            assert(gv[a].0 != gv[b].0);
        }
    }
}

/// The visible part of each track, in time order.
pub open spec fn visible_tracks(keys: Seq<PositionKey>, in_view: Seq<bool>, segs: Seq<Seq<usize>>) -> Seq<Seq<usize>> {
    segs.map_values(|s: Seq<usize>| visible_track(keys, in_view, s))
}

pub open spec fn kept_pred(keys: Seq<PositionKey>, min: i64) -> spec_fn(Seq<usize>) -> bool {
    |t: Seq<usize>| track_kept(keys, t, min)
}

/// The kept tracks are the visible parts of the tracks, in order, that are kept.
pub proof fn lemma_kept_tracks_filter(keys: Seq<PositionKey>, in_view: Seq<bool>, min: i64, segs: Seq<Seq<usize>>)
    ensures
        kept_tracks(keys, in_view, min, segs) == visible_tracks(keys, in_view, segs).filter(kept_pred(keys, min)),
    decreases segs.len(),
{
    if segs.len() > 0 {
        lemma_kept_tracks_filter(keys, in_view, min, segs.drop_last());
        let p = visible_tracks(keys, in_view, segs.drop_last());
        let t = visible_track(keys, in_view, segs.last());
        assert(visible_tracks(keys, in_view, segs) =~= p.push(t));
        p.lemma_filter_push(t, kept_pred(keys, min));
    }
}

/// Each group with its kept tracks.
pub open spec fn groups_with_kept_tracks(
    keys: Seq<PositionKey>,
    in_view: Seq<bool>,
    min: i64,
    groups: Seq<(Seq<char>, Seq<Seq<usize>>)>,
) -> Seq<(Seq<char>, Seq<Seq<usize>>)> {
    groups.map_values(|g: (Seq<char>, Seq<Seq<usize>>)| (g.0, kept_tracks(keys, in_view, min, g.1)))
}

pub open spec fn group_shown(selected: Seq<Seq<char>>) -> spec_fn((Seq<char>, Seq<Seq<usize>>)) -> bool {
    |g: (Seq<char>, Seq<Seq<usize>>)| selected.contains(g.0) && g.1.len() > 0
}

/// The kept groups are the groups, in order, each with its kept tracks, whose name is
/// selected and that keep a track.
pub proof fn lemma_kept_groups_filter(
    keys: Seq<PositionKey>,
    in_view: Seq<bool>,
    min: i64,
    selected: Seq<Seq<char>>,
    groups: Seq<(Seq<char>, Seq<Seq<usize>>)>,
)
    ensures
        kept_groups(keys, in_view, min, selected, groups) == groups_with_kept_tracks(keys, in_view, min, groups).filter(
            group_shown(selected),
        ),
    decreases groups.len(),
{
    if groups.len() > 0 {
        lemma_kept_groups_filter(keys, in_view, min, selected, groups.drop_last());
        let p = groups_with_kept_tracks(keys, in_view, min, groups.drop_last());
        let g = (groups.last().0, kept_tracks(keys, in_view, min, groups.last().1));
        assert(groups_with_kept_tracks(keys, in_view, min, groups) =~= p.push(g));
        p.lemma_filter_push(g, group_shown(selected));
    }
}

/// Per name, over groups with distinct names: a group's name is in the result exactly
/// when it is selected and keeps a track, and then with exactly its kept tracks; the
/// result has no other name, and no name twice.
pub proof fn lemma_kept_groups_by_name(
    keys: Seq<PositionKey>,
    in_view: Seq<bool>,
    min: i64,
    selected: Seq<Seq<char>>,
    groups: Seq<(Seq<char>, Seq<Seq<usize>>)>,
)
    requires
        view_names_distinct(groups),
    ensures
        view_names_distinct(kept_groups(keys, in_view, min, selected, groups)),
        forall|i: int|
            0 <= i < kept_groups(keys, in_view, min, selected, groups).len() ==> exists|j: int|
                0 <= j < groups.len() && (#[trigger] groups[j]).0 == (#[trigger] kept_groups(
                    keys,
                    in_view,
                    min,
                    selected,
                    groups,
                )[i]).0,
        forall|i: int, j: int|
            0 <= i < kept_groups(keys, in_view, min, selected, groups).len() && 0 <= j < groups.len() && (
            #[trigger] kept_groups(keys, in_view, min, selected, groups)[i]).0 == (#[trigger] groups[j]).0 ==> {
                &&& selected.contains(groups[j].0)
                &&& kept_groups(keys, in_view, min, selected, groups)[i].1 == kept_tracks(keys, in_view, min, groups[j].1)
                &&& kept_tracks(keys, in_view, min, groups[j].1).len() > 0
            },
        forall|j: int|
            0 <= j < groups.len() && selected.contains((#[trigger] groups[j]).0) && kept_tracks(
                keys,
                in_view,
                min,
                groups[j].1,
            ).len() > 0 ==> exists|i: int|
                0 <= i < kept_groups(keys, in_view, min, selected, groups).len() && (#[trigger] kept_groups(
                    keys,
                    in_view,
                    min,
                    selected,
                    groups,
                )[i]).0 == groups[j].0,
    decreases groups.len(),
{
    let r = kept_groups(keys, in_view, min, selected, groups);
    if groups.len() > 0 {
        let p = groups.drop_last();
        let rp = kept_groups(keys, in_view, min, selected, p);
        let n = groups.len() - 1;
        let g = groups.last();
        let tracks = kept_tracks(keys, in_view, min, g.1);
        assert(view_names_distinct(p));
        lemma_kept_groups_by_name(keys, in_view, min, selected, p);
        let shown = selected.contains(g.0) && tracks.len() > 0;
        if shown {
            assert(r == rp.push((g.0, tracks)));
        } else {
            assert(r == rp);
        }
        assert forall|i: int| 0 <= i < rp.len() implies (#[trigger] rp[i]).0 != g.0 by {
            let j = choose|j: int| 0 <= j < p.len() && (#[trigger] p[j]).0 == rp[i].0;
            assert(groups[j].0 != groups[n].0);
        }
        assert forall|i: int| 0 <= i < r.len() implies exists|j: int|
            0 <= j < groups.len() && (#[trigger] groups[j]).0 == (#[trigger] r[i]).0 by {
            if i < rp.len() {
                let j = choose|j: int| 0 <= j < p.len() && (#[trigger] p[j]).0 == rp[i].0;
                assert(groups[j] == p[j]);
            } else {
                assert(groups[n].0 == r[i].0);
            }
        }
        assert forall|i: int, j: int|
            0 <= i < r.len() && 0 <= j < groups.len() && (#[trigger] r[i]).0 == (#[trigger] groups[j]).0 implies {
                &&& selected.contains(groups[j].0)
                &&& r[i].1 == kept_tracks(keys, in_view, min, groups[j].1)
                &&& kept_tracks(keys, in_view, min, groups[j].1).len() > 0
            } by {
            if i < rp.len() {
                assert(r[i] == rp[i]);
                if j == n {
                    assert(rp[i].0 != g.0);
                } else {
                    assert(groups[j] == p[j]);
                }
            } else {
                if j != n {
                    assert(groups[j].0 != groups[n].0);
                }
            }
        }
        assert forall|j: int|
            0 <= j < groups.len() && selected.contains((#[trigger] groups[j]).0) && kept_tracks(
                keys,
                in_view,
                min,
                groups[j].1,
            ).len() > 0 implies exists|i: int| 0 <= i < r.len() && (#[trigger] r[i]).0 == groups[j].0 by {
            if j < n {
                assert(groups[j] == p[j]);
                let i = choose|i: int| 0 <= i < rp.len() && (#[trigger] rp[i]).0 == p[j].0;
                assert(r[i] == rp[i]);
            } else {
                assert(r[rp.len() as int].0 == groups[j].0);
            }
        }
        assert forall|a: int, b: int| 0 <= a < b < r.len() implies (#[trigger] r[a]).0 != (#[trigger] r[b]).0 by {
            if b < rp.len() {
                assert(r[a] == rp[a] && r[b] == rp[b]);
            } else {
                assert(r[a] == rp[a]);
            }
        }
    }
}

/// What filtering the view keeps, per object name: for groups with distinct names, an
/// object is in the result exactly when it is selected and at least one of its tracks
/// is kept, and then with exactly its kept tracks; no other object is in the result,
/// none twice.
pub proof fn lemma_filter_view_by_name(
    segs: ObjectPositionSegments,
    keys: Seq<PositionKey>,
    in_view: Seq<bool>,
    min_duration_minutes: i64,
    selected_object_names: Seq<String>,
)
    requires
        segs.wf(),
    ensures
        ({
            let r = kept_groups(keys, in_view, min_duration_minutes, string_views(selected_object_names), groups_view(segs.segments@));
            let g = groups_view(segs.segments@);
            &&& view_names_distinct(r)
            &&& forall|i: int| 0 <= i < r.len() ==> exists|j: int| 0 <= j < g.len() && (#[trigger] g[j]).0 == (#[trigger] r[i]).0
            &&& forall|i: int, j: int|
                0 <= i < r.len() && 0 <= j < g.len() && (#[trigger] r[i]).0 == (#[trigger] g[j]).0 ==> {
                    &&& string_views(selected_object_names).contains(g[j].0)
                    &&& r[i].1 == kept_tracks(keys, in_view, min_duration_minutes, g[j].1)
                    &&& r[i].1.len() > 0
                }
            &&& forall|j: int|
                0 <= j < g.len() && string_views(selected_object_names).contains((#[trigger] g[j]).0) && kept_tracks(
                    keys,
                    in_view,
                    min_duration_minutes,
                    g[j].1,
                ).len() > 0 ==> exists|i: int| 0 <= i < r.len() && (#[trigger] r[i]).0 == g[j].0
        }),
{
    lemma_group_names_view(segs.segments@);
    lemma_kept_groups_by_name(
        keys,
        in_view,
        min_duration_minutes,
        string_views(selected_object_names),
        groups_view(segs.segments@),
    );
}

/// When one object is visible during one night: first sample, last sample, and
/// the visible minutes summed over its tracks.
pub struct NightSpan {
    pub start_ns: i128,
    pub end_ns: i128,
    pub duration_minutes: i64,
}

/// Visible minutes of one track: from its first to its last sample.
pub open spec fn track_minutes(keys: Seq<PositionKey>, t: Seq<usize>) -> int {
    minutes_between(time_of(keys, t[0]), time_of(keys, t.last()))
}

/// The first `n` tracks are all nonempty.
pub open spec fn tracks_nonempty(tracks: Seq<Seq<usize>>, n: int) -> bool {
    forall|k: int| 0 <= k < n ==> #[trigger] tracks[k].len() > 0
}

/// Visible minutes summed over the first `n` tracks.
pub open spec fn tracks_total(keys: Seq<PositionKey>, tracks: Seq<Seq<usize>>, n: int) -> int
    decreases n,
{
    if n <= 0 {
        0
    } else {
        tracks_total(keys, tracks, n - 1) + track_minutes(keys, tracks[n - 1])
    }
}

/// Earliest first sample over the first `n >= 1` tracks.
pub open spec fn tracks_start(keys: Seq<PositionKey>, tracks: Seq<Seq<usize>>, n: int) -> int
    decreases n,
{
    if n <= 1 {
        time_of(keys, tracks[0][0])
    } else {
        let s = tracks_start(keys, tracks, n - 1);
        let f = time_of(keys, tracks[n - 1][0]);
        if f < s {
            f
        } else {
            s
        }
    }
}

/// Latest last sample over the first `n >= 1` tracks.
pub open spec fn tracks_end(keys: Seq<PositionKey>, tracks: Seq<Seq<usize>>, n: int) -> int
    decreases n,
{
    if n <= 1 {
        time_of(keys, tracks[0].last())
    } else {
        let e = tracks_end(keys, tracks, n - 1);
        let l = time_of(keys, tracks[n - 1].last());
        if l > e {
            l
        } else {
            e
        }
    }
}

/// Every index held by the tracks points into `keys`.
pub open spec fn tracks_in_bounds(keys: Seq<PositionKey>, tracks: Seq<Seq<usize>>) -> bool {
    forall|k: int, p: int|
        0 <= k < tracks.len() && 0 <= p < tracks[k].len() ==> (#[trigger] tracks[k][p]) < keys.len()
}

/// Summarises one night of one object from its tracks.  There is no summary
/// when there is no track or when a track holds no sample.
pub fn span_of_segments(keys: &Vec<PositionKey>, segs: &Vec<ObjectSegment>) -> (r: Option<NightSpan>)
    requires
        keys_in_calendar(keys@),
        tracks_in_bounds(keys@, seg_views(segs@)),
        forall|n: int|
            0 <= n <= segs@.len() && tracks_nonempty(seg_views(segs@), n) ==> i64::MIN
                <= #[trigger] tracks_total(keys@, seg_views(segs@), n) <= i64::MAX,
    ensures
        r is None <==> (segs@.len() == 0 || !tracks_nonempty(seg_views(segs@), segs@.len() as int)),
        r matches Some(span) ==> {
            &&& span.start_ns == tracks_start(keys@, seg_views(segs@), segs@.len() as int)
            &&& span.end_ns == tracks_end(keys@, seg_views(segs@), segs@.len() as int)
            &&& span.duration_minutes == tracks_total(keys@, seg_views(segs@), segs@.len() as int)
        },
{
    let ghost tracks = seg_views(segs@);
    if segs.len() == 0 {
        return None;
    }
    let mut start: i128 = 0;
    let mut end: i128 = 0;
    let mut total: i64 = 0;
    let mut k: usize = 0;
    while k < segs.len()
        invariant
            tracks == seg_views(segs@),
            keys_in_calendar(keys@),
            tracks.len() == segs@.len(),
            k <= segs@.len(),
            segs@.len() > 0,
            tracks_in_bounds(keys@, tracks),
            forall|n: int|
                0 <= n <= segs@.len() && tracks_nonempty(tracks, n) ==> i64::MIN
                    <= #[trigger] tracks_total(keys@, tracks, n) <= i64::MAX,
            tracks_nonempty(tracks, k as int),
            total == tracks_total(keys@, tracks, k as int),
            k > 0 ==> start == tracks_start(keys@, tracks, k as int),
            k > 0 ==> end == tracks_end(keys@, tracks, k as int),
        decreases segs@.len() - k,
    {
        let seg = &segs[k];
        assert(tracks[k as int] == seg@);
        if seg.indices.len() == 0 {
            assert(!tracks_nonempty(tracks, segs@.len() as int));
            return None;
        }
        let n = seg.indices.len();
        let first_i = seg.indices[0];
        let last_i = seg.indices[n - 1];
        assert(first_i < keys@.len() && last_i < keys@.len()) by {
            assert(tracks[k as int][0] == first_i);
            assert(tracks[k as int][n - 1] == last_i);
        }
        let first = keys[first_i].time_ns;
        let last = keys[last_i].time_ns;
        let m = minutes_between_exec(first, last);
        assert(tracks_nonempty(tracks, k + 1));
        assert(tracks_total(keys@, tracks, k + 1) == total + m);
        total = total + m;
        if k == 0 {
            start = first;
            end = last;
        } else {
            if first < start {
                start = first;
            }
            if last > end {
                end = last;
            }
        }
        k = k + 1;
    }
    Some(NightSpan { start_ns: start, end_ns: end, duration_minutes: total })
}

} // verus!
