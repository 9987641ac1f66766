use vstd::prelude::*;
use crate::segments::string_views;
use crate::text::str_eq;
use vstd::relations::sorted_by;

verus! {

/// Which solar-system bodies are shown.
#[derive(Clone, Copy)]
pub struct ObjectSelectedFlags {
    pub saturn: bool,
    pub jupiter: bool,
    pub neptune: bool,
    pub uranus: bool,
    pub mercury: bool,
    pub venus: bool,
    pub mars: bool,
    pub moon: bool,
}

/// The selectable bodies, in display order.
pub open spec fn spec_all_names() -> Seq<Seq<char>> {
    seq![
        "Saturn"@,
        "Jupiter"@,
        "Neptune"@,
        "Uranus"@,
        "Mercury"@,
        "Venus"@,
        "Mars"@,
        "Moon"@,
    ]
}

impl Default for ObjectSelectedFlags {
    /// Default selection: Saturn, Jupiter, Venus, Mars and the Moon.
    fn default() -> (r: Self)
        ensures
            r == (ObjectSelectedFlags {
                saturn: true,
                jupiter: true,
                neptune: false,
                uranus: false,
                mercury: false,
                venus: true,
                mars: true,
                moon: true,
            }),
    {
        ObjectSelectedFlags {
            saturn: true,
            jupiter: true,
            neptune: false,
            uranus: false,
            mercury: false,
            venus: true,
            mars: true,
            moon: true,
        }
    }
}

impl ObjectSelectedFlags {
    /// The flag of the body called `name`, if it is one of the selectable bodies.
    pub open spec fn flag_of(self, name: Seq<char>) -> Option<bool> {
        if name == "Saturn"@ {
            Some(self.saturn)
        } else if name == "Moon"@ {
            Some(self.moon)
        } else if name == "Jupiter"@ {
            Some(self.jupiter)
        } else if name == "Neptune"@ {
            Some(self.neptune)
        } else if name == "Uranus"@ {
            Some(self.uranus)
        } else if name == "Mercury"@ {
            Some(self.mercury)
        } else if name == "Venus"@ {
            Some(self.venus)
        } else if name == "Mars"@ {
            Some(self.mars)
        } else {
            None
        }
    }

    /// The same flags with the one of `name` set to `v` (unchanged for an unknown name).
    pub open spec fn with_flag(self, name: Seq<char>, v: bool) -> Self {
        if name == "Saturn"@ {
            ObjectSelectedFlags { saturn: v, ..self }
        } else if name == "Moon"@ {
            ObjectSelectedFlags { moon: v, ..self }
        } else if name == "Jupiter"@ {
            ObjectSelectedFlags { jupiter: v, ..self }
        } else if name == "Neptune"@ {
            ObjectSelectedFlags { neptune: v, ..self }
        } else if name == "Uranus"@ {
            ObjectSelectedFlags { uranus: v, ..self }
        } else if name == "Mercury"@ {
            ObjectSelectedFlags { mercury: v, ..self }
        } else if name == "Venus"@ {
            ObjectSelectedFlags { venus: v, ..self }
        } else if name == "Mars"@ {
            ObjectSelectedFlags { mars: v, ..self }
        } else {
            self
        }
    }

    /// All selectable body names, in display order.
    pub fn all_names() -> (r: Vec<String>)
        ensures
            string_views(r@) == spec_all_names(),
    {
        let mut v: Vec<String> = Vec::new();
        v.push(String::from_str("Saturn"));
        v.push(String::from_str("Jupiter"));
        v.push(String::from_str("Neptune"));
        v.push(String::from_str("Uranus"));
        v.push(String::from_str("Mercury"));
        v.push(String::from_str("Venus"));
        v.push(String::from_str("Mars"));
        v.push(String::from_str("Moon"));
        assert(string_views(v@) =~= spec_all_names());
        v
    }

    /// The flag of the body called `name`, or `None` for an unknown name.
    pub fn get_bool_flag(&self, name: &str) -> (r: Option<&bool>)
        ensures
            match r {
                Some(b) => self.flag_of(name@) == Some(*b),
                None => self.flag_of(name@) is None,
            },
    {
        if str_eq(name, "Saturn") {
            Some(&self.saturn)
        } else if str_eq(name, "Moon") {
            Some(&self.moon)
        } else if str_eq(name, "Jupiter") {
            Some(&self.jupiter)
        } else if str_eq(name, "Neptune") {
            Some(&self.neptune)
        } else if str_eq(name, "Uranus") {
            Some(&self.uranus)
        } else if str_eq(name, "Mercury") {
            Some(&self.mercury)
        } else if str_eq(name, "Venus") {
            Some(&self.venus)
        } else if str_eq(name, "Mars") {
            Some(&self.mars)
        } else {
            None
        }
    }

    /// Mutable access to the flag of the body called `name`, or `None` for an unknown name;
    /// what is written through the reference becomes that body's flag.
    pub fn get_mut_bool_flag(&mut self, name: &str) -> (r: Option<&mut bool>)
        ensures
            match r {
                Some(b) => {
                    &&& old(self).flag_of(name@) == Some(*b)
                    &&& *final(self) == old(self).with_flag(name@, *final(b))
                },
                None => {
                    &&& old(self).flag_of(name@) is None
                    &&& *final(self) == *old(self)
                },
            },
    {
        if str_eq(name, "Saturn") {
            Some(&mut self.saturn)
        } else if str_eq(name, "Moon") {
            Some(&mut self.moon)
        } else if str_eq(name, "Jupiter") {
            Some(&mut self.jupiter)
        } else if str_eq(name, "Neptune") {
            Some(&mut self.neptune)
        } else if str_eq(name, "Uranus") {
            Some(&mut self.uranus)
        } else if str_eq(name, "Mercury") {
            Some(&mut self.mercury)
        } else if str_eq(name, "Venus") {
            Some(&mut self.venus)
        } else if str_eq(name, "Mars") {
            Some(&mut self.mars)
        } else {
            None
        }
    }

    /// Names of the selected bodies, in display order.
    pub fn selected_object_names(&self) -> (r: Vec<String>)
        ensures
            string_views(r@) == spec_all_names().filter(|n: Seq<char>| self.flag_of(n) == Some(true)),
    {
        let all = ObjectSelectedFlags::all_names();
        let ghost pred = |n: Seq<char>| self.flag_of(n) == Some(true);
        let mut names: Vec<String> = Vec::new();
        let mut i: usize = 0;
        while i < all.len()
            invariant
                i <= all@.len(),
                string_views(all@) == spec_all_names(),
                pred == (|n: Seq<char>| self.flag_of(n) == Some(true)),
                string_views(names@) == spec_all_names().take(i as int).filter(pred),
            decreases all@.len() - i,
        {
            proof {
                assert(spec_all_names().take(i + 1) =~= spec_all_names().take(i as int).push(all@[i as int]@));
                spec_all_names().take(i as int).lemma_filter_push(all@[i as int]@, pred);
                assert(string_views(all@)[i as int] == all@[i as int]@);
            }
            match self.get_bool_flag(all[i].as_str()) {
                Some(flag) => {
                    if *flag {
                        let ghost before = names@;
                        names.push(all[i].clone());
                        assert(string_views(names@) =~= string_views(before).push(all@[i as int]@));
                    }
                },
                None => {},
            }
            i = i + 1;
        }
        assert(spec_all_names().take(8) =~= spec_all_names());
        names
    }
}

/// Setting a body's flag and reading it back gives the value set; other bodies keep theirs.
pub proof fn lemma_set_then_get(flags: ObjectSelectedFlags, name: Seq<char>, other: Seq<char>, v: bool)
    requires
        flags.flag_of(name) is Some,
        other != name,
    ensures
        flags.with_flag(name, v).flag_of(name) == Some(v),
        flags.with_flag(name, v).flag_of(other) == flags.flag_of(other),
{
}

/// Exactly the listed bodies have a flag.
pub proof fn lemma_known_names_are_listed(flags: ObjectSelectedFlags, name: Seq<char>)
    ensures
        (flags.flag_of(name) is Some) <==> spec_all_names().contains(name),
{
    if spec_all_names().contains(name) {
        let i = choose|i: int| 0 <= i < 8 && spec_all_names()[i] == name;
        assert(spec_all_names()[i] == name);
    } else {
        assert(spec_all_names()[0] == "Saturn"@);
        assert(spec_all_names()[1] == "Jupiter"@);
        assert(spec_all_names()[2] == "Neptune"@);
        assert(spec_all_names()[3] == "Uranus"@);
        assert(spec_all_names()[4] == "Mercury"@);
        assert(spec_all_names()[5] == "Venus"@);
        assert(spec_all_names()[6] == "Mars"@);
        assert(spec_all_names()[7] == "Moon"@);
    }
}


/// Type label of each selectable body: "Moon" for the Moon, "Planet" otherwise.
pub open spec fn spec_planet_type_labels() -> Seq<(Seq<char>, Seq<char>)> {
    spec_all_names().map_values(|n: Seq<char>| (n, if n == "Moon"@ { "Moon"@ } else { "Planet"@ }))
}

/// Type labels of the selectable bodies, keyed by name, in display order.
pub fn planet_type_map() -> (r: Vec<(String, String)>)
    ensures
        r@.map_values(|p: (String, String)| (p.0@, p.1@)) == spec_planet_type_labels(),
{
    let names = ObjectSelectedFlags::all_names();
    let mut out: Vec<(String, String)> = Vec::new();
    let mut i: usize = 0;
    while i < names.len()
        invariant
            i <= names@.len(),
            string_views(names@) == spec_all_names(),
            out@.map_values(|p: (String, String)| (p.0@, p.1@)) == spec_planet_type_labels().take(i as int),
        decreases names@.len() - i,
    {
        assert(string_views(names@)[i as int] == names@[i as int]@);
        let label = if str_eq(names[i].as_str(), "Moon") {
            String::from_str("Moon")
        } else {
            String::from_str("Planet")
        };
        let ghost before = out@;
        let ghost lv = label@;
        out.push((names[i].clone(), label));
        assert(out@.map_values(|p: (String, String)| (p.0@, p.1@)) =~= before.map_values(
            |p: (String, String)| (p.0@, p.1@),
        ).push((names@[i as int]@, lv)));
        assert(spec_planet_type_labels()[i as int] == (spec_all_names()[i as int], lv));
        assert(out@.map_values(|p: (String, String)| (p.0@, p.1@)) =~= spec_planet_type_labels().take(i + 1));
        i = i + 1;
    }
    assert(spec_planet_type_labels().take(8) =~= spec_planet_type_labels());
    out
}

/// All names the plots filter on: selected bodies, then selected catalog ids (sorted).
pub fn selected_object_names(planets: &ObjectSelectedFlags, dso_ids: Vec<String>) -> (r: Vec<String>)
    ensures
        exists|sorted: Seq<Seq<char>>|
            string_views(r@) == spec_all_names().filter(|n: Seq<char>| planets.flag_of(n) == Some(true)) + sorted
            && sorted.to_multiset() == string_views(dso_ids@).to_multiset()
            && sorted_by(sorted, lex_order()),
{
    let mut names = planets.selected_object_names();
    let ids = sort_ids(dso_ids);
    let ghost a = string_views(names@);
    let mut i: usize = 0;
    while i < ids.len()
        invariant
            i <= ids@.len(),
            string_views(names@) == a + string_views(ids@).take(i as int),
        decreases ids@.len() - i,
    {
        let ghost before = string_views(names@);
        names.push(ids[i].clone());
        assert(string_views(names@) =~= before.push(ids@[i as int]@));
        assert(string_views(ids@)[i as int] == ids@[i as int]@);
        assert(string_views(names@) =~= a + string_views(ids@).take(i + 1));
        i = i + 1;
    }
    assert(string_views(ids@).take(i as int) =~= string_views(ids@));
    names
}

/// Lexicographic order on character sequences, comparing code points.
pub open spec fn lex_leq(a: Seq<char>, b: Seq<char>) -> bool
    decreases a.len(),
{
    if a.len() == 0 {
        true
    } else if b.len() == 0 {
        false
    } else if a[0] != b[0] {
        a[0] < b[0]
    } else {
        lex_leq(a.drop_first(), b.drop_first())
    }
}

pub open spec fn lex_order() -> spec_fn(Seq<char>, Seq<char>) -> bool {
    |a: Seq<char>, b: Seq<char>| lex_leq(a, b)
}

/// Any two sequences are comparable.
pub proof fn lemma_lex_total(a: Seq<char>, b: Seq<char>)
    ensures
        lex_leq(a, b) || lex_leq(b, a),
    decreases a.len(),
{
    if a.len() > 0 && b.len() > 0 {
        if a[0] == b[0] {
            lemma_lex_total(a.drop_first(), b.drop_first());
        } else {
            assert(a[0] < b[0] || b[0] < a[0]);
        }
    }
}

/// Every sequence is ordered with itself.
pub proof fn lemma_lex_reflexive(a: Seq<char>)
    ensures
        lex_leq(a, a),
    decreases a.len(),
{
    if a.len() > 0 {
        lemma_lex_reflexive(a.drop_first());
    }
}

/// The order is transitive.
pub proof fn lemma_lex_transitive(a: Seq<char>, b: Seq<char>, c: Seq<char>)
    requires
        lex_leq(a, b),
        lex_leq(b, c),
    ensures
        lex_leq(a, c),
    decreases a.len(),
{
    if a.len() > 0 && b.len() > 0 && c.len() > 0 && a[0] == b[0] && b[0] == c[0] {
        lemma_lex_transitive(a.drop_first(), b.drop_first(), c.drop_first());
    }
}

/// Mutually ordered sequences are equal.
pub proof fn lemma_lex_antisymmetric(a: Seq<char>, b: Seq<char>)
    requires
        lex_leq(a, b),
        lex_leq(b, a),
    ensures
        a == b,
    decreases a.len(),
{
    if a.len() > 0 && b.len() > 0 {
        lemma_lex_antisymmetric(a.drop_first(), b.drop_first());
        assert(a =~= seq![a[0]] + a.drop_first());
        assert(b =~= seq![b[0]] + b.drop_first());
    } else {
        assert(a =~= b);
    }
}

/// Whether `a` sorts before or equal to `b` (code-point lexicographic order).
pub fn str_leq(a: &str, b: &str) -> (r: bool)
    ensures
        r == lex_leq(a@, b@),
{
    let na = a.unicode_len();
    let nb = b.unicode_len();
    let mut i: usize = 0;
    assert(a@.skip(0) =~= a@);
    assert(b@.skip(0) =~= b@);
    while i < na && i < nb
        invariant
            na == a@.len(),
            nb == b@.len(),
            i <= na,
            i <= nb,
            lex_leq(a@, b@) == lex_leq(a@.skip(i as int), b@.skip(i as int)),
        decreases na - i,
    {
        let ca = a.get_char(i);
        let cb = b.get_char(i);
        assert(a@.skip(i as int)[0] == ca);
        assert(b@.skip(i as int)[0] == cb);
        if ca != cb {
            return ca < cb;
        }
        assert(a@.skip(i as int).drop_first() =~= a@.skip(i + 1));
        assert(b@.skip(i as int).drop_first() =~= b@.skip(i + 1));
        i = i + 1;
    }
    i == na
}

/// Catalog ids in ascending (code-point lexicographic) order.
pub fn sort_ids(ids: Vec<String>) -> (r: Vec<String>)
    ensures
        string_views(r@).to_multiset() == string_views(ids@).to_multiset(),
        sorted_by(string_views(r@), lex_order()),
{
    let mut out: Vec<String> = Vec::new();
    let mut rest = ids;
    let ghost all = string_views(rest@);
    proof {
        broadcast use vstd::seq_lib::group_to_multiset_ensures;
        broadcast use vstd::multiset::group_multiset_axioms;
        assert(string_views(out@) =~= Seq::<Seq<char>>::empty());
        assert(string_views(out@).to_multiset() =~= vstd::multiset::Multiset::empty());
        assert(string_views(out@).to_multiset().add(all.to_multiset()) =~= all.to_multiset());
    }
    while rest.len() > 0
        invariant
            string_views(out@).to_multiset().add(string_views(rest@).to_multiset()) == all.to_multiset(),
            sorted_by(string_views(out@), lex_order()),
        decreases rest@.len(),
    {
        let ghost rv = string_views(rest@);
        let x = rest.pop().unwrap();
        proof {
            broadcast use vstd::seq_lib::group_to_multiset_ensures;
            assert(rv =~= string_views(rest@).push(x@));
        }
        let mut q: usize = 0;
        while q < out.len() && str_leq(out[q].as_str(), x.as_str())
            invariant
                q <= out@.len(),
                forall|k: int| 0 <= k < q ==> lex_leq(#[trigger] out@[k]@, x@),
            decreases out@.len() - q,
        {
            q = q + 1;
        }
        let ghost ov = string_views(out@);
        out.insert(q, x);
        proof {
            broadcast use vstd::seq_lib::group_to_multiset_ensures;
            let nv = string_views(out@);
            assert(nv =~= ov.insert(q as int, x@));
            assert(nv.to_multiset() == ov.to_multiset().insert(x@));
            assert(rv.to_multiset() == string_views(rest@).to_multiset().insert(x@));
            broadcast use vstd::multiset::group_multiset_axioms;
            assert(nv.to_multiset().add(string_views(rest@).to_multiset()) =~= all.to_multiset());
            if q < ov.len() {
                assert(!lex_leq(ov[q as int], x@));
                lemma_lex_total(ov[q as int], x@);
            }
            assert forall|i: int, j: int| 0 <= i < j < nv.len() implies #[trigger] lex_order()(nv[i], nv[j]) by {
                if j < q {
                    assert(lex_order()(ov[i], ov[j]));
                } else if j == q {
                    assert(nv[i] == ov[i]);
                    assert(lex_leq(out@[i]@, x@) || true);
                } else if i < q {
                    assert(lex_order()(ov[i], ov[j - 1]));
                } else if i == q {
                    assert(lex_leq(x@, ov[q as int]));
                    if q as int != j - 1 {
                        assert(lex_order()(ov[q as int], ov[j - 1]));
                    } else {
                        lemma_lex_reflexive(ov[q as int]);
                    }
                    lemma_lex_transitive(x@, ov[q as int], ov[j - 1]);
                } else {
                    assert(lex_order()(ov[i - 1], ov[j - 1]));
                }
            }
        }
    }
    proof {
        broadcast use vstd::seq_lib::group_to_multiset_ensures;
        broadcast use vstd::multiset::group_multiset_axioms;
        assert(string_views(rest@) =~= Seq::<Seq<char>>::empty());
        assert(string_views(rest@).to_multiset() =~= vstd::multiset::Multiset::empty());
        assert(string_views(out@).to_multiset().add(string_views(rest@).to_multiset()) =~= string_views(out@).to_multiset());
    }
    out
}

proof fn lemma_body_name_letters()
    ensures
        "Saturn"@.len() == 6, "Saturn"@[0] == 'S', "Saturn"@[1] == 'a',
        "Jupiter"@.len() == 7, "Jupiter"@[0] == 'J', "Jupiter"@[1] == 'u',
        "Neptune"@.len() == 7, "Neptune"@[0] == 'N', "Neptune"@[1] == 'e',
        "Uranus"@.len() == 6, "Uranus"@[0] == 'U', "Uranus"@[1] == 'r',
        "Mercury"@.len() == 7, "Mercury"@[0] == 'M', "Mercury"@[1] == 'e',
        "Venus"@.len() == 5, "Venus"@[0] == 'V', "Venus"@[1] == 'e',
        "Mars"@.len() == 4, "Mars"@[0] == 'M', "Mars"@[1] == 'a',
        "Moon"@.len() == 4, "Moon"@[0] == 'M', "Moon"@[1] == 'o',
{
    reveal_strlit("Saturn");
    reveal_strlit("Jupiter");
    reveal_strlit("Neptune");
    reveal_strlit("Uranus");
    reveal_strlit("Mercury");
    reveal_strlit("Venus");
    reveal_strlit("Mars");
    reveal_strlit("Moon");
}

/// Each body's flag, read by its name, is that body's field, and no other name has a
/// flag.
pub proof fn lemma_flag_of_each_body(f: ObjectSelectedFlags, name: Seq<char>)
    ensures
        f.flag_of("Saturn"@) == Some(f.saturn),
        f.flag_of("Jupiter"@) == Some(f.jupiter),
        f.flag_of("Neptune"@) == Some(f.neptune),
        f.flag_of("Uranus"@) == Some(f.uranus),
        f.flag_of("Mercury"@) == Some(f.mercury),
        f.flag_of("Venus"@) == Some(f.venus),
        f.flag_of("Mars"@) == Some(f.mars),
        f.flag_of("Moon"@) == Some(f.moon),
        f.flag_of(name) is Some <==> spec_all_names().contains(name),
{
    lemma_body_name_letters();
    let all = spec_all_names();
    if f.flag_of(name) is Some {
        if name == "Saturn"@ {
            assert(all[0] == name);
        } else if name == "Moon"@ {
            assert(all[7] == name);
        } else if name == "Jupiter"@ {
            assert(all[1] == name);
        } else if name == "Neptune"@ {
            assert(all[2] == name);
        } else if name == "Uranus"@ {
            assert(all[3] == name);
        } else if name == "Mercury"@ {
            assert(all[4] == name);
        } else if name == "Venus"@ {
            assert(all[5] == name);
        } else {
            assert(all[6] == name);
        }
    }
    if all.contains(name) {
        let k = choose|k: int| 0 <= k < all.len() && all[k] == name;
        assert(k == 0 || k == 1 || k == 2 || k == 3 || k == 4 || k == 5 || k == 6 || k == 7);
    }
}

/// Setting a body's flag by its name sets that body's field and leaves every other field
/// as it was; an unknown name changes nothing.
pub proof fn lemma_with_flag_sets_that_body(f: ObjectSelectedFlags, name: Seq<char>, v: bool)
    ensures
        f.with_flag("Saturn"@, v) == (ObjectSelectedFlags { saturn: v, ..f }),
        f.with_flag("Jupiter"@, v) == (ObjectSelectedFlags { jupiter: v, ..f }),
        f.with_flag("Neptune"@, v) == (ObjectSelectedFlags { neptune: v, ..f }),
        f.with_flag("Uranus"@, v) == (ObjectSelectedFlags { uranus: v, ..f }),
        f.with_flag("Mercury"@, v) == (ObjectSelectedFlags { mercury: v, ..f }),
        f.with_flag("Venus"@, v) == (ObjectSelectedFlags { venus: v, ..f }),
        f.with_flag("Mars"@, v) == (ObjectSelectedFlags { mars: v, ..f }),
        f.with_flag("Moon"@, v) == (ObjectSelectedFlags { moon: v, ..f }),
        !spec_all_names().contains(name) ==> f.with_flag(name, v) == f,
{
    lemma_body_name_letters();
    let all = spec_all_names();
    if !all.contains(name) {
        assert(all[0] == "Saturn"@ && all[1] == "Jupiter"@ && all[2] == "Neptune"@ && all[3] == "Uranus"@);
        assert(all[4] == "Mercury"@ && all[5] == "Venus"@ && all[6] == "Mars"@ && all[7] == "Moon"@);
    }
}

} // verus!
