//! The build configuration: the package table and the declared
//! dependencies. Dependencies are kept as a sequence sorted by name
//! with no name repeated, so that every build walks them in the same
//! order and the generated line numbers are reproducible.

use vstd::prelude::*;

use crate::text::{
    lemma_seq_char_le_antisym, lemma_seq_char_le_total, lemma_seq_char_le_trans, seq_char_le,
    str_le,
};

verus! {

/// One declared dependency: its name, and the remote source it is
/// fetched from when one is given; assembly always reads the local
/// file derived from the name.
pub struct Dependency {
    pub name: String,
    pub url: Option<String>,
}

impl View for Dependency {
    type V = (Seq<char>, Option<Seq<char>>);

    open spec fn view(&self) -> (Seq<char>, Option<Seq<char>>) {
        (
            self.name@,
            match self.url {
                Some(u) => Some(u@),
                None => None,
            },
        )
    }
}

/// The dependencies of a sequence, as their views.
pub open spec fn deps_entries(s: Seq<Dependency>) -> Seq<(Seq<char>, Option<Seq<char>>)> {
    s.map_values(|d: Dependency| d@)
}

/// Name-keyed pairs in ascending name order.
pub open spec fn pairs_sorted<P>(s: Seq<(Seq<char>, P)>) -> bool {
    forall|i: int, j: int|
        0 <= i < j < s.len() ==> seq_char_le((#[trigger] s[i]).0, (#[trigger] s[j]).0)
}

/// Name-keyed pairs with no name repeated.
pub open spec fn pairs_unique<P>(s: Seq<(Seq<char>, P)>) -> bool {
    forall|i: int, j: int| 0 <= i < j < s.len() ==> (#[trigger] s[i]).0 != (#[trigger] s[j]).0
}

/// The package table: everything the assembler is configured by.
pub struct Package {
    pub name: String,
    pub carriage_return: bool,
    pub numbering: usize,
    pub emu_path: String,
    pub version: String,
    pub width: usize,
    pub labels: bool,
}

impl Package {
    /// The configured values the assembler relies on: a positive
    /// numbering step and a positive display width.
    pub open spec fn wf(&self) -> bool {
        self.numbering >= 1 && self.width >= 1
    }
}

impl Default for Package {
    /// The starting package: CRLF line endings, numbering in steps
    /// of ten, an eighty-column display with label support, and the
    /// emulator folder name without the home-directory prefix that a
    /// front end prepends.
    fn default() -> (r: Package)
        ensures
            r.name@ == Seq::<char>::empty(),
            r.carriage_return == true,
            r.numbering == 10usize,
            r.emu_path@ == "fab-agon-emulator"@,
            r.version@ == "0.1.0"@,
            r.width == 80usize,
            r.labels == true,
            r.wf(),
    {
        Package {
            name: String::new(),
            carriage_return: true,
            numbering: 10,
            emu_path: String::from_str("fab-agon-emulator"),
            version: String::from_str("0.1.0"),
            width: 80,
            labels: true,
        }
    }
}

/// The whole configuration of one package.
pub struct Config {
    pub package: Package,
    pub dependencies: Option<Vec<Dependency>>,
}

impl Config {
    /// The dependencies as a sequence of views; a missing table is
    /// an empty one.
    pub open spec fn deps_view(&self) -> Seq<(Seq<char>, Option<Seq<char>>)> {
        match self.dependencies {
            Some(d) => deps_entries(d@),
            None => Seq::empty(),
        }
    }

    /// A well-formed configuration: valid package values, and the
    /// dependencies sorted by name with no name repeated.
    pub open spec fn wf(&self) -> bool {
        self.package.wf() && pairs_sorted(self.deps_view()) && pairs_unique(self.deps_view())
    }
}

impl Default for Config {
    /// The starting configuration: a default package and an empty
    /// dependency table.
    fn default() -> (r: Config)
        ensures
            r.package.name@ == Seq::<char>::empty(),
            r.package.carriage_return == true,
            r.package.numbering == 10usize,
            r.package.emu_path@ == "fab-agon-emulator"@,
            r.package.version@ == "0.1.0"@,
            r.package.width == 80usize,
            r.package.labels == true,
            r.dependencies is Some,
            r.deps_view() == Seq::<(Seq<char>, Option<Seq<char>>)>::empty(),
            r.wf(),
    {
        let r = Config { package: Package::default(), dependencies: Some(Vec::new()) };
        proof {
            assert(r.deps_view() =~= Seq::<(Seq<char>, Option<Seq<char>>)>::empty());
        }
        r
    }
}

/// Inserts `e` into a name-sorted sequence: an entry holding the same
/// name is replaced in place, otherwise `e` enters before the first
/// entry whose name does not precede it.
pub open spec fn insert_entry<P>(s: Seq<(Seq<char>, P)>, e: (Seq<char>, P)) -> Seq<(Seq<char>, P)>
    decreases s.len(),
{
    if s.len() == 0 {
        seq![e]
    } else if s[0].0 == e.0 {
        seq![e] + s.drop_first()
    } else if seq_char_le(e.0, s[0].0) {
        seq![e] + s
    } else {
        seq![s[0]] + insert_entry(s.drop_first(), e)
    }
}

/// Removes the first entry holding `name`, if any.
pub open spec fn remove_entry<P>(s: Seq<(Seq<char>, P)>, name: Seq<char>) -> Seq<(Seq<char>, P)>
    decreases s.len(),
{
    if s.len() == 0 {
        s
    } else if s[0].0 == name {
        s.drop_first()
    } else {
        seq![s[0]] + remove_entry(s.drop_first(), name)
    }
}

/// `insert_entry` in closed form, at the scan position `p`: every
/// entry before `p` keeps its place; an equal name at `p` is
/// replaced, anything else has `e` inserted at `p`.
proof fn lemma_insert_entry_split<P>(s: Seq<(Seq<char>, P)>, e: (Seq<char>, P), p: int)
    requires
        0 <= p <= s.len(),
        forall|k: int|
            0 <= k < p ==> (#[trigger] s[k]).0 != e.0 && !seq_char_le(e.0, s[k].0),
        p < s.len() ==> (s[p].0 == e.0 || seq_char_le(e.0, s[p].0)),
    ensures
        p < s.len() && s[p].0 == e.0 ==> insert_entry(s, e) == s.update(p, e),
        p == s.len() || s[p].0 != e.0 ==> insert_entry(s, e) == s.take(p) + seq![e] + s.skip(p),
    decreases p,
{
    if p == 0 {
        if s.len() == 0 {
            assert(insert_entry(s, e) =~= s.take(0) + seq![e] + s.skip(0));
        } else if s[0].0 == e.0 {
            assert(seq![e] + s.drop_first() =~= s.update(0, e));
        } else {
            assert(seq![e] + s =~= s.take(0) + seq![e] + s.skip(0));
        }
    } else {
        assert(s[0].0 != e.0 && !seq_char_le(e.0, s[0].0));
        let rest = s.drop_first();
        assert(forall|k: int|
            0 <= k < p - 1 ==> (#[trigger] rest[k]).0 != e.0 && !seq_char_le(e.0, rest[k].0));
        lemma_insert_entry_split(rest, e, p - 1);
        if p < s.len() && s[p].0 == e.0 {
            assert(rest[p - 1].0 == e.0);
            assert(seq![s[0]] + rest.update(p - 1, e) =~= s.update(p, e));
        } else {
            assert(seq![s[0]] + (rest.take(p - 1) + seq![e] + rest.skip(p - 1)) =~= s.take(p)
                + seq![e] + s.skip(p));
        }
    }
}

/// `remove_entry` in closed form: with no earlier entry holding
/// `name`, the entry at the scan position `q` leaves and everything
/// else keeps its place; with no entry at all the sequence stands.
proof fn lemma_remove_entry_split<P>(s: Seq<(Seq<char>, P)>, name: Seq<char>, q: int)
    requires
        0 <= q <= s.len(),
        forall|k: int| 0 <= k < q ==> (#[trigger] s[k]).0 != name,
        q < s.len() ==> s[q].0 == name,
    ensures
        q < s.len() ==> remove_entry(s, name) == s.take(q) + s.skip(q + 1),
        q == s.len() ==> remove_entry(s, name) == s,
    decreases q,
{
    if q == 0 {
        if s.len() > 0 {
            assert(s.drop_first() =~= s.take(0) + s.skip(1));
        }
    } else {
        assert(s[0].0 != name);
        let rest = s.drop_first();
        assert(forall|k: int| 0 <= k < q - 1 ==> (#[trigger] rest[k]).0 != name);
        lemma_remove_entry_split(rest, name, q - 1);
        if q < s.len() {
            assert(rest[q - 1].0 == name);
            assert(seq![s[0]] + (rest.take(q - 1) + rest.skip(q)) =~= s.take(q) + s.skip(q + 1));
        } else {
            assert(seq![s[0]] + rest =~= s);
        }
    }
}

/// Copies one dependency.
fn clone_dep(d: &Dependency) -> (r: Dependency)
    ensures
        r@ == d@,
{
    let url = match &d.url {
        Some(u) => Some(u.clone()),
        None => None,
    };
    Dependency { name: d.name.clone(), url }
}

/// Appends one dependency, extending the sequence of entry views by
/// its view.
fn push_dep(out: &mut Vec<Dependency>, d: Dependency)
    ensures
        deps_entries(final(out)@) == deps_entries(old(out)@).push(d@),
{
    let ghost dv = d@;
    out.push(d);
    proof {
        assert forall|j: int| 0 <= j < out@.len() implies #[trigger] deps_entries(out@)[j]
            == deps_entries(old(out)@).push(dv)[j] by {
            assert(deps_entries(out@)[j] == out@[j]@);
            if j < out@.len() - 1 {
                assert(deps_entries(old(out)@)[j] == old(out)@[j]@);
            }
        }
        assert(deps_entries(out@) =~= deps_entries(old(out)@).push(dv));
    }
}

/// The index where `name` belongs in the name-sorted entries: the
/// first position whose entry's name is `name` or follows it.
fn find_insert_pos(deps: &Vec<Dependency>, name: &String) -> (p: usize)
    ensures
        p <= deps@.len(),
        forall|k: int|
            0 <= k < p ==> (#[trigger] deps_entries(deps@)[k]).0 != name@ && !seq_char_le(
                name@,
                deps_entries(deps@)[k].0,
            ),
        p < deps@.len() ==> (deps_entries(deps@)[p as int].0 == name@ || seq_char_le(
            name@,
            deps_entries(deps@)[p as int].0,
        )),
{
    let ghost sv = deps_entries(deps@);
    let mut p: usize = 0;
    while p < deps.len()
        invariant
            p <= deps@.len(),
            sv == deps_entries(deps@),
            sv.len() == deps@.len(),
            forall|k: int|
                0 <= k < p ==> (#[trigger] sv[k]).0 != name@ && !seq_char_le(name@, sv[k].0),
        decreases deps@.len() - p,
    {
        proof {
            assert(sv[p as int] == deps@[p as int]@);
        }
        if deps[p].name == *name {
            return p;
        }
        if str_le(name.as_str(), deps[p].name.as_str()) {
            return p;
        }
        p = p + 1;
    }
    p
}

/// Inserts a dependency into the name-sorted list: an entry of the
/// same name is replaced, any other name keeps its place, and the
/// order and uniqueness of names are preserved.
pub fn insert_dep(deps: &Vec<Dependency>, dep: Dependency) -> (r: Vec<Dependency>)
    ensures
        deps_entries(r@) == insert_entry(deps_entries(deps@), dep@),
        pairs_sorted(deps_entries(deps@)) && pairs_unique(deps_entries(deps@)) ==> pairs_sorted(
            deps_entries(r@),
        ) && pairs_unique(deps_entries(r@)),
{
    let ghost sv = deps_entries(deps@);
    let ghost e = dep@;
    let p = find_insert_pos(deps, &dep.name);
    let n = deps.len();
    let mut out: Vec<Dependency> = Vec::new();
    proof {
        assert(deps_entries(out@) =~= sv.subrange(0, 0));
    }
    let mut i: usize = 0;
    while i < p
        invariant
            i <= p,
            p <= n,
            n == deps@.len(),
            sv == deps_entries(deps@),
            sv.len() == n,
            deps_entries(out@) == sv.subrange(0, i as int),
        decreases p - i,
    {
        let d = clone_dep(&deps[i]);
        proof {
            assert(d@ == sv[i as int]);
        }
        push_dep(&mut out, d);
        i = i + 1;
        proof {
            assert(sv.subrange(0, i - 1).push(sv[i - 1]) =~= sv.subrange(0, i as int));
        }
    }
    let replace = p < n && deps[p].name == dep.name;
    proof {
        assert(p < n ==> sv[p as int] == deps@[p as int]@);
        lemma_insert_entry_split(sv, e, p as int);
    }
    push_dep(&mut out, dep);
    if replace {
        let ghost target = sv.update(p as int, e);
        proof {
            assert(insert_entry(sv, e) == target);
            assert(deps_entries(out@) =~= target.subrange(0, p as int + 1));
        }
        let mut i: usize = p + 1;
        while i < n
            invariant
                p < i <= n,
                n == deps@.len(),
                sv == deps_entries(deps@),
                sv.len() == n,
                target == sv.update(p as int, e),
                deps_entries(out@) == target.subrange(0, i as int),
            decreases n - i,
        {
            let d = clone_dep(&deps[i]);
            proof {
                assert(d@ == sv[i as int]);
                assert(target[i as int] == sv[i as int]);
            }
            push_dep(&mut out, d);
            i = i + 1;
            proof {
                assert(target.subrange(0, i - 1).push(target[i - 1]) =~= target.subrange(
                    0,
                    i as int,
                ));
            }
        }
        proof {
            assert(deps_entries(out@) =~= target);
            if pairs_sorted(sv) && pairs_unique(sv) {
                lemma_insert_replace_keeps_order(sv, e, p as int);
            }
        }
    } else {
        let ghost target = sv.take(p as int) + seq![e] + sv.skip(p as int);
        proof {
            assert(insert_entry(sv, e) == target);
            assert(deps_entries(out@) =~= target.subrange(0, p as int + 1));
        }
        let mut i: usize = p;
        while i < n
            invariant
                p <= i <= n,
                n == deps@.len(),
                sv == deps_entries(deps@),
                sv.len() == n,
                target == sv.take(p as int) + seq![e] + sv.skip(p as int),
                target.len() == n + 1,
                deps_entries(out@) == target.subrange(0, i as int + 1),
            decreases n - i,
        {
            let d = clone_dep(&deps[i]);
            proof {
                assert(d@ == sv[i as int]);
                assert(target[i as int + 1] == sv[i as int]);
            }
            push_dep(&mut out, d);
            i = i + 1;
            proof {
                assert(target.subrange(0, i as int).push(target[i as int]) =~= target.subrange(
                    0,
                    i as int + 1,
                ));
            }
        }
        proof {
            assert(deps_entries(out@) =~= target);
            if pairs_sorted(sv) && pairs_unique(sv) {
                lemma_insert_fresh_keeps_order(sv, e, p as int);
            }
        }
    }
    out
}

/// Replacing an entry by one of the same name preserves the order
/// and uniqueness of names.
proof fn lemma_insert_replace_keeps_order<P>(s: Seq<(Seq<char>, P)>, e: (Seq<char>, P), p: int)
    requires
        0 <= p < s.len(),
        s[p].0 == e.0,
        pairs_sorted(s) && pairs_unique(s),
    ensures
        pairs_sorted(s.update(p, e)),
        pairs_unique(s.update(p, e)),
{
    let t = s.update(p, e);
    assert forall|i: int, j: int| 0 <= i < j < t.len() implies seq_char_le(
        (#[trigger] t[i]).0,
        (#[trigger] t[j]).0,
    ) && t[i].0 != t[j].0 by {
        assert(t[i].0 == s[i].0);
        assert(t[j].0 == s[j].0);
    }
}

/// Inserting a fresh name at its scan position preserves the order
/// and uniqueness of names.
proof fn lemma_insert_fresh_keeps_order<P>(s: Seq<(Seq<char>, P)>, e: (Seq<char>, P), p: int)
    requires
        0 <= p <= s.len(),
        forall|k: int|
            0 <= k < p ==> (#[trigger] s[k]).0 != e.0 && !seq_char_le(e.0, s[k].0),
        p < s.len() ==> (s[p].0 != e.0 && seq_char_le(e.0, s[p].0)),
        pairs_sorted(s) && pairs_unique(s),
    ensures
        pairs_sorted(s.take(p) + seq![e] + s.skip(p)),
        pairs_unique(s.take(p) + seq![e] + s.skip(p)),
{
    let t = s.take(p) + seq![e] + s.skip(p);
    assert forall|i: int, j: int| 0 <= i < j < t.len() implies seq_char_le(
        (#[trigger] t[i]).0,
        (#[trigger] t[j]).0,
    ) && t[i].0 != t[j].0 by {
        if i < p {
            assert(t[i] == s[i]);
        } else if i == p {
            assert(t[i] == e);
        } else {
            assert(t[i] == s[i - 1]);
        }
        if j < p {
            assert(t[j] == s[j]);
        } else if j == p {
            assert(t[j] == e);
        } else {
            assert(t[j] == s[j - 1]);
        }
        if j == p {
            // t[i] is s[i] with i < p: the scan passed it, so its
            // name strictly precedes e's.
            lemma_seq_char_le_total(e.0, s[i].0);
        } else if i == p {
            // t[j] is s[j-1] with j - 1 >= p: e precedes s[p], which
            // precedes s[j-1].
            if j - 1 > p {
                lemma_seq_char_le_trans(e.0, s[p].0, s[j - 1].0);
                if e.0 == s[j - 1].0 {
                    lemma_seq_char_le_antisym(s[p].0, s[j - 1].0);
                }
            }
        }
    }
}

/// The index of the first entry holding `name`, or the length when
/// none does.
fn find_name(deps: &Vec<Dependency>, name: &String) -> (q: usize)
    ensures
        q <= deps@.len(),
        forall|k: int| 0 <= k < q ==> (#[trigger] deps_entries(deps@)[k]).0 != name@,
        q < deps@.len() ==> deps_entries(deps@)[q as int].0 == name@,
{
    let ghost sv = deps_entries(deps@);
    let mut q: usize = 0;
    while q < deps.len()
        invariant
            q <= deps@.len(),
            sv == deps_entries(deps@),
            sv.len() == deps@.len(),
            forall|k: int| 0 <= k < q ==> (#[trigger] sv[k]).0 != name@,
        decreases deps@.len() - q,
    {
        proof {
            assert(sv[q as int] == deps@[q as int]@);
        }
        if deps[q].name == *name {
            return q;
        }
        q = q + 1;
    }
    q
}

/// Removing an entry preserves the order and uniqueness of names.
proof fn lemma_remove_keeps_order<P>(s: Seq<(Seq<char>, P)>, q: int)
    requires
        0 <= q < s.len(),
        pairs_sorted(s) && pairs_unique(s),
    ensures
        pairs_sorted(s.take(q) + s.skip(q + 1)),
        pairs_unique(s.take(q) + s.skip(q + 1)),
{
    let t = s.take(q) + s.skip(q + 1);
    assert forall|i: int, j: int| 0 <= i < j < t.len() implies seq_char_le(
        (#[trigger] t[i]).0,
        (#[trigger] t[j]).0,
    ) && t[i].0 != t[j].0 by {
        if i < q {
            assert(t[i] == s[i]);
        } else {
            assert(t[i] == s[i + 1]);
        }
        if j < q {
            assert(t[j] == s[j]);
        } else {
            assert(t[j] == s[j + 1]);
        }
    }
}

/// Removes the dependency holding `name`, if one is declared; any
/// other name keeps its place, and the order and uniqueness of names
/// are preserved.
pub fn remove_dep(deps: &Vec<Dependency>, name: &String) -> (r: Vec<Dependency>)
    ensures
        deps_entries(r@) == remove_entry(deps_entries(deps@), name@),
        pairs_sorted(deps_entries(deps@)) && pairs_unique(deps_entries(deps@)) ==> pairs_sorted(
            deps_entries(r@),
        ) && pairs_unique(deps_entries(r@)),
{
    let ghost sv = deps_entries(deps@);
    let q = find_name(deps, name);
    let n = deps.len();
    proof {
        lemma_remove_entry_split(sv, name@, q as int);
    }
    let mut out: Vec<Dependency> = Vec::new();
    proof {
        assert(deps_entries(out@) =~= sv.subrange(0, 0));
    }
    let mut i: usize = 0;
    while i < q
        invariant
            i <= q,
            q <= n,
            n == deps@.len(),
            sv == deps_entries(deps@),
            sv.len() == n,
            deps_entries(out@) == sv.subrange(0, i as int),
        decreases q - i,
    {
        let d = clone_dep(&deps[i]);
        proof {
            assert(d@ == sv[i as int]);
        }
        push_dep(&mut out, d);
        i = i + 1;
        proof {
            assert(sv.subrange(0, i - 1).push(sv[i - 1]) =~= sv.subrange(0, i as int));
        }
    }
    if q == n {
        proof {
            assert(deps_entries(out@) =~= sv);
        }
        return out;
    }
    let ghost target = sv.take(q as int) + sv.skip(q as int + 1);
    proof {
        assert(deps_entries(out@) =~= target.subrange(0, q as int));
    }
    let mut i: usize = q + 1;
    while i < n
        invariant
            q < i <= n,
            n == deps@.len(),
            sv == deps_entries(deps@),
            sv.len() == n,
            target == sv.take(q as int) + sv.skip(q as int + 1),
            target.len() == n - 1,
            deps_entries(out@) == target.subrange(0, i as int - 1),
        decreases n - i,
    {
        let d = clone_dep(&deps[i]);
        proof {
            assert(d@ == sv[i as int]);
            assert(target[i - 1] == sv[i as int]);
        }
        push_dep(&mut out, d);
        i = i + 1;
        proof {
            assert(target.subrange(0, i - 2).push(target[i - 2]) =~= target.subrange(0, i - 1));
        }
    }
    proof {
        assert(deps_entries(out@) =~= target);
        if pairs_sorted(sv) && pairs_unique(sv) {
            lemma_remove_keeps_order(sv, q as int);
        }
    }
    out
}

/// `insert_entry` folded over a whole sequence, in order; a name
/// declared twice keeps only its last entry.
pub open spec fn insert_all<P>(s: Seq<(Seq<char>, P)>) -> Seq<(Seq<char>, P)>
    decreases s.len(),
{
    if s.len() == 0 {
        Seq::empty()
    } else {
        insert_entry(insert_all(s.drop_last()), s.last())
    }
}

/// Sorts the dependencies by name, dropping all but the last entry
/// of any repeated name.
pub fn sort_dependencies(deps: &Vec<Dependency>) -> (r: Vec<Dependency>)
    ensures
        deps_entries(r@) == insert_all(deps_entries(deps@)),
        pairs_sorted(deps_entries(r@)),
        pairs_unique(deps_entries(r@)),
{
    let ghost sv = deps_entries(deps@);
    let mut out: Vec<Dependency> = Vec::new();
    proof {
        assert(sv.subrange(0, 0) =~= Seq::<(Seq<char>, Option<Seq<char>>)>::empty());
        assert(deps_entries(out@) =~= insert_all(sv.subrange(0, 0)));
    }
    let mut i: usize = 0;
    while i < deps.len()
        invariant
            i <= deps@.len(),
            sv == deps_entries(deps@),
            sv.len() == deps@.len(),
            deps_entries(out@) == insert_all(sv.subrange(0, i as int)),
            pairs_sorted(deps_entries(out@)),
            pairs_unique(deps_entries(out@)),
        decreases deps@.len() - i,
    {
        let d = clone_dep(&deps[i]);
        proof {
            assert(d@ == sv[i as int]);
        }
        out = insert_dep(&out, d);
        i = i + 1;
        proof {
            let pre = sv.subrange(0, i - 1);
            let cur = sv.subrange(0, i as int);
            assert(cur.drop_last() =~= pre);
            assert(cur.last() == sv[i - 1]);
            assert(insert_all(cur) == insert_entry(insert_all(pre), sv[i - 1]));
        }
    }
    proof {
        assert(sv.subrange(0, sv.len() as int) =~= sv);
    }
    out
}

/// Two name-sorted, uniquely named sequences holding the same entries
/// are the same sequence: a build's dependency order is a function of
/// the declared set alone.
pub proof fn lemma_sorted_unique_pairs<P>(a: Seq<(Seq<char>, P)>, b: Seq<(Seq<char>, P)>)
    requires
        a.to_multiset() == b.to_multiset(),
        pairs_sorted(a),
        pairs_unique(a),
        pairs_sorted(b),
        pairs_unique(b),
    ensures
        a == b,
    decreases a.len(),
{
    broadcast use vstd::seq_lib::group_to_multiset_ensures;

    if a.len() == 0 {
        assert(b.to_multiset().len() == 0);
        assert(a =~= b);
    } else {
        assert(a.contains(a[0]));
        assert(b.to_multiset().count(a[0]) > 0);
        assert(b.contains(a[0]));
        let j = choose|j: int| 0 <= j < b.len() && b[j] == a[0];
        assert(b.contains(b[0]));
        assert(a.to_multiset().count(b[0]) > 0);
        assert(a.contains(b[0]));
        let k = choose|k: int| 0 <= k < a.len() && a[k] == b[0];
        if j > 0 {
            assert(seq_char_le(b[0].0, b[j].0));
        }
        if k > 0 {
            assert(seq_char_le(a[0].0, a[k].0));
        }
        lemma_seq_char_le_total(a[0].0, b[0].0);
        if j > 0 && k > 0 {
            lemma_seq_char_le_antisym(a[0].0, b[0].0);
            assert(b[j].0 == b[0].0);
            assert(false);
        }
        assert(a[0] == b[0]);
        let ra = a.remove(0);
        let rb = b.remove(0);
        assert(ra.to_multiset() =~= a.to_multiset().remove(a[0]));
        assert(rb.to_multiset() =~= b.to_multiset().remove(b[0]));
        assert(ra =~= a.drop_first());
        assert(rb =~= b.drop_first());
        assert forall|i: int, j2: int|
            0 <= i < j2 < ra.len() implies seq_char_le((#[trigger] ra[i]).0, (#[trigger] ra[j2]).0)
            && ra[i].0 != ra[j2].0 by {
            assert(ra[i] == a[i + 1]);
            assert(ra[j2] == a[j2 + 1]);
        }
        assert forall|i: int, j2: int|
            0 <= i < j2 < rb.len() implies seq_char_le((#[trigger] rb[i]).0, (#[trigger] rb[j2]).0)
            && rb[i].0 != rb[j2].0 by {
            assert(rb[i] == b[i + 1]);
            assert(rb[j2] == b[j2 + 1]);
        }
        lemma_sorted_unique_pairs(ra, rb);
        assert(a =~= b) by {
            assert(forall|i: int| 1 <= i < a.len() ==> a[i] == ra[i - 1] && b[i] == rb[i - 1]);
        }
    }
}

} // verus!
