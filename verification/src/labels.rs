//! The label table: for every `LABEL <name>` declaration in the
//! assembled document, the output line number that the line following
//! the declaration will receive. Entries keep the position of a
//! name's first declaration, and a repeated declaration overwrites
//! the recorded target, so the last declaration wins; this gives the
//! substitution pass one fixed, reproducible iteration order.

use vstd::prelude::*;

use crate::lines::{is_label_decl, is_label_decl_exec, label_keyword, label_name};
use crate::text::to_chars;
use vstd::arithmetic::mul::{lemma_mul_increases, lemma_mul_inequality, lemma_mul_is_commutative};

verus! {

/// One resolved label: its name and the line number assigned to the
/// line that follows its declaration.
pub struct LabelEntry {
    pub name: String,
    pub target: usize,
}

impl View for LabelEntry {
    type V = (Seq<char>, int);

    open spec fn view(&self) -> (Seq<char>, int) {
        (self.name@, self.target as int)
    }
}

/// The entries of a sequence of labels, as their views.
pub open spec fn entries_view(s: Seq<LabelEntry>) -> Seq<(Seq<char>, int)> {
    s.map_values(|e: LabelEntry| e@)
}

/// The mapping from label names to resolved targets, in first
/// declaration order.
pub struct LabelTable {
    pub entries: Vec<LabelEntry>,
}

impl View for LabelTable {
    type V = Seq<(Seq<char>, int)>;

    open spec fn view(&self) -> Seq<(Seq<char>, int)> {
        entries_view(self.entries@)
    }
}

/// Updates the entry holding `name` in place, or appends a fresh one
/// when no entry holds it.
pub open spec fn upsert(t: Seq<(Seq<char>, int)>, name: Seq<char>, target: int) -> Seq<
    (Seq<char>, int),
>
    decreases t.len(),
{
    if t.len() == 0 {
        seq![(name, target)]
    } else if t[0].0 == name {
        seq![(name, target)] + t.drop_first()
    } else {
        seq![t[0]] + upsert(t.drop_first(), name, target)
    }
}

/// The label table over the first `n` lines of `doc`: a declaration
/// at position `i` resolves to `(i + 2) * step`, the number of the
/// following line under 1-based, `step`-scaled numbering.
pub open spec fn label_table_prefix(doc: Seq<Seq<char>>, n: int, step: int) -> Seq<
    (Seq<char>, int),
>
    decreases n,
{
    if n <= 0 {
        Seq::empty()
    } else {
        let t = label_table_prefix(doc, n - 1, step);
        if is_label_decl(doc[n - 1]) {
            upsert(t, label_name(doc[n - 1]), (n + 1) * step)
        } else {
            t
        }
    }
}

/// The label table of the whole document.
pub open spec fn label_table(doc: Seq<Seq<char>>, step: int) -> Seq<(Seq<char>, int)> {
    label_table_prefix(doc, doc.len() as int, step)
}

/// A resolved target and the position it is computed from both fit
/// the machine word whenever the largest possible target does.
pub proof fn lemma_target_bounds(i: int, len: int, step: int)
    requires
        0 <= i < len,
        1 <= step,
        (len + 1) * step <= usize::MAX,
    ensures
        i + 2 <= usize::MAX,
        (i + 2) * step <= usize::MAX,
{
    lemma_mul_inequality(i + 2, len + 1, step);
    lemma_mul_increases(step, len + 1);
    lemma_mul_is_commutative(step, len + 1);
}

/// When `name` first appears at position `j`, `upsert` rewrites that
/// position.
proof fn lemma_upsert_found(t: Seq<(Seq<char>, int)>, name: Seq<char>, target: int, j: int)
    requires
        0 <= j < t.len(),
        t[j].0 == name,
        forall|k: int| 0 <= k < j ==> (#[trigger] t[k]).0 != name,
    ensures
        upsert(t, name, target) == t.update(j, (name, target)),
    decreases j,
{
    if j == 0 {
        assert(seq![(name, target)] + t.drop_first() =~= t.update(0, (name, target)));
    } else {
        assert(t[0].0 != name);
        let rest = t.drop_first();
        assert(rest[j - 1].0 == name);
        assert(forall|k: int| 0 <= k < j - 1 ==> (#[trigger] rest[k]).0 != name);
        lemma_upsert_found(rest, name, target, j - 1);
        assert(seq![t[0]] + rest.update(j - 1, (name, target)) =~= t.update(j, (name, target)));
    }
}

/// When no entry holds `name`, `upsert` appends.
proof fn lemma_upsert_absent(t: Seq<(Seq<char>, int)>, name: Seq<char>, target: int)
    requires
        forall|k: int| 0 <= k < t.len() ==> (#[trigger] t[k]).0 != name,
    ensures
        upsert(t, name, target) == t.push((name, target)),
    decreases t.len(),
{
    if t.len() == 0 {
        assert(seq![(name, target)] =~= t.push((name, target)));
    } else {
        let rest = t.drop_first();
        assert(forall|k: int| 0 <= k < rest.len() ==> (#[trigger] rest[k]).0 != name);
        lemma_upsert_absent(rest, name, target);
        assert(seq![t[0]] + rest.push((name, target)) =~= t.push((name, target)));
    }
}

/// Inserts or overwrites one label.
fn table_upsert(entries: &mut Vec<LabelEntry>, name: String, target: usize)
    ensures
        entries_view(final(entries)@) == upsert(entries_view(old(entries)@), name@, target as int),
{
    let ghost t0 = entries_view(old(entries)@);
    let ghost nv = name@;
    let mut j: usize = 0;
    while j < entries.len()
        invariant
            j <= entries@.len(),
            entries@ == old(entries)@,
            t0 == entries_view(entries@),
            nv == name@,
            forall|k: int| 0 <= k < j ==> (#[trigger] t0[k]).0 != nv,
        decreases entries@.len() - j,
    {
        proof {
            assert(t0[j as int] == entries@[j as int]@);
        }
        if entries[j].name == name {
            entries.set(j, LabelEntry { name, target });
            proof {
                lemma_upsert_found(t0, t0[j as int].0, target as int, j as int);
                assert(entries_view(entries@) =~= t0.update(
                    j as int,
                    (t0[j as int].0, target as int),
                ));
            }
            return ;
        }
        j = j + 1;
    }
    entries.push(LabelEntry { name, target });
    proof {
        lemma_upsert_absent(t0, nv, target as int);
        assert(entries_view(entries@) =~= t0.push((nv, target as int)));
    }
}

/// Scans the assembled document and resolves every label
/// declaration: a declaration at 0-based position `i` maps its name
/// to `(i + 2) * step`. A repeated name keeps its first position in
/// the table but takes the target of its last declaration.
pub fn resolve_labels(doc: &Vec<String>, step: usize) -> (t: LabelTable)
    requires
        step >= 1,
        (doc@.len() + 1) * step <= usize::MAX,
    ensures
        t@ == label_table(doc.deep_view(), step as int),
{
    let ghost dv = doc.deep_view();
    let mut entries: Vec<LabelEntry> = Vec::new();
    let mut i: usize = 0;
    while i < doc.len()
        invariant
            i <= doc@.len(),
            dv == doc.deep_view(),
            dv.len() == doc@.len(),
            step >= 1,
            (doc@.len() + 1) * step <= usize::MAX,
            entries_view(entries@) == label_table_prefix(dv, i as int, step as int),
        decreases doc@.len() - i,
    {
        let line = &doc[i];
        let chars = to_chars(line.as_str());
        proof {
            assert(dv[i as int] == doc@[i as int]@);
        }
        if is_label_decl_exec(&chars) {
            let len = line.as_str().unicode_len();
            let name_str = line.as_str().substring_char(6, len);
            let name = String::from_str(name_str);
            proof {
                assert(label_keyword().len() == 6);
                assert(name@ =~= label_name(dv[i as int]));
                lemma_target_bounds(i as int, doc@.len() as int, step as int);
            }
            let target = (i + 2) * step;
            table_upsert(&mut entries, name, target);
        }
        i = i + 1;
    }
    LabelTable { entries }
}

} // verus!
