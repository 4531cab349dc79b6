//! The laws the assembler obeys, stated over the specification
//! functions that the executable functions' contracts are written
//! in: every line of the assembled document is kept and numbered, the
//! numbers climb by exactly the step, the numeric column fits every
//! number, the output is a function of the inputs alone, a label
//! reference resolves to the declaration's following line, and the
//! dependency order — and with it the whole output — is determined
//! by the dependency set.

use vstd::prelude::*;

use crate::assemble::assembled;
use crate::commands::terminator;
use crate::config::{lemma_sorted_unique_pairs, pairs_sorted, pairs_unique};
use crate::format::{
    apply_entry, apply_table, banner_keep, doc_padding, format_output, numbered_output,
    render_line, truncate_to,
};
use crate::labels::{label_table, label_table_prefix, upsert};
use crate::lines::{
    gosub_keyword, goto_keyword, is_banner_sep, is_label_decl, label_keyword, label_name,
};
use crate::text::{
    dec_digits, lemma_dec_digits_are_digits, lemma_dec_digits_len_monotone,
    lemma_replace_all_absent, occurs, replace_all, upper_char, upper_seq,
};
use crate::writer::joined_output;
use vstd::arithmetic::mul::{lemma_mul_inequality, lemma_mul_strict_inequality};

verus! {

/// Every line of the assembled document is emitted: the output has
/// exactly one numbered line per input line, none dropped and none
/// duplicated.
pub proof fn lemma_output_counts_lines(doc: Seq<Seq<char>>, step: int, width: int, labels_on: bool)
    ensures
        numbered_output(doc, step, width, labels_on).len() == doc.len(),
        format_output(doc, step, width, labels_on).len() == doc.len(),
{
}

/// With a positive step the emitted numbers are `step`, `2 * step`,
/// `3 * step`, ... in order: the number of line `i` is `(i + 1) *
/// step`, and the numbers strictly increase.
pub proof fn lemma_numbers_strictly_increase(
    doc: Seq<Seq<char>>,
    step: int,
    width: int,
    labels_on: bool,
)
    requires
        step >= 1,
    ensures
        forall|i: int|
            0 <= i < doc.len() ==> (#[trigger] numbered_output(doc, step, width, labels_on)[i]).0
                == (i + 1) * step,
        forall|i: int, j: int|
            0 <= i < j < doc.len() ==> (#[trigger] numbered_output(doc, step, width, labels_on)[i]).0
                < (#[trigger] numbered_output(doc, step, width, labels_on)[j]).0,
{
    assert forall|i: int, j: int| 0 <= i < j < doc.len() implies (#[trigger] numbered_output(
        doc,
        step,
        width,
        labels_on,
    )[i]).0 < (#[trigger] numbered_output(doc, step, width, labels_on)[j]).0 by {
        lemma_mul_strict_inequality(i + 1, j + 1, step);
    }
}

/// The numeric column is exactly as wide as the decimal notation of
/// `lineCount * step`, and no emitted number needs more columns.
pub proof fn lemma_padding_fits(doc: Seq<Seq<char>>, step: int, width: int, labels_on: bool)
    requires
        step >= 1,
    ensures
        doc_padding(doc.len() as int, step) == dec_digits(doc.len() * step).len(),
        forall|i: int|
            0 <= i < doc.len() ==> dec_digits(
                (#[trigger] numbered_output(doc, step, width, labels_on)[i]).0,
            ).len() <= doc_padding(doc.len() as int, step),
{
    assert forall|i: int| 0 <= i < doc.len() implies dec_digits(
        (#[trigger] numbered_output(doc, step, width, labels_on)[i]).0,
    ).len() <= doc_padding(doc.len() as int, step) by {
        lemma_mul_inequality(i + 1, doc.len() as int, step);
        lemma_mul_inequality(0, i + 1, step);
        lemma_dec_digits_len_monotone((i + 1) * step, doc.len() * step);
    }
}

/// A banner separator is truncated so that the whole rendered line —
/// number column, separating space, and text — never exceeds the
/// display width, whenever the width leaves room for the column at
/// all.
pub proof fn lemma_banner_never_wraps(
    doc: Seq<Seq<char>>,
    step: int,
    width: int,
    labels_on: bool,
    i: int,
)
    requires
        step >= 1,
        0 <= i < doc.len(),
        !is_label_decl(doc[i]),
        is_banner_sep(doc[i]),
        width >= doc_padding(doc.len() as int, step) + 3,
    ensures
        format_output(doc, step, width, labels_on)[i].len() + 2 <= width,
{
    let padding = doc_padding(doc.len() as int, step);
    let no = numbered_output(doc, step, width, labels_on);
    let text = truncate_to(doc[i], banner_keep(width, padding));
    assert(no[i].1 == text);
    assert(text.len() <= width - (padding + 3));
    lemma_padding_fits(doc, step, width, labels_on);
    let digits = dec_digits(no[i].0);
    assert(digits.len() <= padding);
    assert(format_output(doc, step, width, labels_on)[i] == render_line(no[i].0, padding, no[i].1));
    assert(render_line(no[i].0, padding, text).len() == (padding - digits.len()) + digits.len() + 1
        + text.len());
}

/// Assembling and formatting the same project twice — the same main
/// lines, the same dependencies in the same order, the same
/// configuration — yields the same output, down to the exact
/// character stream written to the file: the build is a function of
/// its inputs alone.
pub proof fn lemma_build_reproducible(
    main1: Seq<Seq<char>>,
    deps1: Seq<(Seq<char>, Seq<Seq<char>>)>,
    main2: Seq<Seq<char>>,
    deps2: Seq<(Seq<char>, Seq<Seq<char>>)>,
    step: int,
    width: int,
    labels_on: bool,
    carriage_return: bool,
)
    requires
        main1 == main2,
        deps1 == deps2,
    ensures
        format_output(assembled(main1, deps1), step, width, labels_on) == format_output(
            assembled(main2, deps2),
            step,
            width,
            labels_on,
        ),
        joined_output(
            format_output(assembled(main1, deps1), step, width, labels_on),
            terminator(carriage_return),
        ) == joined_output(
            format_output(assembled(main2, deps2), step, width, labels_on),
            terminator(carriage_return),
        ),
{
}

/// Two builds whose dependencies are sorted by name and unique, and
/// that hold the same dependencies, assemble the same document — the
/// order the dependencies were declared in cannot show through.
pub proof fn lemma_dependency_order_deterministic(
    main: Seq<Seq<char>>,
    deps1: Seq<(Seq<char>, Seq<Seq<char>>)>,
    deps2: Seq<(Seq<char>, Seq<Seq<char>>)>,
)
    requires
        deps1.to_multiset() == deps2.to_multiset(),
        pairs_sorted(deps1),
        pairs_unique(deps1),
        pairs_sorted(deps2),
        pairs_unique(deps2),
    ensures
        deps1 == deps2,
        assembled(main, deps1) == assembled(main, deps2),
{
    lemma_sorted_unique_pairs(deps1, deps2);
}

/// In a document whose only label declaration stands at position `i`,
/// the label table holds exactly that declaration, resolved to
/// `(i + 2) * step`.
proof fn lemma_single_label_table(doc: Seq<Seq<char>>, i: int, n: int, step: int)
    requires
        0 <= i < doc.len(),
        is_label_decl(doc[i]),
        forall|k: int| 0 <= k < doc.len() && k != i ==> !is_label_decl(#[trigger] doc[k]),
        0 <= n <= doc.len(),
    ensures
        n <= i ==> label_table_prefix(doc, n, step) == Seq::<(Seq<char>, int)>::empty(),
        n > i ==> label_table_prefix(doc, n, step) == seq![(label_name(doc[i]), (i + 2) * step)],
    decreases n,
{
    if n > 0 {
        lemma_single_label_table(doc, i, n - 1, step);
        if n - 1 == i {
            assert(upsert(Seq::<(Seq<char>, int)>::empty(), label_name(doc[i]), (n + 1) * step)
                =~= seq![(label_name(doc[i]), (i + 2) * step)]);
        }
    }
}

/// The label round trip: when the one label declaration of the
/// document, `LABEL <l>` at position `i`, is followed by the line
/// `GOTO <l>`, the output rewrites that line to `GOTO <t>` where `t`
/// is the decimal notation of `(i + 2) * step` — the number carried
/// by the line after the declaration.
pub proof fn lemma_label_round_trip(
    doc: Seq<Seq<char>>,
    l: Seq<char>,
    i: int,
    step: int,
    width: int,
)
    requires
        step >= 1,
        0 <= i,
        i + 1 < doc.len(),
        is_label_decl(doc[i]),
        label_name(doc[i]) == l,
        forall|k: int| 0 <= k < doc.len() && k != i ==> !is_label_decl(#[trigger] doc[k]),
        doc[i + 1] == goto_keyword() + l,
    ensures
        numbered_output(doc, step, width, true)[i + 1].0 == (i + 2) * step,
        numbered_output(doc, step, width, true)[i + 1].1 == goto_keyword() + dec_digits(
            (i + 2) * step,
        ),
{
    let t = (i + 2) * step;
    let line = doc[i + 1];
    let table = label_table(doc, step);
    lemma_single_label_table(doc, i, doc.len() as int, step);
    assert(table == seq![(l, t)]);
    // The reference line is neither a label declaration nor a banner
    // separator: its first character is 'G'.
    assert(line[0] == 'G');
    assert(!is_label_decl(line)) by {
        if is_label_decl(line) {
            assert(upper_seq(line.take(label_keyword().len() as int))[0] == upper_char('G'));
            assert(upper_char('G') == 'G');
            assert(label_keyword()[0] == 'L');
        }
    }
    assert(!is_banner_sep(line)) by {
        if is_banner_sep(line) {
            assert(upper_seq(line.take(3))[0] == upper_char('G'));
            assert(upper_char('G') == 'G');
        }
    }
    // The whole line is exactly the GOTO pattern, so the first
    // replacement yields the rewritten jump ...
    let pat1 = goto_keyword() + l;
    let rep1 = goto_keyword() + dec_digits(t);
    assert(replace_all(line, pat1, rep1) == rep1) by {
        assert(line.take(pat1.len() as int) =~= pat1);
        assert(line.skip(pat1.len() as int) =~= Seq::<char>::empty());
        assert(replace_all(Seq::<char>::empty(), pat1, rep1) == Seq::<char>::empty());
        assert(rep1 + Seq::<char>::empty() =~= rep1);
    }
    // ... and the GOSUB pattern does not occur in it: its third
    // character would have to be 'S', but the rewritten jump holds
    // only 'G', 'O', 'T', a space, and digits.
    let pat2 = gosub_keyword() + l;
    assert(!occurs(rep1, pat2)) by {
        if occurs(rep1, pat2) {
            let p = choose|p: int|
                0 <= p && p + pat2.len() <= rep1.len() && #[trigger] rep1.subrange(
                    p,
                    p + pat2.len() as int,
                ) == pat2;
            assert(rep1.subrange(p, p + pat2.len() as int)[2] == rep1[p + 2]);
            assert(rep1[p + 2] == pat2[2]);
            assert(pat2[2] == 'S');
            lemma_dec_digits_are_digits(t);
            if p + 2 >= goto_keyword().len() {
                assert(rep1[p + 2] == dec_digits(t)[p + 2 - goto_keyword().len()]);
                assert(48 <= rep1[p + 2] as u32 <= 57);
            }
            assert('S' as u32 == 83);
            assert(false);
        }
    }
    lemma_replace_all_absent(rep1, pat2, gosub_keyword() + dec_digits(t));
    assert(apply_entry(line, l, t) == rep1);
    assert(apply_table(line, table) == apply_entry(line, l, t)) by {
        assert(table.drop_first() =~= Seq::<(Seq<char>, int)>::empty());
        assert(apply_table(apply_entry(line, l, t), table.drop_first()) == apply_entry(
            line,
            l,
            t,
        ));
    }
}

} // verus!
