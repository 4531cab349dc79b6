//! The line numberer and formatter. Every line of the assembled
//! document receives the number `(i + 1) * step`, right-justified in
//! a column sized for the largest number of the build; label
//! declarations are rewritten to a no-op placeholder, banner
//! separators are truncated to the display width, and jump targets
//! naming a label are rewritten to the label's resolved line number.

use vstd::prelude::*;

use crate::labels::{label_table, resolve_labels, LabelTable};
use crate::lines::{
    gosub_keyword, goto_keyword, is_banner_sep, is_banner_sep_exec, is_label_decl,
    is_label_decl_exec,
};
use crate::text::{
    dec_digits, dec_digits_exec, from_chars, push_all, replace_all, replace_all_chars, to_chars,
};
use vstd::arithmetic::mul::lemma_mul_inequality;

verus! {

/// The character standing for a BASIC no-op statement; label
/// declarations are rewritten to it so they keep their line number.
pub open spec fn noop_char() -> char {
    ':'
}

/// A no-op line: the placeholder emitted for a label declaration and
/// the guard line around a dependency banner.
pub fn noop_line() -> (r: String)
    ensures
        r@ == seq![noop_char()],
{
    proof {
        reveal_strlit(":");
        assert(":"@ =~= seq![noop_char()]);
    }
    String::from_str(":")
}

/// A final output unit: a line number and the text it carries.
pub struct NumberedLine {
    pub number: usize,
    pub text: String,
}

impl View for NumberedLine {
    type V = (int, Seq<char>);

    open spec fn view(&self) -> (int, Seq<char>) {
        (self.number as int, self.text@)
    }
}

/// The numbered lines of a sequence, as their views.
pub open spec fn numbered_view(s: Seq<NumberedLine>) -> Seq<(int, Seq<char>)> {
    s.map_values(|l: NumberedLine| l@)
}

/// `n` space characters (none for a non-positive count).
pub open spec fn spaces(n: int) -> Seq<char> {
    Seq::new(if n < 0 { 0 } else { n as nat }, |i: int| ' ')
}

/// A rendered output line: the number right-justified in a field of
/// `padding` columns, one space, then the text.
pub open spec fn render_line(number: int, padding: int, text: Seq<char>) -> Seq<char> {
    let digits = dec_digits(number);
    spaces(padding - digits.len() as int) + digits + seq![' '] + text
}

/// The first `n` characters of `s` (all of them when `s` is shorter).
pub open spec fn truncate_to(s: Seq<char>, n: int) -> Seq<char> {
    if s.len() <= n {
        s
    } else {
        s.take(n)
    }
}

/// How many characters of a banner separator are kept: the display
/// width less the number column, its separating space, and two
/// columns of slack, floored at zero so the bound never wraps.
pub open spec fn banner_keep(width: int, padding: int) -> int {
    if width - (padding + 3) >= 0 {
        width - (padding + 3)
    } else {
        0
    }
}

/// The column width of the numbering: the digit count of the largest
/// number the build can emit, `len * step`.
pub open spec fn doc_padding(len: int, step: int) -> int {
    dec_digits(len * step).len() as int
}

/// One label applied to a line: every `GOTO <name>` and every
/// `GOSUB <name>` becomes the same jump to the resolved target.
pub open spec fn apply_entry(line: Seq<char>, name: Seq<char>, target: int) -> Seq<char> {
    let with_goto = replace_all(line, goto_keyword() + name, goto_keyword() + dec_digits(target));
    replace_all(
        with_goto,
        gosub_keyword() + name,
        gosub_keyword() + dec_digits(target),
    )
}

/// The whole label table applied to a line, in table order.
pub open spec fn apply_table(line: Seq<char>, t: Seq<(Seq<char>, int)>) -> Seq<char>
    decreases t.len(),
{
    if t.len() == 0 {
        line
    } else {
        apply_table(apply_entry(line, t[0].0, t[0].1), t.drop_first())
    }
}

/// The text a line contributes to the output: a label declaration
/// becomes the no-op placeholder, a banner separator is truncated,
/// and any other line has its jumps rewritten when label support is
/// enabled.
pub open spec fn line_text(
    line: Seq<char>,
    t: Seq<(Seq<char>, int)>,
    width: int,
    padding: int,
    labels_on: bool,
) -> Seq<char> {
    if is_label_decl(line) {
        seq![noop_char()]
    } else if is_banner_sep(line) {
        truncate_to(line, banner_keep(width, padding))
    } else if labels_on {
        apply_table(line, t)
    } else {
        line
    }
}

/// The numbered output of a document, before rendering: line `i`
/// carries number `(i + 1) * step` and its rewritten text.
pub open spec fn numbered_output(
    doc: Seq<Seq<char>>,
    step: int,
    width: int,
    labels_on: bool,
) -> Seq<(int, Seq<char>)> {
    let padding = doc_padding(doc.len() as int, step);
    let t = label_table(doc, step);
    Seq::new(
        doc.len(),
        |i: int| ((i + 1) * step, line_text(doc[i], t, width, padding, labels_on)),
    )
}

/// The fully rendered output of a document.
pub open spec fn format_output(
    doc: Seq<Seq<char>>,
    step: int,
    width: int,
    labels_on: bool,
) -> Seq<Seq<char>> {
    let padding = doc_padding(doc.len() as int, step);
    numbered_output(doc, step, width, labels_on).map_values(
        |l: (int, Seq<char>)| render_line(l.0, padding, l.1),
    )
}

/// Takes at most the first `n` characters of `v`.
fn take_prefix(v: &Vec<char>, n: usize) -> (r: Vec<char>)
    ensures
        r@ == truncate_to(v@, n as int),
{
    let keep = if v.len() <= n {
        v.len()
    } else {
        n
    };
    let mut out: Vec<char> = Vec::new();
    let mut j: usize = 0;
    while j < keep
        invariant
            keep <= v@.len(),
            j <= keep,
            out@ =~= v@.subrange(0, j as int),
        decreases keep - j,
    {
        out.push(v[j]);
        j = j + 1;
    }
    proof {
        if v@.len() <= n {
            assert(out@ =~= v@);
        } else {
            assert(out@ =~= v@.take(n as int));
        }
    }
    out
}

/// Rewrites every `GOTO` and `GOSUB` naming this label to its target.
fn apply_entry_exec(line: &Vec<char>, name: &String, target: usize) -> (r: Vec<char>)
    ensures
        r@ == apply_entry(line@, name@, target as int),
{
    let digits = dec_digits_exec(target);
    let name_chars = to_chars(name.as_str());
    let goto = to_chars("GOTO ");
    let gosub = to_chars("GOSUB ");
    proof {
        reveal_strlit("GOTO ");
        reveal_strlit("GOSUB ");
        assert(goto@ =~= goto_keyword());
        assert(gosub@ =~= gosub_keyword());
    }
    let mut pat1: Vec<char> = Vec::new();
    push_all(&mut pat1, &goto);
    push_all(&mut pat1, &name_chars);
    let mut rep1: Vec<char> = Vec::new();
    push_all(&mut rep1, &goto);
    push_all(&mut rep1, &digits);
    proof {
        assert(pat1@ =~= goto_keyword() + name@);
        assert(rep1@ =~= goto_keyword() + dec_digits(target as int));
    }
    let with_goto = replace_all_chars(line, &pat1, &rep1);
    let mut pat2: Vec<char> = Vec::new();
    push_all(&mut pat2, &gosub);
    push_all(&mut pat2, &name_chars);
    let mut rep2: Vec<char> = Vec::new();
    push_all(&mut rep2, &gosub);
    push_all(&mut rep2, &digits);
    proof {
        assert(pat2@ =~= gosub_keyword() + name@);
        assert(rep2@ =~= gosub_keyword() + dec_digits(target as int));
    }
    replace_all_chars(&with_goto, &pat2, &rep2)
}

/// Applies the whole table to one line, in table order.
fn apply_table_exec(line: &Vec<char>, t: &LabelTable) -> (r: Vec<char>)
    ensures
        r@ == apply_table(line@, t@),
{
    let mut cur = take_prefix(line, line.len());
    proof {
        assert(t@.skip(0) =~= t@);
    }
    let mut j: usize = 0;
    while j < t.entries.len()
        invariant
            j <= t.entries@.len(),
            apply_table(line@, t@) == apply_table(cur@, t@.skip(j as int)),
        decreases t.entries@.len() - j,
    {
        let e = &t.entries[j];
        proof {
            assert(t@[j as int] == t.entries@[j as int]@);
        }
        cur = apply_entry_exec(&cur, &e.name, e.target);
        j = j + 1;
        proof {
            assert(t@.skip(j - 1)[0] == t@[j - 1]);
            assert(t@.skip(j - 1).drop_first() =~= t@.skip(j as int));
        }
    }
    proof {
        assert(t@.skip(t@.len() as int) =~= Seq::<(Seq<char>, int)>::empty());
    }
    cur
}

impl NumberedLine {
    /// Renders the line: the number right-justified in `padding`
    /// columns, one space, then the text.
    pub fn render(&self, padding: usize) -> (r: String)
        ensures
            r@ == render_line(self.number as int, padding as int, self.text@),
    {
        let digits = dec_digits_exec(self.number);
        let dlen = digits.len();
        let pad = if padding > dlen {
            padding - dlen
        } else {
            0
        };
        let mut out: Vec<char> = Vec::new();
        let mut j: usize = 0;
        while j < pad
            invariant
                j <= pad,
                out@ =~= spaces(j as int),
            decreases pad - j,
        {
            out.push(' ');
            j = j + 1;
            proof {
                assert(out@ =~= spaces(j as int));
            }
        }
        proof {
            assert(out@ =~= spaces(padding as int - dec_digits(self.number as int).len() as int));
        }
        push_all(&mut out, &digits);
        out.push(' ');
        let text_chars = to_chars(self.text.as_str());
        push_all(&mut out, &text_chars);
        proof {
            assert(out@ =~= render_line(self.number as int, padding as int, self.text@));
        }
        from_chars(&out)
    }
}

/// Assigns numbers and rewrites texts, without rendering: line `i`
/// receives number `(i + 1) * step`.
pub fn number_lines(doc: &Vec<String>, step: usize, width: usize, labels_on: bool) -> (r: Vec<
    NumberedLine,
>)
    requires
        step >= 1,
        doc@.len() * step <= usize::MAX,
        labels_on ==> (doc@.len() + 1) * step <= usize::MAX,
    ensures
        numbered_view(r@) == numbered_output(doc.deep_view(), step as int, width as int, labels_on),
{
    let ghost dv = doc.deep_view();
    let n = doc.len();
    let max_num = n * step;
    let digits = dec_digits_exec(max_num);
    let padding = digits.len();
    let table = if labels_on {
        resolve_labels(doc, step)
    } else {
        LabelTable { entries: Vec::new() }
    };
    let ghost no = numbered_output(dv, step as int, width as int, labels_on);
    let mut out: Vec<NumberedLine> = Vec::new();
    let mut i: usize = 0;
    while i < n
        invariant
            i <= n,
            n == doc@.len(),
            dv == doc.deep_view(),
            dv.len() == n,
            step >= 1,
            n * step <= usize::MAX,
            padding == doc_padding(n as int, step as int),
            labels_on ==> table@ == label_table(dv, step as int),
            no == numbered_output(dv, step as int, width as int, labels_on),
            out@.len() == i,
            numbered_view(out@) =~= no.subrange(0, i as int),
        decreases n - i,
    {
        let line = &doc[i];
        let chars = to_chars(line.as_str());
        proof {
            assert(dv[i as int] == doc@[i as int]@);
        }
        let text_chars: Vec<char>;
        if is_label_decl_exec(&chars) {
            let mut v: Vec<char> = Vec::new();
            v.push(':');
            proof {
                assert(v@ =~= seq![noop_char()]);
            }
            text_chars = v;
        } else if is_banner_sep_exec(&chars) {
            let keep = if width >= 3 && width - 3 >= padding {
                width - 3 - padding
            } else {
                0
            };
            proof {
                assert(keep as int == banner_keep(width as int, padding as int));
            }
            text_chars = take_prefix(&chars, keep);
        } else if labels_on {
            text_chars = apply_table_exec(&chars, &table);
        } else {
            text_chars = chars;
        }
        proof {
            assert(text_chars@ == line_text(
                dv[i as int],
                label_table(dv, step as int),
                width as int,
                padding as int,
                labels_on,
            ));
            lemma_mul_inequality(i as int + 1, n as int, step as int);
        }
        let num = (i + 1) * step;
        let text = from_chars(&text_chars);
        out.push(NumberedLine { number: num, text });
        i = i + 1;
        proof {
            assert(numbered_view(out@) =~= no.subrange(0, i as int));
        }
    }
    proof {
        assert(numbered_view(out@) =~= no);
    }
    out
}

/// Numbers, rewrites, and renders the whole assembled document.
pub fn format_doc(doc: &Vec<String>, step: usize, width: usize, labels_on: bool) -> (r: Vec<
    String,
>)
    requires
        step >= 1,
        doc@.len() * step <= usize::MAX,
        labels_on ==> (doc@.len() + 1) * step <= usize::MAX,
    ensures
        r.deep_view() == format_output(doc.deep_view(), step as int, width as int, labels_on),
{
    let ghost dv = doc.deep_view();
    let ghost no = numbered_output(dv, step as int, width as int, labels_on);
    let ghost fo = format_output(dv, step as int, width as int, labels_on);
    let numbered = number_lines(doc, step, width, labels_on);
    let n = doc.len();
    let max_num = n * step;
    let digits = dec_digits_exec(max_num);
    let padding = digits.len();
    let mut out: Vec<String> = Vec::new();
    let mut i: usize = 0;
    while i < numbered.len()
        invariant
            i <= numbered@.len(),
            numbered@.len() == no.len(),
            numbered_view(numbered@) == no,
            padding == doc_padding(dv.len() as int, step as int),
            no == numbered_output(dv, step as int, width as int, labels_on),
            fo == format_output(dv, step as int, width as int, labels_on),
            out@.len() == i,
            out.deep_view() =~= fo.subrange(0, i as int),
        decreases numbered@.len() - i,
    {
        proof {
            assert(numbered@[i as int]@ == no[i as int]);
        }
        let s = numbered[i].render(padding);
        out.push(s);
        i = i + 1;
        proof {
            assert(fo[i - 1] == render_line(no[i - 1].0, padding as int, no[i - 1].1));
            assert(out.deep_view() =~= fo.subrange(0, i as int));
        }
    }
    proof {
        assert(out.deep_view() =~= fo);
    }
    out
}

} // verus!
