//! Classification of source lines. A line is a label declaration when
//! it begins, case-insensitively, with the keyword `LABEL` and one
//! separating space; it is a banner separator when it begins,
//! case-insensitively, with `REM` and its raw text ends in `=`. The
//! case folding is ASCII-only.

use vstd::prelude::*;

use crate::text::{to_chars, upper_char, upper_char_exec, upper_seq};

verus! {

/// The label-declaration prefix: the keyword and its separating space.
pub open spec fn label_keyword() -> Seq<char> {
    seq!['L', 'A', 'B', 'E', 'L', ' ']
}

/// The comment keyword that banner separators start with.
pub open spec fn rem_keyword() -> Seq<char> {
    seq!['R', 'E', 'M']
}

/// The jump prefix rewritten during label substitution.
pub open spec fn goto_keyword() -> Seq<char> {
    seq!['G', 'O', 'T', 'O', ' ']
}

/// The subroutine-jump prefix rewritten during label substitution.
pub open spec fn gosub_keyword() -> Seq<char> {
    seq!['G', 'O', 'S', 'U', 'B', ' ']
}

/// Whether `s` begins with `pat` up to ASCII case folding.
pub open spec fn has_ci_prefix(s: Seq<char>, pat: Seq<char>) -> bool {
    s.len() >= pat.len() && upper_seq(s.take(pat.len() as int)) == pat
}

/// A label declaration: `LABEL<space><name>`, case-insensitively.
pub open spec fn is_label_decl(s: Seq<char>) -> bool {
    has_ci_prefix(s, label_keyword())
}

/// The declared name: everything after the keyword and its space,
/// taken verbatim.
pub open spec fn label_name(s: Seq<char>) -> Seq<char> {
    s.skip(label_keyword().len() as int)
}

/// A banner separator: a comment whose raw text ends in `=`.
pub open spec fn is_banner_sep(s: Seq<char>) -> bool {
    has_ci_prefix(s, rem_keyword()) && s.len() >= 1 && s.last() == '='
}

/// Tests `has_ci_prefix` on character vectors; `pat` is expected in
/// its stated (upper-case) form.
pub fn has_ci_prefix_exec(s: &Vec<char>, pat: &Vec<char>) -> (r: bool)
    ensures
        r == has_ci_prefix(s@, pat@),
{
    let n = s.len();
    let plen = pat.len();
    if n < plen {
        return false;
    }
    let mut j: usize = 0;
    while j < plen
        invariant
            n == s@.len(),
            plen == pat@.len(),
            plen <= n,
            j <= plen,
            forall|k: int| 0 <= k < j ==> upper_char(s@[k]) == pat@[k],
        decreases plen - j,
    {
        if upper_char_exec(s[j]) != pat[j] {
            proof {
                assert(upper_seq(s@.take(plen as int))[j as int] == upper_char(s@[j as int]));
            }
            return false;
        }
        j = j + 1;
    }
    proof {
        assert(upper_seq(s@.take(plen as int)) =~= pat@);
    }
    true
}

/// The label-declaration prefix as a character vector.
pub fn label_pattern() -> (r: Vec<char>)
    ensures
        r@ == label_keyword(),
{
    let v = to_chars("LABEL ");
    proof {
        reveal_strlit("LABEL ");
        assert(v@ =~= label_keyword());
    }
    v
}

/// Recognizes a label declaration.
pub fn is_label_decl_exec(s: &Vec<char>) -> (r: bool)
    ensures
        r == is_label_decl(s@),
{
    let pat = label_pattern();
    has_ci_prefix_exec(s, &pat)
}

/// Recognizes a banner separator.
pub fn is_banner_sep_exec(s: &Vec<char>) -> (r: bool)
    ensures
        r == is_banner_sep(s@),
{
    let pat = to_chars("REM");
    proof {
        reveal_strlit("REM");
        assert(pat@ =~= rem_keyword());
    }
    if !has_ci_prefix_exec(s, &pat) {
        return false;
    }
    if s.len() == 0 {
        return false;
    }
    let c = s[s.len() - 1];
    proof {
        assert(s@.last() == s@[s@.len() - 1]);
    }
    c == '='
}

} // verus!
