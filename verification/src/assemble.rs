//! The document assembler. The main file's lines come first,
//! unmodified; then, for each dependency in the given order, a
//! five-line banner block followed by the dependency's own lines,
//! verbatim. Callers are expected to hand the dependencies in a
//! stable order (the configuration keeps them sorted by name) so
//! that every build of the same inputs yields the same document.

use vstd::prelude::*;

use crate::format::{noop_char, noop_line};
use crate::lines::rem_keyword;
use crate::text::{from_chars, push_all, to_chars, upper_chars, upper_seq};

verus! {

/// The `=` fill of a banner separator line.
pub open spec fn banner_fill() -> Seq<char> {
    Seq::new(76, |i: int| '=')
}

/// A banner separator line: `REM ` followed by the fill.
pub open spec fn banner_sep_line() -> Seq<char> {
    rem_keyword() + seq![' '] + banner_fill()
}

/// The prefix of a banner's import line.
pub open spec fn import_prefix() -> Seq<char> {
    seq!['R', 'E', 'M', ' ', 'I', 'M', 'P', 'O', 'R', 'T', ' ']
}

/// The suffix of a banner's import line.
pub open spec fn bas_suffix() -> Seq<char> {
    seq!['.', 'B', 'A', 'S']
}

/// A banner's import line: `REM IMPORT <NAME>.BAS`, the name
/// upper-cased.
pub open spec fn import_line(name: Seq<char>) -> Seq<char> {
    import_prefix() + upper_seq(name) + bas_suffix()
}

/// The five banner lines introducing a dependency block.
pub open spec fn banner_lines(name: Seq<char>) -> Seq<Seq<char>> {
    seq![
        seq![noop_char()],
        banner_sep_line(),
        import_line(name),
        banner_sep_line(),
        seq![noop_char()],
    ]
}

/// A dependency block: the banner, then the dependency's lines.
pub open spec fn dep_block(name: Seq<char>, body: Seq<Seq<char>>) -> Seq<Seq<char>> {
    banner_lines(name) + body
}

/// A dependency's resolved source: its name and the lines of its
/// local file.
pub struct DepSource {
    pub name: String,
    pub lines: Vec<String>,
}

impl View for DepSource {
    type V = (Seq<char>, Seq<Seq<char>>);

    open spec fn view(&self) -> (Seq<char>, Seq<Seq<char>>) {
        (self.name@, self.lines.deep_view())
    }
}

/// The dependency sources of a sequence, as their views.
pub open spec fn deps_view(s: Seq<DepSource>) -> Seq<(Seq<char>, Seq<Seq<char>>)> {
    s.map_values(|d: DepSource| d@)
}

/// The blocks of the first `n` dependencies, concatenated in order.
pub open spec fn assembled_deps_prefix(deps: Seq<(Seq<char>, Seq<Seq<char>>)>, n: int) -> Seq<
    Seq<char>,
>
    decreases n,
{
    if n <= 0 {
        Seq::empty()
    } else {
        assembled_deps_prefix(deps, n - 1) + dep_block(deps[n - 1].0, deps[n - 1].1)
    }
}

/// The blocks of all dependencies, concatenated in order.
pub open spec fn assembled_deps(deps: Seq<(Seq<char>, Seq<Seq<char>>)>) -> Seq<Seq<char>> {
    assembled_deps_prefix(deps, deps.len() as int)
}

/// The assembled document: the main lines, then every dependency
/// block.
pub open spec fn assembled(main: Seq<Seq<char>>, deps: Seq<(Seq<char>, Seq<Seq<char>>)>) -> Seq<
    Seq<char>,
> {
    main + assembled_deps(deps)
}

/// Builds a banner separator line.
fn banner_sep_exec() -> (r: String)
    ensures
        r@ == banner_sep_line(),
{
    let mut cs = to_chars("REM ");
    proof {
        reveal_strlit("REM ");
        assert(cs@ =~= rem_keyword() + seq![' ']);
    }
    let mut k: usize = 0;
    while k < 76
        invariant
            k <= 76,
            cs@ =~= rem_keyword() + seq![' '] + Seq::new(k as nat, |i: int| '='),
        decreases 76 - k,
    {
        cs.push('=');
        k = k + 1;
        proof {
            assert(cs@ =~= rem_keyword() + seq![' '] + Seq::new(k as nat, |i: int| '='));
        }
    }
    proof {
        assert(cs@ =~= banner_sep_line());
    }
    from_chars(&cs)
}

/// Builds a banner's import line for the named dependency.
fn import_line_exec(name: &String) -> (r: String)
    ensures
        r@ == import_line(name@),
{
    let mut cs = to_chars("REM IMPORT ");
    proof {
        reveal_strlit("REM IMPORT ");
        assert(cs@ =~= import_prefix());
    }
    let raw = to_chars(name.as_str());
    let up = upper_chars(&raw);
    push_all(&mut cs, &up);
    let suffix = to_chars(".BAS");
    proof {
        reveal_strlit(".BAS");
        assert(suffix@ =~= bas_suffix());
    }
    push_all(&mut cs, &suffix);
    proof {
        assert(cs@ =~= import_line(name@));
    }
    from_chars(&cs)
}

/// Builds the five banner lines introducing the named dependency.
pub fn banner(name: &String) -> (r: Vec<String>)
    ensures
        r.deep_view() == banner_lines(name@),
{
    let mut out: Vec<String> = Vec::new();
    out.push(noop_line());
    out.push(banner_sep_exec());
    out.push(import_line_exec(name));
    out.push(banner_sep_exec());
    out.push(noop_line());
    proof {
        assert(out.deep_view() =~= banner_lines(name@));
    }
    out
}

/// Appends one line, extending the sequence of line views by its
/// view.
fn push_line(out: &mut Vec<String>, line: String)
    ensures
        final(out).deep_view() == old(out).deep_view().push(line@),
{
    let ghost lv = line@;
    out.push(line);
    proof {
        assert forall|j: int| 0 <= j < out@.len() implies #[trigger] out.deep_view()[j] == old(
            out,
        ).deep_view().push(lv)[j] by {
            assert(out.deep_view()[j] == out@[j]@);
            if j < out@.len() - 1 {
                assert(old(out).deep_view()[j] == old(out)@[j]@);
            }
        }
        assert(out.deep_view() =~= old(out).deep_view().push(lv));
    }
}

/// Concatenates the main lines with every dependency block, in the
/// order given.
pub fn assemble(main: &Vec<String>, deps: &Vec<DepSource>) -> (r: Vec<String>)
    ensures
        r.deep_view() == assembled(main.deep_view(), deps_view(deps@)),
{
    let ghost mv = main.deep_view();
    let ghost dvs = deps_view(deps@);
    let mut out: Vec<String> = Vec::new();
    proof {
        assert(out.deep_view() =~= mv.subrange(0, 0));
    }
    let mut i: usize = 0;
    while i < main.len()
        invariant
            i <= main@.len(),
            mv == main.deep_view(),
            mv.len() == main@.len(),
            out.deep_view() == mv.subrange(0, i as int),
        decreases main@.len() - i,
    {
        let line = main[i].clone();
        proof {
            assert(line@ == mv[i as int]);
        }
        push_line(&mut out, line);
        i = i + 1;
        proof {
            assert(mv.subrange(0, i - 1).push(mv[i - 1]) =~= mv.subrange(0, i as int));
        }
    }
    proof {
        assert(mv.subrange(0, mv.len() as int) =~= mv);
        assert(mv + assembled_deps_prefix(dvs, 0) =~= mv);
    }
    let mut d: usize = 0;
    while d < deps.len()
        invariant
            d <= deps@.len(),
            mv == main.deep_view(),
            dvs == deps_view(deps@),
            dvs.len() == deps@.len(),
            out.deep_view() == mv + assembled_deps_prefix(dvs, d as int),
        decreases deps@.len() - d,
    {
        let ghost base = out.deep_view();
        let ghost nv = deps@[d as int].name@;
        let ghost bodyv = deps@[d as int].lines.deep_view();
        proof {
            assert(dvs[d as int] == deps@[d as int]@);
        }
        let name = &deps[d].name;
        let block = banner(name);
        let mut b: usize = 0;
        while b < block.len()
            invariant
                b <= block@.len(),
                block.deep_view() == banner_lines(nv),
                block@.len() == block.deep_view().len(),
                out.deep_view() == base + banner_lines(nv).subrange(0, b as int),
            decreases block@.len() - b,
        {
            let line = block[b].clone();
            proof {
                assert(line@ == block.deep_view()[b as int]);
            }
            push_line(&mut out, line);
            b = b + 1;
            proof {
                assert((base + banner_lines(nv).subrange(0, b - 1)).push(banner_lines(nv)[b - 1])
                    =~= base + banner_lines(nv).subrange(0, b as int));
            }
        }
        proof {
            assert(banner_lines(nv).subrange(0, banner_lines(nv).len() as int) =~= banner_lines(
                nv,
            ));
        }
        let body = &deps[d].lines;
        let ghost with_banner = out.deep_view();
        let mut k: usize = 0;
        while k < body.len()
            invariant
                k <= body@.len(),
                body.deep_view() == bodyv,
                bodyv.len() == body@.len(),
                out.deep_view() == with_banner + bodyv.subrange(0, k as int),
            decreases body@.len() - k,
        {
            let line = body[k].clone();
            proof {
                assert(line@ == bodyv[k as int]);
            }
            push_line(&mut out, line);
            k = k + 1;
            proof {
                assert((with_banner + bodyv.subrange(0, k - 1)).push(bodyv[k - 1]) =~= with_banner
                    + bodyv.subrange(0, k as int));
            }
        }
        d = d + 1;
        proof {
            assert(bodyv.subrange(0, bodyv.len() as int) =~= bodyv);
            assert(base + banner_lines(nv) + bodyv =~= mv + assembled_deps_prefix(dvs, d as int));
        }
    }
    proof {
        assert(assembled_deps_prefix(dvs, dvs.len() as int) == assembled_deps(dvs));
    }
    out
}

} // verus!
