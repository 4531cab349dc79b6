//! The writer's pure half: the exact character stream a build writes
//! to its output file — every formatted line followed by the
//! configured terminator. The front end writes this stream in one
//! piece, so the bytes on disk are pinned by the contract here.

use vstd::prelude::*;

use crate::text::{push_all, to_chars};

verus! {

/// The character stream of the output file: each line, then the
/// terminator.
pub open spec fn joined_output(lines: Seq<Seq<char>>, term: Seq<char>) -> Seq<char>
    decreases lines.len(),
{
    if lines.len() == 0 {
        Seq::empty()
    } else {
        lines[0] + term + joined_output(lines.drop_first(), term)
    }
}

/// Joins the formatted lines into the stream the output file holds.
pub fn render_output(lines: &Vec<String>, terminator: &String) -> (r: String)
    ensures
        r@ == joined_output(lines.deep_view(), terminator@),
{
    let ghost dv = lines.deep_view();
    let term = to_chars(terminator.as_str());
    let mut out: Vec<char> = Vec::new();
    proof {
        assert(dv.skip(0) =~= dv);
    }
    let mut i: usize = 0;
    while i < lines.len()
        invariant
            i <= lines@.len(),
            dv == lines.deep_view(),
            dv.len() == lines@.len(),
            term@ == terminator@,
            joined_output(dv, terminator@) =~= out@ + joined_output(
                dv.skip(i as int),
                terminator@,
            ),
        decreases lines@.len() - i,
    {
        let ghost prev_out = out@;
        let line = to_chars(lines[i].as_str());
        proof {
            assert(line@ == dv[i as int]);
        }
        push_all(&mut out, &line);
        push_all(&mut out, &term);
        i = i + 1;
        proof {
            let tail = dv.skip(i - 1);
            assert(tail[0] == dv[i - 1]);
            assert(tail.drop_first() =~= dv.skip(i as int));
            assert(joined_output(tail, terminator@) == dv[i - 1] + terminator@ + joined_output(
                dv.skip(i as int),
                terminator@,
            ));
            assert(prev_out + (dv[i - 1] + terminator@ + joined_output(
                dv.skip(i as int),
                terminator@,
            )) =~= out@ + joined_output(dv.skip(i as int), terminator@));
        }
    }
    proof {
        assert(dv.skip(dv.len() as int) =~= Seq::<Seq<char>>::empty());
        assert(out@ + joined_output(dv.skip(dv.len() as int), terminator@) =~= out@);
    }
    crate::text::from_chars(&out)
}

} // verus!
