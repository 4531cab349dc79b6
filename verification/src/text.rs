//! Character-level utilities: ASCII case folding, decimal rendering of
//! line numbers, lexicographic comparison, and literal substring
//! replacement. Everything here is pure text manipulation; all of the
//! assembler's string rewriting is expressed over these primitives.

use vstd::prelude::*;

verus! {

/// ASCII upper-casing of a single character; characters outside
/// `'a'..='z'` are unchanged.
pub open spec fn upper_char(c: char) -> char {
    if 97 <= c as u32 && c as u32 <= 122 {
        ((c as u32 - 32) as u8) as char
    } else {
        c
    }
}

/// ASCII upper-casing of a character sequence.
pub open spec fn upper_seq(s: Seq<char>) -> Seq<char> {
    s.map_values(|c: char| upper_char(c))
}

/// Upper-cases one character, ASCII-only.
pub fn upper_char_exec(c: char) -> (r: char)
    ensures
        r == upper_char(c),
{
    let u = c as u32;
    if 97 <= u && u <= 122 {
        ((u - 32) as u8) as char
    } else {
        c
    }
}

/// Upper-cases a whole character vector, ASCII-only.
pub fn upper_chars(s: &Vec<char>) -> (r: Vec<char>)
    ensures
        r@ == upper_seq(s@),
{
    let mut out: Vec<char> = Vec::new();
    let mut j: usize = 0;
    while j < s.len()
        invariant
            j <= s@.len(),
            out@.len() == j,
            forall|k: int| 0 <= k < j ==> out@[k] == upper_char(s@[k]),
        decreases s@.len() - j,
    {
        out.push(upper_char_exec(s[j]));
        j = j + 1;
    }
    proof {
        assert(out@ =~= upper_seq(s@));
    }
    out
}

/// The decimal digit character for a value below ten.
pub open spec fn digit_char(d: int) -> char
    recommends
        0 <= d < 10,
{
    ((48 + d) as u8) as char
}

/// The decimal notation of a non-negative integer, most significant
/// digit first, without leading zeroes (zero itself is rendered "0").
pub open spec fn dec_digits(n: int) -> Seq<char>
    recommends
        n >= 0,
    decreases n,
{
    if n < 10 {
        seq![digit_char(n)]
    } else {
        dec_digits(n / 10).push(digit_char(n % 10))
    }
}

/// Decimal notation consists of the characters `'0'` through `'9'`.
pub proof fn lemma_dec_digits_are_digits(n: int)
    requires
        n >= 0,
    ensures
        forall|k: int|
            0 <= k < dec_digits(n).len() ==> 48 <= (#[trigger] dec_digits(n)[k]) as u32 <= 57,
    decreases n,
{
    if n < 10 {
        assert(dec_digits(n) =~= seq![digit_char(n)]);
        assert(digit_char(n) as u32 == 48 + n);
    } else {
        lemma_dec_digits_are_digits(n / 10);
        assert(digit_char(n % 10) as u32 == 48 + n % 10);
        assert forall|k: int|
            0 <= k < dec_digits(n).len() implies 48 <= (#[trigger] dec_digits(n)[k]) as u32
            <= 57 by {
            if k < dec_digits(n / 10).len() {
                assert(dec_digits(n)[k] == dec_digits(n / 10)[k]);
            } else {
                assert(dec_digits(n)[k] == digit_char(n % 10));
            }
        }
    }
}

/// Decimal notation is never empty.
pub proof fn lemma_dec_digits_len_positive(n: int)
    requires
        n >= 0,
    ensures
        dec_digits(n).len() >= 1,
{
    if n < 10 {
    } else {
        assert(dec_digits(n) == dec_digits(n / 10).push(digit_char(n % 10)));
    }
}

/// A larger number never has fewer decimal digits.
pub proof fn lemma_dec_digits_len_monotone(n: int, m: int)
    requires
        0 <= n <= m,
    ensures
        dec_digits(n).len() <= dec_digits(m).len(),
    decreases m,
{
    if m < 10 {
    } else if n < 10 {
        lemma_dec_digits_len_positive(m / 10);
        assert(dec_digits(m) == dec_digits(m / 10).push(digit_char(m % 10)));
    } else {
        lemma_dec_digits_len_monotone(n / 10, m / 10);
        assert(dec_digits(n) == dec_digits(n / 10).push(digit_char(n % 10)));
        assert(dec_digits(m) == dec_digits(m / 10).push(digit_char(m % 10)));
    }
}

/// Renders a number in decimal, matching `dec_digits`.
pub fn dec_digits_exec(n: usize) -> (r: Vec<char>)
    ensures
        r@ == dec_digits(n as int),
{
    let mut rest: usize = n;
    let mut out: Vec<char> = Vec::new();
    while rest >= 10
        invariant
            dec_digits(n as int) =~= dec_digits(rest as int) + out@,
        decreases rest,
    {
        let ghost prev = rest as int;
        let ghost prev_out = out@;
        let d: u8 = (rest % 10) as u8;
        out.insert(0, (48 + d) as char);
        rest = rest / 10;
        proof {
            assert(dec_digits(prev) == dec_digits(prev / 10).push(digit_char(prev % 10)));
            assert(dec_digits(prev / 10).push(digit_char(prev % 10)) + prev_out
                =~= dec_digits(prev / 10) + out@);
        }
    }
    let d: u8 = (rest % 10) as u8;
    out.insert(0, (48 + d) as char);
    proof {
        assert(dec_digits(rest as int) =~= seq![digit_char(rest as int)]);
        assert(dec_digits(n as int) =~= out@);
    }
    out
}

/// Relies on `String::push`: appends the given character at the end
/// of the string.
#[verifier::external_body]
fn push_char(s: &mut String, c: char)
    ensures
        final(s)@ == old(s)@.push(c),
{
    s.push(c);
}

/// Collects a string's characters into a vector.
pub fn to_chars(s: &str) -> (r: Vec<char>)
    ensures
        r@ == s@,
{
    let n = s.unicode_len();
    let mut out: Vec<char> = Vec::new();
    let mut i: usize = 0;
    while i < n
        invariant
            n == s@.len(),
            i <= n,
            out@ =~= s@.subrange(0, i as int),
        decreases n - i,
    {
        out.push(s.get_char(i));
        i = i + 1;
    }
    proof {
        assert(out@ =~= s@);
    }
    out
}

/// Builds a string out of a vector of characters.
pub fn from_chars(v: &Vec<char>) -> (r: String)
    ensures
        r@ == v@,
{
    let mut out = String::new();
    let mut i: usize = 0;
    while i < v.len()
        invariant
            i <= v@.len(),
            out@ =~= v@.subrange(0, i as int),
        decreases v@.len() - i,
    {
        push_char(&mut out, v[i]);
        i = i + 1;
    }
    proof {
        assert(out@ =~= v@);
    }
    out
}

/// True iff `pat` occurs as a contiguous run of characters in `s`.
pub open spec fn occurs(s: Seq<char>, pat: Seq<char>) -> bool {
    exists|i: int|
        0 <= i && i + pat.len() <= s.len() && #[trigger] s.subrange(i, i + pat.len() as int)
            == pat
}

/// Literal, non-overlapping, left-to-right replacement of every
/// occurrence of `pat` in `s` by `rep` (the behaviour of
/// `str::replace`). An empty pattern replaces nothing.
pub open spec fn replace_all(s: Seq<char>, pat: Seq<char>, rep: Seq<char>) -> Seq<char>
    decreases s.len(),
{
    if pat.len() == 0 || s.len() < pat.len() {
        s
    } else if s.take(pat.len() as int) == pat {
        rep + replace_all(s.skip(pat.len() as int), pat, rep)
    } else {
        seq![s[0]] + replace_all(s.skip(1), pat, rep)
    }
}

/// A string without any occurrence of the pattern is left unchanged.
pub proof fn lemma_replace_all_absent(s: Seq<char>, pat: Seq<char>, rep: Seq<char>)
    requires
        pat.len() >= 1,
        !occurs(s, pat),
    ensures
        replace_all(s, pat, rep) == s,
    decreases s.len(),
{
    if s.len() < pat.len() {
    } else {
        if s.take(pat.len() as int) == pat {
            assert(s.subrange(0, 0 + pat.len() as int) == pat);
            assert(occurs(s, pat));
        }
        assert(!occurs(s.skip(1), pat)) by {
            if occurs(s.skip(1), pat) {
                let i = choose|i: int|
                    0 <= i && i + pat.len() <= s.skip(1).len() && #[trigger] s.skip(1).subrange(
                        i,
                        i + pat.len() as int,
                    ) == pat;
                assert(s.subrange(i + 1, i + 1 + pat.len() as int) =~= s.skip(1).subrange(
                    i,
                    i + pat.len() as int,
                ));
            }
        }
        lemma_replace_all_absent(s.skip(1), pat, rep);
        assert(seq![s[0]] + s.skip(1) =~= s);
    }
}

/// Tests whether `pat` stands at position `i` of `s`.
fn matches_at(s: &Vec<char>, i: usize, pat: &Vec<char>) -> (r: bool)
    requires
        i + pat@.len() <= s@.len(),
    ensures
        r == (s@.subrange(i as int, i + pat@.len()) == pat@),
{
    let n = s.len();
    let plen = pat.len();
    let mut j: usize = 0;
    while j < plen
        invariant
            n == s@.len(),
            plen == pat@.len(),
            i + plen <= n,
            j <= plen,
            forall|k: int| 0 <= k < j ==> s@[i + k] == pat@[k],
        decreases plen - j,
    {
        if s[i + j] != pat[j] {
            proof {
                assert(s@.subrange(i as int, i + pat@.len())[j as int] != pat@[j as int]);
            }
            return false;
        }
        j = j + 1;
    }
    proof {
        assert(s@.subrange(i as int, i + pat@.len()) =~= pat@);
    }
    true
}

/// Appends every character of `src` to `out`.
pub fn push_all(out: &mut Vec<char>, src: &Vec<char>)
    ensures
        final(out)@ == old(out)@ + src@,
{
    let mut j: usize = 0;
    while j < src.len()
        invariant
            j <= src@.len(),
            out@ =~= old(out)@ + src@.subrange(0, j as int),
        decreases src@.len() - j,
    {
        out.push(src[j]);
        j = j + 1;
    }
    proof {
        assert(out@ =~= old(out)@ + src@);
    }
}

/// Replaces every occurrence of `pat` in `s` by `rep`, scanning left
/// to right without overlap.
pub fn replace_all_chars(s: &Vec<char>, pat: &Vec<char>, rep: &Vec<char>) -> (r: Vec<char>)
    requires
        pat@.len() >= 1,
    ensures
        r@ == replace_all(s@, pat@, rep@),
{
    let mut out: Vec<char> = Vec::new();
    let mut i: usize = 0;
    proof {
        assert(s@.skip(0) =~= s@);
    }
    while i < s.len()
        invariant
            i <= s@.len(),
            pat@.len() >= 1,
            replace_all(s@, pat@, rep@) =~= out@ + replace_all(s@.skip(i as int), pat@, rep@),
        decreases s@.len() - i,
    {
        let ghost prev = i as int;
        let ghost prev_out = out@;
        if pat.len() <= s.len() - i && matches_at(s, i, pat) {
            push_all(&mut out, rep);
            i = i + pat.len();
            proof {
                assert(s@.skip(prev).take(pat@.len() as int) =~= s@.subrange(
                    prev,
                    prev + pat@.len(),
                ));
                assert(s@.skip(prev).skip(pat@.len() as int) =~= s@.skip(i as int));
                assert(replace_all(s@.skip(prev), pat@, rep@) == rep@ + replace_all(
                    s@.skip(i as int),
                    pat@,
                    rep@,
                ));
                assert(prev_out + (rep@ + replace_all(s@.skip(i as int), pat@, rep@)) =~= out@
                    + replace_all(s@.skip(i as int), pat@, rep@));
            }
        } else {
            out.push(s[i]);
            i = i + 1;
            proof {
                let tail = s@.skip(prev);
                assert(tail.skip(1) =~= s@.skip(i as int));
                if s@.len() - prev < pat@.len() {
                    assert(replace_all(tail, pat@, rep@) == tail);
                    assert(replace_all(s@.skip(i as int), pat@, rep@) == s@.skip(i as int));
                    assert(tail =~= seq![s@[prev]] + s@.skip(i as int));
                } else {
                    assert(tail.take(pat@.len() as int) =~= s@.subrange(prev, prev + pat@.len()));
                    assert(tail.take(pat@.len() as int) != pat@);
                    assert(replace_all(tail, pat@, rep@) == seq![tail[0]] + replace_all(
                        tail.skip(1),
                        pat@,
                        rep@,
                    ));
                }
                assert(prev_out + (seq![s@[prev]] + replace_all(s@.skip(i as int), pat@, rep@))
                    =~= out@ + replace_all(s@.skip(i as int), pat@, rep@));
            }
        }
    }
    proof {
        assert(s@.skip(s@.len() as int) =~= Seq::<char>::empty());
        assert(replace_all(s@.skip(s@.len() as int), pat@, rep@) =~= Seq::<char>::empty());
        assert(out@ + Seq::<char>::empty() =~= out@);
    }
    out
}

/// Lexicographic (code-point) "at most" on character sequences; a
/// proper prefix precedes its extensions.
pub open spec fn seq_char_le(a: Seq<char>, b: Seq<char>) -> bool
    decreases a.len(),
{
    if a.len() == 0 {
        true
    } else if b.len() == 0 {
        false
    } else if (a[0] as u32) < (b[0] as u32) {
        true
    } else if (a[0] as u32) > (b[0] as u32) {
        false
    } else {
        seq_char_le(a.drop_first(), b.drop_first())
    }
}

/// The lexicographic order relates every pair of sequences.
pub proof fn lemma_seq_char_le_total(a: Seq<char>, b: Seq<char>)
    ensures
        seq_char_le(a, b) || seq_char_le(b, a),
    decreases a.len(),
{
    if a.len() == 0 || b.len() == 0 {
    } else if (a[0] as u32) == (b[0] as u32) {
        lemma_seq_char_le_total(a.drop_first(), b.drop_first());
    }
}

/// Characters with the same code point are the same character.
proof fn lemma_char_code_injective(x: char, y: char)
    requires
        x as u32 == y as u32,
    ensures
        x == y,
{
}

/// Two sequences that precede each other are equal.
pub proof fn lemma_seq_char_le_antisym(a: Seq<char>, b: Seq<char>)
    requires
        seq_char_le(a, b),
        seq_char_le(b, a),
    ensures
        a == b,
    decreases a.len(),
{
    if a.len() == 0 {
        assert(b.len() == 0);
        assert(a =~= b);
    } else {
        assert(b.len() > 0);
        assert((a[0] as u32) == (b[0] as u32));
        lemma_char_code_injective(a[0], b[0]);
        lemma_seq_char_le_antisym(a.drop_first(), b.drop_first());
        assert(a.drop_first() == b.drop_first());
        assert(a.drop_first().len() == a.len() - 1);
        assert(b.drop_first().len() == b.len() - 1);
        assert forall|i: int| 0 <= i < a.len() implies a[i] == b[i] by {
            if i > 0 {
                assert(a.drop_first()[i - 1] == a[i]);
                assert(b.drop_first()[i - 1] == b[i]);
            }
        }
        assert(a =~= b);
    }
}

/// The lexicographic order is transitive.
pub proof fn lemma_seq_char_le_trans(a: Seq<char>, b: Seq<char>, c: Seq<char>)
    requires
        seq_char_le(a, b),
        seq_char_le(b, c),
    ensures
        seq_char_le(a, c),
    decreases a.len(),
{
    if a.len() == 0 {
    } else {
        assert(b.len() > 0);
        if c.len() == 0 {
        } else if (a[0] as u32) == (b[0] as u32) && (b[0] as u32) == (c[0] as u32) {
            lemma_seq_char_le_trans(a.drop_first(), b.drop_first(), c.drop_first());
        }
    }
}

/// Compares two strings in lexicographic code-point order.
pub fn str_le(a: &str, b: &str) -> (r: bool)
    ensures
        r == seq_char_le(a@, b@),
{
    let alen = a.unicode_len();
    let blen = b.unicode_len();
    let mut i: usize = 0;
    proof {
        assert(a@.skip(0) =~= a@);
        assert(b@.skip(0) =~= b@);
    }
    loop
        invariant
            alen == a@.len(),
            blen == b@.len(),
            i <= alen,
            i <= blen,
            seq_char_le(a@, b@) == seq_char_le(a@.skip(i as int), b@.skip(i as int)),
        decreases alen - i,
    {
        if i >= alen {
            proof {
                assert(a@.skip(i as int) =~= Seq::<char>::empty());
            }
            return true;
        }
        if i >= blen {
            proof {
                assert(b@.skip(i as int) =~= Seq::<char>::empty());
                assert(a@.skip(i as int).len() > 0);
            }
            return false;
        }
        let ca = a.get_char(i);
        let cb = b.get_char(i);
        proof {
            assert(a@.skip(i as int)[0] == a@[i as int]);
            assert(b@.skip(i as int)[0] == b@[i as int]);
        }
        if (ca as u32) < (cb as u32) {
            return true;
        }
        if (ca as u32) > (cb as u32) {
            return false;
        }
        i = i + 1;
        proof {
            assert(a@.skip(i - 1).drop_first() =~= a@.skip(i as int));
            assert(b@.skip(i - 1).drop_first() =~= b@.skip(i as int));
        }
    }
}

} // verus!
