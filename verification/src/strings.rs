//! Verified text utilities used by the mutation engine and the formatter:
//! prefix and suffix tests, leftmost non-overlapping substring replacement,
//! and conversion between strings and character vectors.

use vstd::prelude::*;

verus! {

/// `p` is a prefix of `s`.
pub open spec fn spec_starts_with(s: Seq<char>, p: Seq<char>) -> bool {
    p.len() <= s.len() && s.subrange(0, p.len() as int) == p
}

/// `p` is a suffix of `s`.
pub open spec fn spec_ends_with(s: Seq<char>, p: Seq<char>) -> bool {
    p.len() <= s.len() && s.subrange(s.len() - p.len(), s.len() as int) == p
}

/// Leftmost, non-overlapping replacement of every occurrence of `pat` by
/// `rep`, scanning from the front; an empty pattern replaces nothing.
pub open spec fn spec_replace(s: Seq<char>, pat: Seq<char>, rep: Seq<char>) -> Seq<char>
    decreases s.len(),
{
    if pat.len() == 0 || s.len() < pat.len() {
        s
    } else if s.subrange(0, pat.len() as int) == pat {
        rep + spec_replace(s.skip(pat.len() as int), pat, rep)
    } else {
        seq![s[0]] + spec_replace(s.skip(1), pat, rep)
    }
}

/// Collects the characters of a string into a vector.
pub fn str_to_chars(s: &str) -> (r: Vec<char>)
    ensures
        r@ == s@,
{
    let n = s.unicode_len();
    let mut out: Vec<char> = Vec::new();
    let mut i: usize = 0;
    while i < n
        invariant
            i <= n,
            n == s@.len(),
            out@ == s@.subrange(0, i as int),
        decreases n - i,
    {
        let c = s.get_char(i);
        out.push(c);
        proof {
            assert(out@ =~= s@.subrange(0, i + 1 as int));
        }
        i = i + 1;
    }
    proof {
        assert(out@ =~= s@);
    }
    out
}

/// Builds a `String` from a vector of characters.
///
/// Relies on `String`'s `FromIterator<char>` implementation: collecting
/// characters yields the string of exactly those characters in order.
#[verifier::external_body]
pub fn chars_to_string(v: &Vec<char>) -> (r: String)
    ensures
        r@ == v@,
{
    v.iter().collect()
}

/// Appends every character of `src` to `dst`.
pub fn push_chars(dst: &mut Vec<char>, src: &Vec<char>)
    ensures
        final(dst)@ == old(dst)@ + src@,
{
    let mut i: usize = 0;
    while i < src.len()
        invariant
            i <= src@.len(),
            dst@ == old(dst)@ + src@.subrange(0, i as int),
        decreases src@.len() - i,
    {
        dst.push(src[i]);
        proof {
            assert(dst@ =~= old(dst)@ + src@.subrange(0, i + 1 as int));
        }
        i = i + 1;
    }
    proof {
        assert(dst@ =~= old(dst)@ + src@);
    }
}

/// `s` starts with the pattern `p`.
pub fn starts_with(s: &str, p: &str) -> (r: bool)
    ensures
        r == spec_starts_with(s@, p@),
{
    let n = s.unicode_len();
    let m = p.unicode_len();
    if m > n {
        return false;
    }
    let mut i: usize = 0;
    while i < m
        invariant
            i <= m,
            m <= n,
            n == s@.len(),
            m == p@.len(),
            forall|j: int| 0 <= j < i ==> s@[j] == p@[j],
        decreases m - i,
    {
        if s.get_char(i) != p.get_char(i) {
            proof {
                assert(s@.subrange(0, p@.len() as int)[i as int] != p@[i as int]);
            }
            return false;
        }
        i = i + 1;
    }
    proof {
        assert(s@.subrange(0, p@.len() as int) =~= p@);
    }
    true
}

/// `s` ends with the pattern `p`.
pub fn ends_with(s: &str, p: &str) -> (r: bool)
    ensures
        r == spec_ends_with(s@, p@),
{
    let n = s.unicode_len();
    let m = p.unicode_len();
    if m > n {
        return false;
    }
    let off = n - m;
    let mut i: usize = 0;
    while i < m
        invariant
            i <= m,
            m <= n,
            off == n - m,
            n == s@.len(),
            m == p@.len(),
            forall|j: int| 0 <= j < i ==> s@[off + j] == p@[j],
        decreases m - i,
    {
        if s.get_char(off + i) != p.get_char(i) {
            proof {
                assert(s@.subrange(s@.len() - p@.len(), s@.len() as int)[i as int] != p@[i as int]);
            }
            return false;
        }
        i = i + 1;
    }
    proof {
        assert(s@.subrange(s@.len() - p@.len(), s@.len() as int) =~= p@);
    }
    true
}

/// The pattern `pat` occurs in `s` at position `at`.
fn matches_at(s: &Vec<char>, at: usize, pat: &Vec<char>) -> (r: bool)
    requires
        at + pat@.len() <= s@.len(),
    ensures
        r == (s@.subrange(at as int, at + pat@.len()) == pat@),
{
    let n = s.len();
    let mut i: usize = 0;
    while i < pat.len()
        invariant
            i <= pat@.len(),
            at + pat@.len() <= s@.len(),
            n == s@.len(),
            forall|j: int| 0 <= j < i ==> s@[at + j] == pat@[j],
        decreases pat@.len() - i,
    {
        if s[at + i] != pat[i] {
            proof {
                assert(s@.subrange(at as int, at + pat@.len())[i as int] != pat@[i as int]);
            }
            return false;
        }
        i = i + 1;
    }
    proof {
        assert(s@.subrange(at as int, at + pat@.len()) =~= pat@);
    }
    true
}

proof fn lemma_replace_unfold_char(s: Seq<char>, pat: Seq<char>, rep: Seq<char>)
    requires
        pat.len() >= 1,
        s.len() >= 1,
        s.len() < pat.len() || s.subrange(0, pat.len() as int) != pat,
    ensures
        spec_replace(s, pat, rep) == seq![s[0]] + spec_replace(s.skip(1), pat, rep),
{
    if s.len() < pat.len() {
        assert(spec_replace(s, pat, rep) == s);
        assert(spec_replace(s.skip(1), pat, rep) == s.skip(1));
        assert(s =~= seq![s[0]] + s.skip(1));
    }
}

/// Replaces every occurrence of `pat` in `s` by `rep`, scanning from the
/// left without overlap, exactly as `spec_replace` describes.
pub fn replace(s: &str, pat: &str, rep: &str) -> (r: String)
    ensures
        r@ == spec_replace(s@, pat@, rep@),
{
    let sv = str_to_chars(s);
    let pv = str_to_chars(pat);
    let rv = str_to_chars(rep);
    if pv.len() == 0 {
        let out = chars_to_string(&sv);
        return out;
    }
    let n = sv.len();
    let m = pv.len();
    let mut out: Vec<char> = Vec::new();
    let mut i: usize = 0;
    proof {
        assert(s@.skip(0) =~= s@);
    }
    while i < n
        invariant
            i <= n,
            n == sv@.len(),
            m == pv@.len(),
            m >= 1,
            sv@ == s@,
            pv@ == pat@,
            rv@ == rep@,
            spec_replace(s@, pat@, rep@) == out@ + spec_replace(s@.skip(i as int), pat@, rep@),
        decreases n - i,
    {
        let ghost tail = s@.skip(i as int);
        if n - i >= m && matches_at(&sv, i, &pv) {
            proof {
                assert(tail.len() >= pat@.len());
                assert(tail.subrange(0, pat@.len() as int) =~= s@.subrange(
                    i as int,
                    i + pat@.len(),
                ));
                assert(spec_replace(tail, pat@, rep@) == rep@ + spec_replace(
                    tail.skip(m as int),
                    pat@,
                    rep@,
                ));
                assert(tail.skip(m as int) =~= s@.skip(i + m));
            }
            push_chars(&mut out, &rv);
            i = i + m;
        } else {
            proof {
                if i + m <= n {
                    assert(tail.subrange(0, pat@.len() as int) =~= s@.subrange(
                        i as int,
                        i + pat@.len(),
                    ));
                    assert(tail.subrange(0, pat@.len() as int) != pat@);
                } else {
                    assert(tail.len() < pat@.len());
                }
                lemma_replace_unfold_char(tail, pat@, rep@);
                assert(tail[0] == s@[i as int]);
                assert(tail.skip(1) =~= s@.skip(i + 1));
            }
            let c = sv[i];
            out.push(c);
            i = i + 1;
        }
    }
    proof {
        assert(s@.skip(n as int) =~= Seq::<char>::empty());
        assert(spec_replace(s@.skip(n as int), pat@, rep@) =~= Seq::<char>::empty());
        assert(spec_replace(s@, pat@, rep@) =~= out@);
    }
    chars_to_string(&out)
}

/// Concatenation of two strings.
pub fn concat_strings(a: &str, b: &str) -> (r: String)
    ensures
        r@ == a@ + b@,
{
    let mut v = str_to_chars(a);
    let bv = str_to_chars(b);
    push_chars(&mut v, &bv);
    chars_to_string(&v)
}

} // verus!
