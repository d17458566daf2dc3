//! Substring search and replace-all over character sequences, the two string
//! operations the formatter is built on.

use vstd::prelude::*;
use vstd::string::StrSliceExecFns;
use vstd::string::StringExecFns;

verus! {

/// The pattern `pat` occurs in `text` starting at character position `i`.
pub open spec fn match_at(text: Seq<char>, pat: Seq<char>, i: int) -> bool {
    &&& 0 <= i
    &&& i + pat.len() <= text.len()
    &&& text.subrange(i, i + pat.len() as int) == pat
}

/// The pattern `pat` occurs somewhere in `text`.
pub open spec fn contains_seq(text: Seq<char>, pat: Seq<char>) -> bool {
    exists|i: int| match_at(text, pat, i)
}

/// The result of replacing, left to right and without overlap, every
/// occurrence of `pat` in `text` by `rep`.
pub open spec fn replaced(text: Seq<char>, pat: Seq<char>, rep: Seq<char>) -> Seq<char>
    recommends
        pat.len() > 0,
    decreases text.len(),
{
    if pat.len() == 0 || text.len() < pat.len() {
        text
    } else if text.subrange(0, pat.len() as int) == pat {
        rep + replaced(text.skip(pat.len() as int), pat, rep)
    } else {
        seq![text[0]] + replaced(text.skip(1), pat, rep)
    }
}

/// Whether `pat` occurs in `text` starting at position `i`, by comparing
/// characters.
fn match_at_exec(text: &str, pat: &str, i: usize, tlen: usize, plen: usize) -> (b: bool)
    requires
        tlen == text@.len(),
        plen == pat@.len(),
        i + plen <= tlen,
    ensures
        b == match_at(text@, pat@, i as int),
{
    let mut j: usize = 0;
    while j < plen
        invariant
            j <= plen,
            plen == pat@.len(),
            tlen == text@.len(),
            i + plen <= tlen,
            forall|k: int| 0 <= k < j ==> text@[i + k] == pat@[k],
        decreases plen - j,
    {
        if text.get_char(i + j) != pat.get_char(j) {
            assert(text@.subrange(i as int, i + plen as int)[j as int] != pat@[j as int]);
            return false;
        }
        j = j + 1;
    }
    assert(text@.subrange(i as int, i + plen as int) =~= pat@);
    true
}

/// Whether `pat` occurs anywhere in `text` as a contiguous run of characters.
pub fn contains_str(text: &str, pat: &str) -> (b: bool)
    ensures
        b == contains_seq(text@, pat@),
{
    let tlen = text.unicode_len();
    let plen = pat.unicode_len();
    if plen > tlen {
        assert(forall|i: int| !match_at(text@, pat@, i));
        return false;
    }
    if plen == 0 {
        assert(text@.subrange(0, 0) =~= pat@);
        assert(match_at(text@, pat@, 0));
        return true;
    }
    let mut i: usize = 0;
    while i <= tlen - plen
        invariant
            0 < plen <= tlen,
            tlen == text@.len(),
            plen == pat@.len(),
            i <= tlen - plen + 1,
            forall|k: int| 0 <= k < i ==> !match_at(text@, pat@, k),
        decreases tlen - plen - i + 1,
    {
        if match_at_exec(text, pat, i, tlen, plen) {
            return true;
        }
        i = i + 1;
    }
    assert(forall|k: int| match_at(text@, pat@, k) ==> 0 <= k < i);
    false
}

/// Replaces every occurrence of `pat` in `text` by `rep`, scanning left to
/// right without overlap, exactly as `replaced` describes.
pub fn replace_all(text: &str, pat: &str, rep: &str) -> (r: String)
    requires
        pat@.len() > 0,
    ensures
        r@ == replaced(text@, pat@, rep@),
{
    let tlen = text.unicode_len();
    let plen = pat.unicode_len();
    let mut out = String::new();
    let mut pos: usize = 0;
    proof {
        assert(text@.skip(0) =~= text@);
        assert(out@ + replaced(text@, pat@, rep@) =~= replaced(text@, pat@, rep@));
    }
    while tlen - pos >= plen
        invariant
            pos <= tlen,
            tlen == text@.len(),
            plen == pat@.len(),
            plen > 0,
            replaced(text@, pat@, rep@) == out@ + replaced(
                text@.skip(pos as int),
                pat@,
                rep@,
            ),
        decreases tlen - pos,
    {
        let ghost s = text@.skip(pos as int);
        proof {
            assert(s.subrange(0, plen as int) =~= text@.subrange(pos as int, pos + plen as int));
        }
        if match_at_exec(text, pat, pos, tlen, plen) {
            proof {
                assert(s.skip(plen as int) =~= text@.skip(pos + plen as int));
                assert(replaced(s, pat@, rep@) == rep@ + replaced(
                    text@.skip(pos + plen as int),
                    pat@,
                    rep@,
                ));
            }
            out.append(rep);
            pos = pos + plen;
            proof {
                assert(replaced(text@, pat@, rep@) =~= out@ + replaced(
                    text@.skip(pos as int),
                    pat@,
                    rep@,
                ));
            }
        } else {
            proof {
                assert(s.skip(1) =~= text@.skip(pos + 1));
                assert(replaced(s, pat@, rep@) == seq![s[0]] + replaced(
                    text@.skip(pos + 1),
                    pat@,
                    rep@,
                ));
            }
            let c = text.substring_char(pos, pos + 1);
            proof {
                assert(c@ =~= seq![s[0]]);
            }
            out.append(c);
            pos = pos + 1;
            proof {
                assert(replaced(text@, pat@, rep@) =~= out@ + replaced(
                    text@.skip(pos as int),
                    pat@,
                    rep@,
                ));
            }
        }
    }
    let tail = text.substring_char(pos, tlen);
    proof {
        assert(tail@ =~= text@.skip(pos as int));
        assert(replaced(text@.skip(pos as int), pat@, rep@) == text@.skip(pos as int));
        assert(replaced(text@, pat@, rep@) =~= out@ + tail@);
    }
    out.append(tail);
    out
}

} // verus!
