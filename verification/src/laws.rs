//! The general laws the formatter obeys, stated over the specification
//! functions that the executable contracts use, and proved once for all
//! inputs.

use crate::formatter::placeholder_of;
use crate::formatter::spec_format;
use crate::formatter::subst_fields;
use crate::text::contains_seq;
use crate::text::match_at;
use crate::text::replaced;
use crate::value::dec_rep;
use crate::value::dec_value;
use crate::value::digit_char;
use crate::value::digit_val;
use crate::value::is_digit;
use crate::value::rendered_of;
use crate::value::Value;
use vstd::prelude::*;

verus! {

/// Law: formatting a record with no fields returns any template unchanged.
pub proof fn lemma_empty_record(left: Seq<char>, right: Seq<char>, template: Seq<char>)
    ensures
        spec_format(left, right, Seq::<(String, Value)>::empty(), template) == Ok::<
            Seq<char>,
            Seq<char>,
        >(template),
{
}

proof fn lemma_subst_ok_iff(
    left: Seq<char>,
    right: Seq<char>,
    fields: Seq<(String, Value)>,
    template: Seq<char>,
    current: Seq<char>,
)
    ensures
        subst_fields(left, right, fields, template, current) is Ok <==> (forall|j: int|
            0 <= j < fields.len() ==> contains_seq(
                template,
                placeholder_of(left, fields[j].0@, right),
            )),
    decreases fields.len(),
{
    if fields.len() == 0 {
    } else {
        let pat = placeholder_of(left, fields[0].0@, right);
        if contains_seq(template, pat) {
            let next = replaced(current, pat, rendered_of(fields[0].1));
            lemma_subst_ok_iff(left, right, fields.skip(1), template, next);
            if (forall|j: int|
                0 <= j < fields.skip(1).len() ==> contains_seq(
                    template,
                    placeholder_of(left, fields.skip(1)[j].0@, right),
                )) {
                assert forall|j: int| 0 <= j < fields.len() implies contains_seq(
                    template,
                    placeholder_of(left, fields[j].0@, right),
                ) by {
                    if j >= 1 {
                        assert(fields.skip(1)[j - 1] == fields[j]);
                    }
                }
            } else {
                let j = choose|j: int|
                    0 <= j < fields.skip(1).len() && !contains_seq(
                        template,
                        placeholder_of(left, fields.skip(1)[j].0@, right),
                    );
                assert(fields.skip(1)[j] == fields[j + 1]);
                assert(!contains_seq(template, placeholder_of(left, fields[j + 1].0@, right)));
            }
        }
    }
}

/// Law: formatting succeeds exactly when every field's placeholder occurs in
/// the original template; when one is missing, the error names the first
/// such field in field order.
pub proof fn lemma_format_ok_iff(
    left: Seq<char>,
    right: Seq<char>,
    fields: Seq<(String, Value)>,
    template: Seq<char>,
)
    ensures
        spec_format(left, right, fields, template) is Ok <==> (forall|j: int|
            0 <= j < fields.len() ==> contains_seq(
                template,
                placeholder_of(left, fields[j].0@, right),
            )),
{
    lemma_subst_ok_iff(left, right, fields, template, template);
}

/// Law: the decimal rendering of an integer is canonical: at least one
/// character, digits only, no leading zero except for zero itself, and the
/// digit string denotes exactly the integer it was rendered from.
pub proof fn lemma_dec_rep_canonical(n: nat)
    ensures
        dec_rep(n).len() >= 1,
        forall|i: int| 0 <= i < dec_rep(n).len() ==> is_digit(#[trigger] dec_rep(n)[i]),
        n > 0 ==> dec_rep(n)[0] != '0',
        n == 0 ==> dec_rep(n) == seq!['0'],
        dec_value(dec_rep(n)) == n,
    decreases n,
{
    if n < 10 {
        let s = seq![digit_char(n)];
        assert(dec_rep(n) == s);
        assert(s.drop_last() =~= Seq::<char>::empty());
        assert(dec_value(s.drop_last()) == 0);
        assert(s.last() == digit_char(n));
        assert(dec_value(s) == 0 * 10 + digit_val(digit_char(n)));
    } else {
        assert(n / 10 < n && n / 10 >= 1) by (nonlinear_arith)
            requires
                n >= 10,
        ;
        lemma_dec_rep_canonical(n / 10);
        let prefix = dec_rep(n / 10);
        let whole = prefix.push(digit_char(n % 10));
        assert(dec_rep(n) == whole);
        assert(whole.drop_last() =~= prefix);
        assert(whole.last() == digit_char(n % 10));
        assert(digit_val(digit_char(n % 10)) == n % 10);
        assert(dec_value(whole) == dec_value(prefix) * 10 + n % 10);
        assert((n / 10) * 10 + n % 10 == n) by (nonlinear_arith);
        assert(whole[0] == prefix[0]);
        assert forall|i: int| 0 <= i < whole.len() implies is_digit(#[trigger] whole[i]) by {
            if i < prefix.len() {
                assert(whole[i] == prefix[i]);
            }
        }
    }
}

/// `p` is a prefix of `s`.
spec fn is_prefix_of(p: Seq<char>, s: Seq<char>) -> bool {
    p.len() <= s.len() && s.subrange(0, p.len() as int) == p
}

/// No character of `a` occurs anywhere in `b`.
pub open spec fn char_disjoint(a: Seq<char>, b: Seq<char>) -> bool {
    forall|i: int, j: int| 0 <= i < a.len() && 0 <= j < b.len() ==> a[i] != b[j]
}

/// A nonempty string `s` whose characters never occur in `rep` can begin
/// `replaced(u, pat, rep)` only where it already began `u`.
proof fn lemma_prefix_through_replaced(u: Seq<char>, pat: Seq<char>, rep: Seq<char>, s: Seq<char>)
    requires
        pat.len() > 0,
        rep.len() > 0,
        s.len() > 0,
        char_disjoint(rep, s),
        is_prefix_of(s, replaced(u, pat, rep)),
    ensures
        is_prefix_of(s, u),
    decreases u.len(),
{
    let r = replaced(u, pat, rep);
    if u.len() < pat.len() {
        assert(r == u);
    } else if u.subrange(0, pat.len() as int) == pat {
        let tail = replaced(u.skip(pat.len() as int), pat, rep);
        assert(r == rep + tail);
        assert(s[0] == r.subrange(0, s.len() as int)[0]);
        assert(r[0] == rep[0]);
        assert(false);
    } else {
        let tail = replaced(u.skip(1), pat, rep);
        assert(r == seq![u[0]] + tail);
        assert(s[0] == r.subrange(0, s.len() as int)[0]);
        assert(s[0] == u[0]);
        if s.len() == 1 {
            assert(u.subrange(0, 1) =~= s);
        } else {
            assert(tail.subrange(0, s.len() - 1) =~= s.skip(1)) by {
                assert forall|k: int| 0 <= k < s.len() - 1 implies tail[k] == s[k + 1] by {
                    assert(r[k + 1] == tail[k]);
                    assert(s[k + 1] == r.subrange(0, s.len() as int)[k + 1]);
                }
            }
            assert(char_disjoint(rep, s.skip(1))) by {
                assert forall|i: int, j: int|
                    0 <= i < rep.len() && 0 <= j < s.skip(1).len() implies rep[i] != s.skip(1)[j] by {
                    assert(s.skip(1)[j] == s[j + 1]);
                }
            }
            lemma_prefix_through_replaced(u.skip(1), pat, rep, s.skip(1));
            assert(u.subrange(0, s.len() as int) =~= s) by {
                assert forall|k: int| 0 <= k < s.len() implies u[k] == s[k] by {
                    if k >= 1 {
                        assert(u.skip(1).subrange(0, s.len() - 1)[k - 1] == u[k]);
                        assert(s.skip(1)[k - 1] == s[k]);
                    }
                }
            }
        }
    }
}

/// An occurrence within a suffix is an occurrence in the whole.
proof fn lemma_contains_skip(u: Seq<char>, q: Seq<char>, k: int)
    requires
        0 <= k <= u.len(),
        contains_seq(u.skip(k), q),
    ensures
        contains_seq(u, q),
{
    let i = choose|i: int| match_at(u.skip(k), q, i);
    assert(u.subrange(k + i, k + i + q.len() as int) =~= u.skip(k).subrange(
        i,
        i + q.len() as int,
    ));
    assert(match_at(u, q, k + i));
}

/// Replacing every occurrence of `pat` by a nonempty `rep` that shares no
/// character with `pat` leaves no occurrence of `pat` behind.
proof fn lemma_replaced_clears(u: Seq<char>, pat: Seq<char>, rep: Seq<char>)
    requires
        pat.len() > 0,
        rep.len() > 0,
        char_disjoint(rep, pat),
    ensures
        !contains_seq(replaced(u, pat, rep), pat),
    decreases u.len(),
{
    let r = replaced(u, pat, rep);
    if u.len() < pat.len() {
        assert(r == u);
        assert forall|i: int| !match_at(r, pat, i) by {}
    } else if u.subrange(0, pat.len() as int) == pat {
        let tail = replaced(u.skip(pat.len() as int), pat, rep);
        lemma_replaced_clears(u.skip(pat.len() as int), pat, rep);
        assert(r == rep + tail);
        assert forall|i: int| !match_at(r, pat, i) by {
            if match_at(r, pat, i) {
                if i < rep.len() {
                    assert(r.subrange(i, i + pat.len() as int)[0] == pat[0]);
                    assert(r[i] == rep[i]);
                    assert(false);
                } else {
                    assert(tail.subrange(i - rep.len(), i - rep.len() + pat.len() as int) =~= r
                        .subrange(i, i + pat.len() as int));
                    assert(match_at(tail, pat, i - rep.len()));
                    assert(false);
                }
            }
        }
    } else {
        let tail = replaced(u.skip(1), pat, rep);
        lemma_replaced_clears(u.skip(1), pat, rep);
        assert(r == seq![u[0]] + tail);
        assert forall|i: int| !match_at(r, pat, i) by {
            if match_at(r, pat, i) {
                if i == 0 {
                    assert(r.subrange(0, pat.len() as int)[0] == pat[0]);
                    assert(u[0] == pat[0]);
                    if pat.len() == 1 {
                        assert(u.subrange(0, 1) =~= pat);
                        assert(false);
                    } else {
                        assert(is_prefix_of(pat.skip(1), tail)) by {
                            assert(tail.subrange(0, pat.len() - 1) =~= pat.skip(1)) by {
                                assert forall|k: int| 0 <= k < pat.len() - 1 implies tail[k] == pat[k + 1] by {
                                    assert(r.subrange(0, pat.len() as int)[k + 1] == pat[k + 1]);
                                    assert(r[k + 1] == tail[k]);
                                }
                            }
                        }
                        assert(char_disjoint(rep, pat.skip(1))) by {
                            assert forall|a: int, b: int|
                                0 <= a < rep.len() && 0 <= b < pat.skip(1).len() implies rep[a]
                                != pat.skip(1)[b] by {
                                assert(pat.skip(1)[b] == pat[b + 1]);
                            }
                        }
                        lemma_prefix_through_replaced(u.skip(1), pat, rep, pat.skip(1));
                        assert(u.subrange(0, pat.len() as int) =~= pat) by {
                            assert forall|k: int| 0 <= k < pat.len() implies u[k] == pat[k] by {
                                if k >= 1 {
                                    assert(u.skip(1).subrange(0, pat.len() - 1)[k - 1] == u[k]);
                                    assert(pat.skip(1)[k - 1] == pat[k]);
                                }
                            }
                        }
                        assert(false);
                    }
                } else {
                    assert(tail.subrange(i - 1, i - 1 + pat.len() as int) =~= r.subrange(
                        i,
                        i + pat.len() as int,
                    ));
                    assert(match_at(tail, pat, i - 1));
                    assert(false);
                }
            }
        }
    }
}

/// Replacing `pat` by a nonempty `rep` that shares no character with `q`
/// cannot introduce an occurrence of an absent `q`.
proof fn lemma_replaced_preserves_absence(
    u: Seq<char>,
    pat: Seq<char>,
    rep: Seq<char>,
    q: Seq<char>,
)
    requires
        pat.len() > 0,
        rep.len() > 0,
        q.len() > 0,
        char_disjoint(rep, q),
        !contains_seq(u, q),
    ensures
        !contains_seq(replaced(u, pat, rep), q),
    decreases u.len(),
{
    let r = replaced(u, pat, rep);
    if u.len() < pat.len() {
        assert(r == u);
    } else if u.subrange(0, pat.len() as int) == pat {
        let tail = replaced(u.skip(pat.len() as int), pat, rep);
        assert(!contains_seq(u.skip(pat.len() as int), q)) by {
            if contains_seq(u.skip(pat.len() as int), q) {
                lemma_contains_skip(u, q, pat.len() as int);
            }
        }
        lemma_replaced_preserves_absence(u.skip(pat.len() as int), pat, rep, q);
        assert(r == rep + tail);
        assert forall|i: int| !match_at(r, q, i) by {
            if match_at(r, q, i) {
                if i < rep.len() {
                    assert(r.subrange(i, i + q.len() as int)[0] == q[0]);
                    assert(r[i] == rep[i]);
                    assert(false);
                } else {
                    assert(tail.subrange(i - rep.len(), i - rep.len() + q.len() as int) =~= r
                        .subrange(i, i + q.len() as int));
                    assert(match_at(tail, q, i - rep.len()));
                    assert(false);
                }
            }
        }
    } else {
        let tail = replaced(u.skip(1), pat, rep);
        assert(!contains_seq(u.skip(1), q)) by {
            if contains_seq(u.skip(1), q) {
                lemma_contains_skip(u, q, 1);
            }
        }
        lemma_replaced_preserves_absence(u.skip(1), pat, rep, q);
        assert(r == seq![u[0]] + tail);
        assert forall|i: int| !match_at(r, q, i) by {
            if match_at(r, q, i) {
                if i == 0 {
                    assert(r.subrange(0, q.len() as int)[0] == q[0]);
                    assert(u[0] == q[0]);
                    if q.len() == 1 {
                        assert(u.subrange(0, 1) =~= q);
                        assert(match_at(u, q, 0));
                        assert(false);
                    } else {
                        assert(is_prefix_of(q.skip(1), tail)) by {
                            assert(tail.subrange(0, q.len() - 1) =~= q.skip(1)) by {
                                assert forall|k: int| 0 <= k < q.len() - 1 implies tail[k] == q[k + 1] by {
                                    assert(r.subrange(0, q.len() as int)[k + 1] == q[k + 1]);
                                    assert(r[k + 1] == tail[k]);
                                }
                            }
                        }
                        assert(char_disjoint(rep, q.skip(1))) by {
                            assert forall|a: int, b: int|
                                0 <= a < rep.len() && 0 <= b < q.skip(1).len() implies rep[a]
                                != q.skip(1)[b] by {
                                assert(q.skip(1)[b] == q[b + 1]);
                            }
                        }
                        lemma_prefix_through_replaced(u.skip(1), pat, rep, q.skip(1));
                        assert(u.subrange(0, q.len() as int) =~= q) by {
                            assert forall|k: int| 0 <= k < q.len() implies u[k] == q[k] by {
                                if k >= 1 {
                                    assert(u.skip(1).subrange(0, q.len() - 1)[k - 1] == u[k]);
                                    assert(q.skip(1)[k - 1] == q[k]);
                                }
                            }
                        }
                        assert(match_at(u, q, 0));
                        assert(false);
                    }
                } else {
                    assert(tail.subrange(i - 1, i - 1 + q.len() as int) =~= r.subrange(
                        i,
                        i + q.len() as int,
                    ));
                    assert(match_at(tail, q, i - 1));
                    assert(false);
                }
            }
        }
    }
}

proof fn lemma_subst_clears(
    left: Seq<char>,
    right: Seq<char>,
    fields: Seq<(String, Value)>,
    template: Seq<char>,
    current: Seq<char>,
)
    requires
        left.len() > 0,
        right.len() > 0,
        forall|j: int|
            0 <= j < fields.len() ==> contains_seq(
                template,
                placeholder_of(left, fields[j].0@, right),
            ),
        forall|j: int| 0 <= j < fields.len() ==> rendered_of(fields[j].1).len() > 0,
        forall|j: int, k: int|
            0 <= j < fields.len() && 0 <= k < fields.len() ==> char_disjoint(
                rendered_of(fields[j].1),
                placeholder_of(left, fields[k].0@, right),
            ),
    ensures
        subst_fields(left, right, fields, template, current) is Ok,
        forall|j: int|
            0 <= j < fields.len() ==> !contains_seq(
                subst_fields(left, right, fields, template, current)->Ok_0,
                placeholder_of(left, fields[j].0@, right),
            ),
        forall|q: Seq<char>|
            q.len() > 0 && !(#[trigger] contains_seq(current, q)) && (forall|j: int|
                0 <= j < fields.len() ==> char_disjoint(rendered_of(fields[j].1), q))
                ==> !contains_seq(subst_fields(left, right, fields, template, current)->Ok_0, q),
    decreases fields.len(),
{
    lemma_subst_ok_iff(left, right, fields, template, current);
    if fields.len() == 0 {
    } else {
        let pat0 = placeholder_of(left, fields[0].0@, right);
        let rep0 = rendered_of(fields[0].1);
        let next = replaced(current, pat0, rep0);
        let rest = fields.skip(1);
        assert(forall|j: int| 0 <= j < rest.len() ==> rest[j] == fields[j + 1]);
        assert forall|j: int, k: int|
            0 <= j < rest.len() && 0 <= k < rest.len() implies char_disjoint(
            rendered_of(rest[j].1),
            placeholder_of(left, rest[k].0@, right),
        ) by {
            assert(rest[j] == fields[j + 1] && rest[k] == fields[k + 1]);
        }
        lemma_subst_clears(left, right, rest, template, next);
        let out = subst_fields(left, right, rest, template, next)->Ok_0;
        assert(subst_fields(left, right, fields, template, current)->Ok_0 == out);
        // The first field's placeholder is gone once it is replaced, and no
        // later replacement can bring it back.
        lemma_replaced_clears(current, pat0, rep0);
        assert forall|j: int| 0 <= j < rest.len() implies char_disjoint(
            rendered_of(rest[j].1),
            pat0,
        ) by {
            assert(rest[j] == fields[j + 1]);
        }
        assert(!contains_seq(out, pat0));
        assert forall|j: int| 0 <= j < fields.len() implies !contains_seq(
            out,
            placeholder_of(left, fields[j].0@, right),
        ) by {
            if j >= 1 {
                assert(rest[j - 1] == fields[j]);
            }
        }
        assert forall|q: Seq<char>|
            q.len() > 0 && !(#[trigger] contains_seq(current, q)) && (forall|j: int|
                0 <= j < fields.len() ==> char_disjoint(rendered_of(fields[j].1), q)) implies !contains_seq(
            out,
            q,
        ) by {
            assert(char_disjoint(rendered_of(fields[0].1), q));
            lemma_replaced_preserves_absence(current, pat0, rep0, q);
            assert forall|j: int| 0 <= j < rest.len() implies char_disjoint(
                rendered_of(rest[j].1),
                q,
            ) by {
                assert(rest[j] == fields[j + 1]);
            }
            assert(!contains_seq(next, q));
        }
    }
}

/// Law: when every field's placeholder occurs in the template, every field
/// renders to nonempty text, and no rendered text shares a character with
/// any field's placeholder, formatting succeeds and the result contains no
/// remaining occurrence of any field's placeholder.
pub proof fn lemma_no_placeholder_remains(
    left: Seq<char>,
    right: Seq<char>,
    fields: Seq<(String, Value)>,
    template: Seq<char>,
)
    requires
        left.len() > 0,
        right.len() > 0,
        forall|j: int|
            0 <= j < fields.len() ==> contains_seq(
                template,
                placeholder_of(left, fields[j].0@, right),
            ),
        forall|j: int| 0 <= j < fields.len() ==> rendered_of(fields[j].1).len() > 0,
        forall|j: int, k: int|
            0 <= j < fields.len() && 0 <= k < fields.len() ==> char_disjoint(
                rendered_of(fields[j].1),
                placeholder_of(left, fields[k].0@, right),
            ),
    ensures
        spec_format(left, right, fields, template) is Ok,
        forall|j: int|
            0 <= j < fields.len() ==> !contains_seq(
                spec_format(left, right, fields, template)->Ok_0,
                placeholder_of(left, fields[j].0@, right),
            ),
{
    lemma_subst_clears(left, right, fields, template, template);
}

} // verus!
