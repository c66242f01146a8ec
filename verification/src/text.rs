//! Verified character-sequence utilities: whitespace trimming, substring
//! search, and literal substring replacement.

use vstd::prelude::*;
use vstd::string::*;

verus! {

/// The characters of `s`, in order.
pub fn chars_of(s: &str) -> (r: Vec<char>)
    ensures
        r@ == s@,
{
    let n = s.unicode_len();
    let mut r: Vec<char> = Vec::new();
    let mut i: usize = 0;
    while i < n
        invariant
            0 <= i <= n,
            n == s@.len(),
            r@ == s@.take(i as int),
        decreases n - i,
    {
        r.push(s.get_char(i));
        proof {
            assert(s@.take(i + 1 as int) =~= s@.take(i as int).push(s@[i as int]));
        }
        i += 1;
    }
    proof {
        assert(s@.take(n as int) =~= s@);
    }
    r
}

/// Relies on `String`'s `FromIterator<char>` impl: collecting characters
/// yields a string of exactly those characters in order.
#[verifier::external_body]
pub fn string_of_chars(v: &Vec<char>) -> (r: String)
    ensures
        r@ == v@,
{
    v.iter().collect()
}

/// The characters stripped from the ends of extracted text: the Unicode
/// `White_Space` set, as `str::trim` removes it.
pub open spec fn is_space_char(c: char) -> bool {
    let n = c as u32;
    n == 0x9 || n == 0xA || n == 0xB || n == 0xC || n == 0xD || n == 0x20 || n == 0x85 || n == 0xA0
        || n == 0x1680 || (0x2000 <= n && n <= 0x200A) || n == 0x2028 || n == 0x2029 || n == 0x202F
        || n == 0x205F || n == 0x3000
}

/// `s` with its leading whitespace removed.
pub open spec fn trim_start_spec(s: Seq<char>) -> Seq<char>
    decreases s.len(),
{
    if s.len() > 0 && is_space_char(s[0]) {
        trim_start_spec(s.drop_first())
    } else {
        s
    }
}

/// `s` with its trailing whitespace removed.
pub open spec fn trim_end_spec(s: Seq<char>) -> Seq<char>
    decreases s.len(),
{
    if s.len() > 0 && is_space_char(s.last()) {
        trim_end_spec(s.drop_last())
    } else {
        s
    }
}

/// `s` with whitespace removed from both ends.
pub open spec fn trim_spec(s: Seq<char>) -> Seq<char> {
    trim_end_spec(trim_start_spec(s))
}

fn is_space(c: char) -> (r: bool)
    ensures
        r == is_space_char(c),
{
    let n = c as u32;
    n == 0x9 || n == 0xA || n == 0xB || n == 0xC || n == 0xD || n == 0x20 || n == 0x85 || n == 0xA0
        || n == 0x1680 || (0x2000 <= n && n <= 0x200A) || n == 0x2028 || n == 0x2029 || n == 0x202F
        || n == 0x205F || n == 0x3000
}

proof fn lemma_trim_start_skip(s: Seq<char>, i: int)
    requires
        0 <= i <= s.len(),
        forall|j: int| 0 <= j < i ==> is_space_char(s[j]),
        i == s.len() || !is_space_char(s[i]),
    ensures
        trim_start_spec(s) == s.skip(i),
    decreases i,
{
    if i == 0 {
        assert(s.skip(0) =~= s);
    } else {
        assert(is_space_char(s[0]));
        let t = s.drop_first();
        assert(forall|j: int| 0 <= j < i - 1 ==> is_space_char(t[j]));
        lemma_trim_start_skip(t, i - 1);
        assert(t.skip(i - 1) =~= s.skip(i));
    }
}

proof fn lemma_trim_end_take(s: Seq<char>, e: int)
    requires
        0 <= e <= s.len(),
        forall|j: int| e <= j < s.len() ==> is_space_char(s[j]),
        e == 0 || !is_space_char(s[e - 1]),
    ensures
        trim_end_spec(s) == s.take(e),
    decreases s.len() - e,
{
    if e == s.len() {
        assert(s.take(e) =~= s);
    } else {
        assert(is_space_char(s.last()));
        let t = s.drop_last();
        assert(forall|j: int| e <= j < t.len() ==> is_space_char(t[j]));
        lemma_trim_end_take(t, e);
        assert(t.take(e) =~= s.take(e));
    }
}

/// Remove the whitespace at both ends of `v`.
pub fn trim_chars(v: &Vec<char>) -> (r: Vec<char>)
    ensures
        r@ == trim_spec(v@),
{
    let n = v.len();
    let mut start: usize = 0;
    while start < n && is_space(v[start])
        invariant
            0 <= start <= n,
            n == v.len(),
            forall|j: int| 0 <= j < start ==> is_space_char(v@[j]),
        decreases n - start,
    {
        start += 1;
    }
    proof {
        lemma_trim_start_skip(v@, start as int);
    }
    let mut end: usize = n;
    while end > start && is_space(v[end - 1])
        invariant
            start <= end <= n,
            n == v.len(),
            forall|j: int| end <= j < n ==> is_space_char(v@[j]),
        decreases end,
    {
        end -= 1;
    }
    let ghost mid = v@.skip(start as int);
    proof {
        assert(forall|j: int| end - start <= j < mid.len() ==> is_space_char(mid[j]));
        if end > start {
            assert(mid[end - start - 1] == v@[end - 1]);
        }
        lemma_trim_end_take(mid, end - start);
    }
    let mut r: Vec<char> = Vec::new();
    let mut i: usize = start;
    while i < end
        invariant
            start <= i <= end <= n,
            n == v.len(),
            r@ == v@.subrange(start as int, i as int),
        decreases end - i,
    {
        r.push(v[i]);
        proof {
            assert(v@.subrange(start as int, i + 1 as int) =~= v@.subrange(
                start as int,
                i as int,
            ).push(v@[i as int]));
        }
        i += 1;
    }
    proof {
        assert(r@ =~= mid.take(end - start));
    }
    r
}

/// The pattern `p` occurs in `s` starting at index `i`.
pub open spec fn occurs_at(s: Seq<char>, p: Seq<char>, i: int) -> bool {
    0 <= i && i + p.len() <= s.len() && s.subrange(i, i + p.len()) == p
}

/// The pattern `p` occurs somewhere in `s`.
pub open spec fn contains_pat(s: Seq<char>, p: Seq<char>) -> bool {
    exists|i: int| occurs_at(s, p, i)
}

fn matches_at(v: &Vec<char>, p: &Vec<char>, i: usize) -> (b: bool)
    requires
        i + p.len() <= v.len(),
    ensures
        b == occurs_at(v@, p@, i as int),
{
    let mut k: usize = 0;
    while k < p.len()
        invariant
            0 <= k <= p.len(),
            i + p.len() <= v.len(),
            forall|j: int| 0 <= j < k ==> v@[i + j] == p@[j],
        decreases p.len() - k,
    {
        if v[i + k] != p[k] {
            proof {
                assert(v@.subrange(i as int, i + p@.len()) != p@) by {
                    assert(v@.subrange(i as int, i + p@.len())[k as int] == v@[i + k]);
                }
            }
            return false;
        }
        k += 1;
    }
    proof {
        assert(v@.subrange(i as int, i + p@.len()) =~= p@);
    }
    true
}

/// `s` with every occurrence of `p`, found left to right without overlap,
/// replaced by `r`.
pub open spec fn replace_all_spec(s: Seq<char>, p: Seq<char>, r: Seq<char>) -> Seq<char>
    decreases s.len(),
{
    if p.len() == 0 || s.len() < p.len() {
        s
    } else if s.subrange(0, p.len() as int) == p {
        r + replace_all_spec(s.skip(p.len() as int), p, r)
    } else {
        seq![s[0]] + replace_all_spec(s.drop_first(), p, r)
    }
}

/// Append the characters of `src` to `out`.
pub fn push_all(out: &mut Vec<char>, src: &Vec<char>)
    ensures
        final(out)@ == old(out)@ + src@,
{
    let mut k: usize = 0;
    while k < src.len()
        invariant
            0 <= k <= src.len(),
            out@ == old(out)@ + src@.take(k as int),
        decreases src.len() - k,
    {
        out.push(src[k]);
        proof {
            assert(old(out)@ + src@.take(k + 1 as int) =~= (old(out)@ + src@.take(k as int)).push(
                src@[k as int],
            ));
        }
        k += 1;
    }
    proof {
        assert(old(out)@ + src@.take(src@.len() as int) =~= old(out)@ + src@);
    }
}

/// Replace every occurrence of `p` in `v` (scanning left to right, without
/// overlap) by `r`.
pub fn replace_all(v: &Vec<char>, p: &Vec<char>, r: &Vec<char>) -> (out: Vec<char>)
    requires
        p.len() > 0,
    ensures
        out@ == replace_all_spec(v@, p@, r@),
{
    let mut out: Vec<char> = Vec::new();
    let mut i: usize = 0;
    proof {
        assert(v@.skip(0) =~= v@);
        assert(Seq::<char>::empty() + replace_all_spec(v@, p@, r@) =~= replace_all_spec(
            v@,
            p@,
            r@,
        ));
    }
    while i < v.len()
        invariant
            0 <= i <= v.len(),
            p.len() > 0,
            replace_all_spec(v@, p@, r@) == out@ + replace_all_spec(v@.skip(i as int), p@, r@),
        decreases v.len() - i,
    {
        let ghost pre = out@;
        let ghost tail = v@.skip(i as int);
        if p.len() <= v.len() - i && matches_at(v, p, i) {
            proof {
                assert(tail.subrange(0, p@.len() as int) =~= v@.subrange(i as int, i + p@.len()));
                assert(tail.skip(p@.len() as int) =~= v@.skip(i + p@.len()));
            }
            push_all(&mut out, r);
            i += p.len();
            proof {
                assert(out@ + replace_all_spec(v@.skip(i as int), p@, r@) =~= pre
                    + replace_all_spec(tail, p@, r@));
            }
        } else {
            proof {
                if tail.len() >= p@.len() {
                    assert(tail.subrange(0, p@.len() as int) =~= v@.subrange(
                        i as int,
                        i + p@.len(),
                    ));
                    assert(tail.subrange(0, p@.len() as int) != p@);
                }
                assert(tail.drop_first() =~= v@.skip(i + 1));
                assert(seq![tail[0]] =~= v@.subrange(i as int, i + 1));
            }
            out.push(v[i]);
            i += 1;
            proof {
                assert(out@ + replace_all_spec(v@.skip(i as int), p@, r@) =~= pre + (seq![
                    tail[0],
                ] + replace_all_spec(tail.drop_first(), p@, r@)));
            }
        }
    }
    proof {
        assert(v@.skip(v@.len() as int) =~= Seq::<char>::empty());
        assert(out@ + Seq::<char>::empty() =~= out@);
    }
    out
}

/// `a` is a prefix of `b`.
pub open spec fn is_prefix(a: Seq<char>, b: Seq<char>) -> bool {
    a.len() <= b.len() && b.take(a.len() as int) == a
}

/// No nonempty proper suffix of `q` is a prefix of `r`.
pub open spec fn no_tail_prefix(q: Seq<char>, r: Seq<char>) -> bool {
    forall|k: int|
        1 <= k < q.len() && q.len() - k <= r.len() ==> q.subrange(k, q.len() as int) != r.subrange(
            0,
            q.len() - k,
        )
}

/// No nonempty proper prefix of `q` is a proper suffix of `r`.
pub open spec fn no_head_suffix(q: Seq<char>, r: Seq<char>) -> bool {
    forall|k: int|
        1 <= k < q.len() && k < r.len() ==> q.subrange(0, k) != r.subrange(
            r.len() - k,
            r.len() as int,
        )
}

/// Replacing a pattern that does not occur changes nothing.
pub proof fn lemma_replace_identity(s: Seq<char>, p: Seq<char>, r: Seq<char>)
    requires
        p.len() > 0,
        !contains_pat(s, p),
    ensures
        replace_all_spec(s, p, r) == s,
    decreases s.len(),
{
    if s.len() < p.len() {
    } else {
        assert(!occurs_at(s, p, 0));
        assert(s.subrange(0, p.len() as int) != p);
        assert(!contains_pat(s.drop_first(), p)) by {
            assert forall|i: int| !occurs_at(s.drop_first(), p, i) by {
                if 0 <= i && i + p.len() <= s.drop_first().len() {
                    assert(s.subrange(i + 1, i + 1 + p.len()) =~= s.drop_first().subrange(
                        i,
                        i + p.len(),
                    ));
                    assert(!occurs_at(s, p, i + 1));
                }
            }
        }
        lemma_replace_identity(s.drop_first(), p, r);
        assert(replace_all_spec(s, p, r) =~= s);
    }
}

proof fn lemma_ra_prefix(s: Seq<char>, p: Seq<char>, r: Seq<char>, q: Seq<char>, m: int)
    requires
        p.len() > 0,
        r.len() > 0,
        1 <= m < q.len(),
        no_tail_prefix(q, r),
        !contains_pat(q, r),
        is_prefix(q.subrange(m, q.len() as int), replace_all_spec(s, p, r)),
    ensures
        is_prefix(q.subrange(m, q.len() as int), s),
    decreases s.len(),
{
    let out = replace_all_spec(s, p, r);
    let qm = q.subrange(m, q.len() as int);
    if s.len() < p.len() {
    } else if s.subrange(0, p.len() as int) == p {
        let t = replace_all_spec(s.skip(p.len() as int), p, r);
        assert(out == r + t);
        if qm.len() <= r.len() {
            assert(qm =~= r.subrange(0, q.len() - m)) by {
                assert forall|idx: int| 0 <= idx < qm.len() implies qm[idx] == r.subrange(
                    0,
                    q.len() - m,
                )[idx] by {
                    assert(out.take(qm.len() as int)[idx] == (r + t)[idx]);
                }
            }
            assert(false);
        } else {
            assert(occurs_at(q, r, m)) by {
                assert(q.subrange(m, m + r.len()) =~= r) by {
                    assert forall|idx: int| 0 <= idx < r.len() implies q.subrange(
                        m,
                        m + r.len(),
                    )[idx] == r[idx] by {
                        assert(qm[idx] == out.take(qm.len() as int)[idx]);
                        assert(out[idx] == (r + t)[idx]);
                    }
                }
            }
            assert(false);
        }
    } else {
        let t = replace_all_spec(s.drop_first(), p, r);
        assert(out == seq![s[0]] + t);
        assert(qm[0] == out[0]) by {
            assert(qm[0] == out.take(qm.len() as int)[0]);
        }
        assert(qm[0] == s[0]);
        if q.len() - m == 1 {
            assert(s.take(1) =~= qm);
        } else {
            assert(is_prefix(q.subrange(m + 1, q.len() as int), t)) by {
                assert(q.subrange(m + 1, q.len() as int) =~= qm.drop_first());
                assert forall|idx: int| 0 <= idx < qm.len() - 1 implies qm.drop_first()[idx]
                    == t.take(qm.len() - 1)[idx] by {
                    assert(qm[idx + 1] == out.take(qm.len() as int)[idx + 1]);
                    assert(out[idx + 1] == (seq![s[0]] + t)[idx + 1]);
                }
                assert(qm.drop_first() =~= t.take(qm.len() - 1));
            }
            lemma_ra_prefix(s.drop_first(), p, r, q, m + 1);
            assert(s.take(q.len() - m) =~= qm) by {
                assert(s.drop_first().take(q.len() - (m + 1)) == q.subrange(
                    m + 1,
                    q.len() as int,
                ));
                assert forall|idx: int| 0 <= idx < q.len() - m implies s.take(q.len() - m)[idx]
                    == qm[idx] by {
                    if idx > 0 {
                        assert(s.drop_first().take(q.len() - (m + 1))[idx - 1] == q.subrange(
                            m + 1,
                            q.len() as int,
                        )[idx - 1]);
                    }
                }
            }
        }
    }
}

/// After replacing `p` by `r`, the pattern `q` does not occur, provided the
/// boundary conditions hold and `q` either is `p` or was absent before.
pub proof fn lemma_ra_no_pat(s: Seq<char>, p: Seq<char>, r: Seq<char>, q: Seq<char>)
    requires
        p.len() > 0,
        r.len() > 0,
        q.len() > 0,
        no_tail_prefix(q, r),
        no_head_suffix(q, r),
        !contains_pat(q, r),
        !contains_pat(r, q),
        q == p || !contains_pat(s, q),
    ensures
        !contains_pat(replace_all_spec(s, p, r), q),
    decreases s.len(),
{
    let out = replace_all_spec(s, p, r);
    if s.len() < p.len() {
        if q == p {
            assert forall|j: int| !occurs_at(out, q, j) by {}
        }
    } else if s.subrange(0, p.len() as int) == p {
        let s2 = s.skip(p.len() as int);
        let t = replace_all_spec(s2, p, r);
        assert(out == r + t);
        if q != p {
            assert(!contains_pat(s2, q)) by {
                assert forall|i: int| !occurs_at(s2, q, i) by {
                    if 0 <= i && i + q.len() <= s2.len() {
                        assert(s.subrange(i + p.len(), i + p.len() + q.len()) =~= s2.subrange(
                            i,
                            i + q.len(),
                        ));
                        assert(!occurs_at(s, q, i + p.len()));
                    }
                }
            }
        }
        lemma_ra_no_pat(s2, p, r, q);
        assert forall|j: int| !occurs_at(out, q, j) by {
            if 0 <= j && j + q.len() <= out.len() {
                if j + q.len() <= r.len() {
                    assert(r.subrange(j, j + q.len()) =~= out.subrange(j, j + q.len()));
                    assert(!occurs_at(r, q, j));
                } else if j >= r.len() {
                    assert(t.subrange(j - r.len(), j - r.len() + q.len()) =~= out.subrange(
                        j,
                        j + q.len(),
                    ));
                    assert(!occurs_at(t, q, j - r.len()));
                } else {
                    if occurs_at(out, q, j) {
                        let k = r.len() - j;
                        assert(q.subrange(0, k) =~= r.subrange(r.len() - k, r.len() as int)) by {
                            assert forall|idx: int| 0 <= idx < k implies q.subrange(0, k)[idx]
                                == r.subrange(r.len() - k, r.len() as int)[idx] by {
                                assert(out.subrange(j, j + q.len())[idx] == out[j + idx]);
                                assert(out[j + idx] == (r + t)[j + idx]);
                            }
                        }
                        if j == 0 {
                            assert(occurs_at(q, r, 0)) by {
                                assert(q.subrange(0, r.len() as int) =~= r);
                            }
                            assert(false);
                        } else {
                            assert(1 <= k < q.len() && k < r.len());
                            assert(false);
                        }
                    }
                }
            }
        }
    } else {
        let t = replace_all_spec(s.drop_first(), p, r);
        assert(out == seq![s[0]] + t);
        if q != p {
            assert(!contains_pat(s.drop_first(), q)) by {
                assert forall|i: int| !occurs_at(s.drop_first(), q, i) by {
                    if 0 <= i && i + q.len() <= s.drop_first().len() {
                        assert(s.subrange(i + 1, i + 1 + q.len()) =~= s.drop_first().subrange(
                            i,
                            i + q.len(),
                        ));
                        assert(!occurs_at(s, q, i + 1));
                    }
                }
            }
        }
        lemma_ra_no_pat(s.drop_first(), p, r, q);
        assert forall|j: int| !occurs_at(out, q, j) by {
            if 0 <= j && j + q.len() <= out.len() {
                if j >= 1 {
                    assert(t.subrange(j - 1, j - 1 + q.len()) =~= out.subrange(j, j + q.len()));
                    assert(!occurs_at(t, q, j - 1));
                } else {
                    if occurs_at(out, q, 0) {
                        assert(q[0] == s[0]) by {
                            assert(out.subrange(0, q.len() as int)[0] == out[0]);
                        }
                        if q.len() == 1 {
                            assert(occurs_at(s, q, 0)) by {
                                assert(s.subrange(0, 1) =~= q);
                            }
                            assert(false);
                        } else {
                            assert(is_prefix(q.subrange(1, q.len() as int), t)) by {
                                assert forall|idx: int| 0 <= idx < q.len() - 1 implies q.subrange(
                                    1,
                                    q.len() as int,
                                )[idx] == t.take(q.len() - 1)[idx] by {
                                    assert(out.subrange(0, q.len() as int)[idx + 1] == out[idx
                                        + 1]);
                                    assert(out[idx + 1] == (seq![s[0]] + t)[idx + 1]);
                                }
                                assert(q.subrange(1, q.len() as int) =~= t.take(q.len() - 1));
                            }
                            lemma_ra_prefix(s.drop_first(), p, r, q, 1);
                            assert(occurs_at(s, q, 0)) by {
                                assert(s.drop_first().take(q.len() - 1) == q.subrange(
                                    1,
                                    q.len() as int,
                                ));
                                assert(s.subrange(0, q.len() as int) =~= q) by {
                                    assert forall|idx: int| 0 <= idx < q.len() implies s.subrange(
                                        0,
                                        q.len() as int,
                                    )[idx] == q[idx] by {
                                        if idx > 0 {
                                            assert(s.drop_first().take(q.len() - 1)[idx - 1]
                                                == q.subrange(1, q.len() as int)[idx - 1]);
                                        }
                                    }
                                }
                            }
                            assert(false);
                        }
                    }
                }
            }
        }
    }
}

} // verus!
