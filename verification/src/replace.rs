//! Finding and replacing a literal substring, as `str::contains`,
//! `str::replace`, `str::replacen` and `str::matches` do.

use vstd::prelude::*;

use crate::text::{push_char, string_of};

verus! {

/// Whether `pat` occurs in `s` starting at index `i`.
pub open spec fn occurs_at(s: Seq<char>, pat: Seq<char>, i: int) -> bool {
    0 <= i && i + pat.len() <= s.len() && s.subrange(i, i + pat.len()) == pat
}

/// Whether `pat` occurs anywhere in `s`.
pub open spec fn contains_text(s: Seq<char>, pat: Seq<char>) -> bool {
    exists|i: int| occurs_at(s, pat, i)
}

/// The first index at or after `i` where `pat` occurs in `s`, or -1.
pub open spec fn occurrence_from(s: Seq<char>, pat: Seq<char>, i: int) -> int
    decreases s.len() + 1 - i,
{
    if i < 0 || i + pat.len() > s.len() {
        -1
    } else if occurs_at(s, pat, i) {
        i
    } else {
        occurrence_from(s, pat, i + 1)
    }
}

/// `s` with its first occurrence of `pat` replaced by `rep`; `s` itself when
/// `pat` does not occur.
pub open spec fn replace_first(s: Seq<char>, pat: Seq<char>, rep: Seq<char>) -> Seq<char> {
    let i = occurrence_from(s, pat, 0);
    if i < 0 {
        s
    } else {
        s.take(i) + rep + s.skip(i + pat.len())
    }
}

/// `s` with every occurrence of `pat` replaced by `rep`, taking occurrences
/// from left to right without overlap. An empty `pat` occurs before every
/// character and at the end.
pub open spec fn replace_all(s: Seq<char>, pat: Seq<char>, rep: Seq<char>) -> Seq<char>
    decreases s.len(),
{
    if pat.len() == 0 {
        if s.len() == 0 {
            rep
        } else {
            rep + seq![s[0]] + replace_all(s.drop_first(), pat, rep)
        }
    } else if s.len() == 0 {
        seq![]
    } else if occurs_at(s, pat, 0) {
        rep + replace_all(s.skip(pat.len() as int), pat, rep)
    } else {
        seq![s[0]] + replace_all(s.drop_first(), pat, rep)
    }
}

/// How many occurrences `replace_all` replaces.
pub open spec fn count_matches(s: Seq<char>, pat: Seq<char>) -> nat
    decreases s.len(),
{
    if pat.len() == 0 {
        s.len() + 1
    } else if s.len() == 0 {
        0
    } else if occurs_at(s, pat, 0) {
        1 + count_matches(s.skip(pat.len() as int), pat)
    } else {
        count_matches(s.drop_first(), pat)
    }
}

/// Whether `pat` occurs in `cs` at index `i`.
pub fn matches_at(cs: &Vec<char>, pat: &Vec<char>, i: usize) -> (r: bool)
    requires
        i <= cs.len(),
    ensures
        r == occurs_at(cs@, pat@, i as int),
{
    if pat.len() > cs.len() - i {
        return false;
    }
    let mut k: usize = 0;
    while k < pat.len()
        invariant
            i + pat.len() <= cs.len(),
            k <= pat.len(),
            forall|j: int| 0 <= j < k ==> cs@[i + j] == pat@[j],
        decreases pat.len() - k,
    {
        if cs[i + k] != pat[k] {
            assert(cs@.subrange(i as int, i + pat.len())[k as int] != pat@[k as int]);
            return false;
        }
        k = k + 1;
    }
    assert(cs@.subrange(i as int, i + pat.len()) == pat@);
    true
}

/// The first index where `pat` occurs in `cs`, if any.
pub fn find_text(cs: &Vec<char>, pat: &Vec<char>) -> (r: Option<usize>)
    ensures
        match r {
            Some(i) => i == occurrence_from(cs@, pat@, 0) && occurs_at(cs@, pat@, i as int),
            None => occurrence_from(cs@, pat@, 0) == -1 && !contains_text(cs@, pat@),
        },
{
    if pat.len() > cs.len() {
        assert(!contains_text(cs@, pat@));
        return None;
    }
    if pat.len() == 0 {
        assert(cs@.subrange(0, 0) == pat@);
        return Some(0);
    }
    let last = cs.len() - pat.len();
    let mut i: usize = 0;
    while i <= last
        invariant
            last + pat.len() == cs.len(),
            pat.len() > 0,
            i <= last + 1,
            occurrence_from(cs@, pat@, 0) == occurrence_from(cs@, pat@, i as int),
            forall|j: int| 0 <= j < i ==> !occurs_at(cs@, pat@, j),
        decreases last + 1 - i,
    {
        if matches_at(cs, pat, i) {
            return Some(i);
        }
        i = i + 1;
    }
    assert forall|j: int| !occurs_at(cs@, pat@, j) by {
        if 0 <= j && j + pat.len() <= cs.len() {
            assert(j < i);
        }
    }
    None
}

/// Replaces every occurrence of `pat` in `cs` by `rep` and counts them.
pub fn replace_every(cs: &Vec<char>, pat: &Vec<char>, rep: &Vec<char>) -> (r: (String, usize))
    requires
        cs.len() < usize::MAX,
    ensures
        r.0@ == replace_all(cs@, pat@, rep@),
        r.1 == count_matches(cs@, pat@),
{
    let mut out = String::new();
    let mut count: usize = 0;
    let mut pos: usize = 0;
    assert(cs@.skip(0) == cs@);
    if pat.len() == 0 {
        while pos < cs.len()
            invariant
                pos <= cs.len() < usize::MAX,
                pat@.len() == 0,
                count == pos,
                out@ + replace_all(cs@.skip(pos as int), pat@, rep@) == replace_all(
                    cs@,
                    pat@,
                    rep@,
                ),
                count + count_matches(cs@.skip(pos as int), pat@) == count_matches(cs@, pat@),
            decreases cs.len() - pos,
        {
            let ghost t = cs@.skip(pos as int);
            assert(t.drop_first() == cs@.skip(pos + 1));
            let copy = string_of(rep);
            out.append(copy.as_str());
            push_char(&mut out, cs[pos]);
            pos = pos + 1;
            count = count + 1;
            assert(out@ + replace_all(cs@.skip(pos as int), pat@, rep@) == replace_all(
                cs@,
                pat@,
                rep@,
            ));
        }
        let copy = string_of(rep);
        out.append(copy.as_str());
        count = count + 1;
        assert(cs@.skip(pos as int).len() == 0);
        return (out, count);
    }
    while pos < cs.len()
        invariant
            pos <= cs.len() < usize::MAX,
            pat@.len() > 0,
            count <= pos,
            out@ + replace_all(cs@.skip(pos as int), pat@, rep@) == replace_all(cs@, pat@, rep@),
            count + count_matches(cs@.skip(pos as int), pat@) == count_matches(cs@, pat@),
        decreases cs.len() - pos,
    {
        let ghost t = cs@.skip(pos as int);
        if matches_at(cs, pat, pos) {
            assert(occurs_at(t, pat@, 0)) by {
                assert(t.subrange(0, pat@.len() as int) == cs@.subrange(
                    pos as int,
                    pos + pat@.len(),
                ));
            }
            assert(t.skip(pat@.len() as int) == cs@.skip(pos + pat@.len()));
            let copy = string_of(rep);
            out.append(copy.as_str());
            pos = pos + pat.len();
            count = count + 1;
        } else {
            assert(!occurs_at(t, pat@, 0)) by {
                if t.len() >= pat@.len() {
                    assert(t.subrange(0, pat@.len() as int) == cs@.subrange(
                        pos as int,
                        pos + pat@.len(),
                    ));
                }
            }
            assert(t.drop_first() == cs@.skip(pos + 1));
            push_char(&mut out, cs[pos]);
            pos = pos + 1;
        }
    }
    assert(cs@.skip(pos as int).len() == 0);
    (out, count)
}

/// Replaces the first occurrence of `pat` in `cs` by `rep`.
pub fn replace_once(cs: &Vec<char>, pat: &Vec<char>, rep: &Vec<char>) -> (r: String)
    ensures
        r@ == replace_first(cs@, pat@, rep@),
{
    match find_text(cs, pat) {
        None => string_of(cs),
        Some(i) => {
            let mut out = String::new();
            let mut k: usize = 0;
            while k < i
                invariant
                    k <= i,
                    i + pat.len() <= cs.len(),
                    out@ == cs@.take(k as int),
                decreases i - k,
            {
                push_char(&mut out, cs[k]);
                k = k + 1;
                assert(cs@.take(k as int) == cs@.take(k - 1 as int).push(cs@[k - 1]));
            }
            let copy = string_of(rep);
            out.append(copy.as_str());
            let mut k = i + pat.len();
            let ghost mid = out@;
            while k < cs.len()
                invariant
                    i + pat.len() <= k <= cs.len(),
                    out@ == mid + cs@.subrange(i + pat.len(), k as int),
                decreases cs.len() - k,
            {
                push_char(&mut out, cs[k]);
                k = k + 1;
                assert(cs@.subrange(i + pat.len(), k as int) == cs@.subrange(
                    i + pat.len(),
                    k - 1 as int,
                ).push(cs@[k - 1]));
            }
            assert(cs@.subrange(i + pat.len(), cs.len() as int) == cs@.skip(i + pat.len()));
            out
        },
    }
}

/// Replacing a string by itself changes nothing, whether the first
/// occurrence or every occurrence is replaced.
pub proof fn lemma_replace_with_itself(s: Seq<char>, pat: Seq<char>)
    ensures
        replace_all(s, pat, pat) == s,
        replace_first(s, pat, pat) == s,
    decreases s.len(),
{
    if pat.len() == 0 {
        if s.len() > 0 {
            lemma_replace_with_itself(s.drop_first(), pat);
            assert(seq![s[0]] + s.drop_first() == s);
        }
    } else if s.len() > 0 {
        if occurs_at(s, pat, 0) {
            lemma_replace_with_itself(s.skip(pat.len() as int), pat);
            assert(s.subrange(0, pat.len() as int) + s.skip(pat.len() as int) == s);
        } else {
            lemma_replace_with_itself(s.drop_first(), pat);
            assert(seq![s[0]] + s.drop_first() == s);
        }
    }
    let i = occurrence_from(s, pat, 0);
    if i >= 0 {
        lemma_occurrence_from(s, pat, 0);
        assert(s.take(i) + pat + s.skip(i + pat.len()) == s) by {
            assert(s.subrange(i, i + pat.len()) == pat);
            assert(s == s.take(i) + s.subrange(i, i + pat.len()) + s.skip(i + pat.len()));
        }
    }
}

/// `occurrence_from` finds an occurrence, and the first one from `i` on.
pub proof fn lemma_occurrence_from(s: Seq<char>, pat: Seq<char>, i: int)
    requires
        0 <= i,
    ensures
        occurrence_from(s, pat, i) >= 0 ==> i <= occurrence_from(s, pat, i) && occurs_at(
            s,
            pat,
            occurrence_from(s, pat, i),
        ),
        forall|j: int|
            i <= j && (occurrence_from(s, pat, i) < 0 || j < occurrence_from(s, pat, i))
                ==> !#[trigger] occurs_at(s, pat, j),
    decreases s.len() + 1 - i,
{
    if i + pat.len() <= s.len() && !occurs_at(s, pat, i) {
        lemma_occurrence_from(s, pat, i + 1);
    }
}

/// Where the pattern does not occur, no replacement changes the text and
/// none is counted.
pub proof fn lemma_replace_absent(s: Seq<char>, pat: Seq<char>, rep: Seq<char>)
    requires
        pat.len() > 0,
        !contains_text(s, pat),
    ensures
        replace_all(s, pat, rep) == s,
        count_matches(s, pat) == 0,
        replace_first(s, pat, rep) == s,
    decreases s.len(),
{
    lemma_occurrence_from(s, pat, 0);
    if s.len() > 0 {
        assert(!occurs_at(s, pat, 0));
        let t = s.drop_first();
        assert forall|j: int| !occurs_at(t, pat, j) by {
            if occurs_at(t, pat, j) {
                assert(t.subrange(j, j + pat.len()) == s.subrange(j + 1, j + 1 + pat.len()));
                assert(occurs_at(s, pat, j + 1));
            }
        }
        lemma_replace_absent(t, pat, rep);
        assert(seq![s[0]] + t == s);
    }
}

} // verus!
