//! Splitting text into lines the way `str::lines` does, and joining lines
//! back together.

use vstd::prelude::*;

use crate::text::push_char;

verus! {

/// The index of the first line feed in `s`, or its length when there is none.
pub open spec fn newline_at(s: Seq<char>) -> nat
    decreases s.len(),
{
    if s.len() == 0 || s[0] == '\n' {
        0
    } else {
        1 + newline_at(s.drop_first())
    }
}

/// A line without the carriage return that ends it, if one does.
pub open spec fn strip_cr(line: Seq<char>) -> Seq<char> {
    if line.len() > 0 && line.last() == '\r' {
        line.drop_last()
    } else {
        line
    }
}

/// The lines of `s` as `str::lines` yields them: the text is cut after each
/// line feed, the line feed and a carriage return right before it are
/// dropped, and a final line feed does not start another line.
pub open spec fn text_lines(s: Seq<char>) -> Seq<Seq<char>>
    decreases s.len(),
{
    if s.len() == 0 {
        seq![]
    } else {
        let k = newline_at(s) as int;
        if k >= s.len() {
            seq![s]
        } else {
            seq![strip_cr(s.take(k))] + text_lines(s.skip(k + 1))
        }
    }
}

/// Lines put together with a line feed between each two, as
/// `[&str]::join("\n")` does.
pub open spec fn join_lines(lines: Seq<Seq<char>>) -> Seq<char>
    decreases lines.len(),
{
    if lines.len() == 0 {
        seq![]
    } else if lines.len() == 1 {
        lines[0]
    } else {
        join_lines(lines.drop_last()) + seq!['\n'] + lines.last()
    }
}

proof fn lemma_newline_at(s: Seq<char>, k: int)
    requires
        0 <= k <= s.len(),
        forall|i: int| 0 <= i < k ==> s[i] != '\n',
        k == s.len() || s[k] == '\n',
    ensures
        newline_at(s) == k,
    decreases k,
{
    if k > 0 {
        lemma_newline_at(s.drop_first(), k - 1);
    }
}

/// Where each line of `cs` starts and ends: line `i` of `text_lines(cs@)` is
/// `cs@.subrange(r[i].0, r[i].1)`.
pub fn line_ranges(cs: &Vec<char>) -> (r: Vec<(usize, usize)>)
    ensures
        r.len() == text_lines(cs@).len(),
        forall|i: int|
            0 <= i < r.len() ==> {
                &&& 0 <= (#[trigger] r[i]).0 <= r[i].1 <= cs.len()
                &&& cs@.subrange(r[i].0 as int, r[i].1 as int) == text_lines(cs@)[i]
            },
{
    let mut r: Vec<(usize, usize)> = Vec::new();
    let ghost mut done: Seq<Seq<char>> = seq![];
    let mut pos: usize = 0;
    assert(cs@.skip(0) == cs@);
    while pos < cs.len()
        invariant
            pos <= cs.len(),
            r.len() == done.len(),
            forall|i: int|
                0 <= i < r.len() ==> {
                    &&& 0 <= (#[trigger] r[i]).0 <= r[i].1 <= cs.len()
                    &&& cs@.subrange(r[i].0 as int, r[i].1 as int) == done[i]
                },
            done + text_lines(cs@.skip(pos as int)) == text_lines(cs@),
        decreases cs.len() - pos,
    {
        let ghost t = cs@.skip(pos as int);
        let mut j = pos;
        while j < cs.len() && cs[j] != '\n'
            invariant
                pos <= j <= cs.len(),
                t == cs@.skip(pos as int),
                forall|i: int| pos <= i < j ==> cs@[i] != '\n',
            decreases cs.len() - j,
        {
            j = j + 1;
        }
        proof {
            lemma_newline_at(t, j - pos);
        }
        if j == cs.len() {
            r.push((pos, j));
            proof {
                assert(cs@.subrange(pos as int, j as int) == t);
                done = done.push(t);
                assert(text_lines(t) == seq![t]);
                assert(cs@.skip(j as int).len() == 0);
                assert(text_lines(cs@.skip(j as int)) == Seq::<Seq<char>>::empty());
                assert(done + text_lines(cs@.skip(j as int)) == done);
            }
            pos = j;
        } else {
            let end = if j > pos && cs[j - 1] == '\r' {
                j - 1
            } else {
                j
            };
            r.push((pos, end));
            proof {
                let line = t.take(j - pos);
                assert(cs@.subrange(pos as int, end as int) == strip_cr(line));
                assert(t.skip(j - pos + 1) == cs@.skip(j + 1));
                assert(text_lines(t) == seq![strip_cr(line)] + text_lines(cs@.skip(j + 1)));
                let old_done = done;
                done = done.push(strip_cr(line));
                assert(done + text_lines(cs@.skip(j + 1)) == old_done + text_lines(t));
            }
            pos = j + 1;
        }
    }
    proof {
        assert(cs@.skip(pos as int).len() == 0);
        assert(text_lines(cs@.skip(pos as int)) == Seq::<Seq<char>>::empty());
        assert(done + Seq::<Seq<char>>::empty() == done);
    }
    r
}

/// Appends `cs[start..end]` to `out`.
pub fn push_range(out: &mut String, cs: &Vec<char>, start: usize, end: usize)
    requires
        start <= end <= cs.len(),
    ensures
        final(out)@ == old(out)@ + cs@.subrange(start as int, end as int),
{
    let mut i = start;
    while i < end
        invariant
            start <= i <= end <= cs.len(),
            out@ == old(out)@ + cs@.subrange(start as int, i as int),
        decreases end - i,
    {
        push_char(out, cs[i]);
        i = i + 1;
        assert(cs@.subrange(start as int, i as int) == cs@.subrange(start as int, i - 1 as int)
            + seq![cs@[i - 1]]);
    }
}

/// Appends the lines `first..last` of `cs`, as `line_ranges` found them,
/// joined by line feeds.
pub fn push_joined_lines(
    out: &mut String,
    cs: &Vec<char>,
    ranges: &Vec<(usize, usize)>,
    first: usize,
    last: usize,
)
    requires
        first <= last <= ranges.len(),
        ranges.len() == text_lines(cs@).len(),
        forall|i: int|
            0 <= i < ranges.len() ==> {
                &&& 0 <= (#[trigger] ranges[i]).0 <= ranges[i].1 <= cs.len()
                &&& cs@.subrange(ranges[i].0 as int, ranges[i].1 as int) == text_lines(cs@)[i]
            },
    ensures
        final(out)@ == old(out)@ + join_lines(
            text_lines(cs@).subrange(first as int, last as int),
        ),
{
    let ghost lines = text_lines(cs@);
    let mut i = first;
    while i < last
        invariant
            first <= i <= last <= ranges.len(),
            lines == text_lines(cs@),
            ranges.len() == lines.len(),
            forall|k: int|
                0 <= k < ranges.len() ==> {
                    &&& 0 <= (#[trigger] ranges[k]).0 <= ranges[k].1 <= cs.len()
                    &&& cs@.subrange(ranges[k].0 as int, ranges[k].1 as int) == lines[k]
                },
            out@ == old(out)@ + join_lines(lines.subrange(first as int, i as int)),
        decreases last - i,
    {
        if i > first {
            push_char(out, '\n');
        }
        let (s, e) = ranges[i];
        push_range(out, cs, s, e);
        proof {
            let prev = lines.subrange(first as int, i as int);
            let next = lines.subrange(first as int, i + 1 as int);
            assert(next.drop_last() == prev);
            assert(next.last() == lines[i as int]);
            if i == first {
                assert(prev.len() == 0);
                assert(next.len() == 1);
            }
        }
        i = i + 1;
    }
}

proof fn lemma_newline_at_props(s: Seq<char>)
    ensures
        newline_at(s) <= s.len(),
        forall|i: int| 0 <= i < newline_at(s) ==> s[i] != '\n',
        newline_at(s) < s.len() ==> s[newline_at(s) as int] == '\n',
    decreases s.len(),
{
    if s.len() > 0 && s[0] != '\n' {
        let t = s.drop_first();
        lemma_newline_at_props(t);
        assert forall|i: int| 0 <= i < newline_at(s) implies s[i] != '\n' by {
            if i > 0 {
                assert(s[i] == t[i - 1]);
            }
        }
    }
}

proof fn lemma_join_prepend(a: Seq<char>, lines: Seq<Seq<char>>)
    requires
        lines.len() > 0,
    ensures
        join_lines(seq![a] + lines) == a + seq!['\n'] + join_lines(lines),
    decreases lines.len(),
{
    let all = seq![a] + lines;
    assert(all.drop_last() == seq![a] + lines.drop_last());
    assert(all.last() == lines.last());
    if lines.len() == 1 {
        assert(seq![a] + lines.drop_last() == seq![a]);
        assert(join_lines(seq![a]) == a);
    } else {
        lemma_join_prepend(a, lines.drop_last());
    }
}

/// Splitting a text without carriage returns into lines and joining them
/// again gives the text back, less a final line feed: a file read whole
/// comes back as it is.
pub proof fn lemma_join_text_lines(s: Seq<char>)
    requires
        forall|i: int| 0 <= i < s.len() ==> s[i] != '\r',
    ensures
        join_lines(text_lines(s)) == if s.len() > 0 && s.last() == '\n' {
            s.drop_last()
        } else {
            s
        },
    decreases s.len(),
{
    if s.len() > 0 {
        lemma_newline_at_props(s);
        let k = newline_at(s) as int;
        if k < s.len() {
            let line = s.take(k);
            let rest = s.skip(k + 1);
            if line.len() > 0 {
                assert(line.last() == s[k - 1]);
            }
            assert(strip_cr(line) == line);
            assert(text_lines(s) == seq![line] + text_lines(rest));
            if rest.len() == 0 {
                assert(text_lines(rest) == Seq::<Seq<char>>::empty());
                assert(seq![line] + Seq::<Seq<char>>::empty() == seq![line]);
                assert(s.drop_last() == line);
            } else {
                lemma_join_text_lines(rest);
                lemma_newline_at_props(rest);
                assert(text_lines(rest).len() > 0);
                lemma_join_prepend(line, text_lines(rest));
                assert(rest.last() == s.last());
                if s.last() == '\n' {
                    assert(line + seq!['\n'] + rest.drop_last() == s.drop_last());
                } else {
                    assert(line + seq!['\n'] + rest == s);
                }
            }
        } else {
            assert(text_lines(s) == seq![s]);
            assert(s[s.len() - 1] != '\n');
        }
    }
}

} // verus!
