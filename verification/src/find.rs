//! The `find_files` tool's glob pattern and the text of its result. Walking
//! the file system for the pattern happens around these.

use vstd::prelude::*;

use crate::lines::join_lines;
use crate::text::{owned, push_char, push_str};
use crate::tool::{ToolError, ToolOutput};

verus! {

/// The most paths that `find_files` lists.
pub const MAX_FIND_RESULTS: usize = 200;

/// `s` without its trailing slashes, as `trim_end_matches('/')` leaves it.
pub open spec fn without_trailing_slashes(s: Seq<char>) -> Seq<char>
    decreases s.len(),
{
    if s.len() > 0 && s.last() == '/' {
        without_trailing_slashes(s.drop_last())
    } else {
        s
    }
}

/// The glob pattern that `find_files` searches: the pattern under the base
/// directory when one is given.
pub open spec fn full_pattern_text(pattern: Seq<char>, base: Option<Seq<char>>) -> Seq<char> {
    match base {
        Some(b) => without_trailing_slashes(b) + "/"@ + pattern,
        None => pattern,
    }
}

/// Puts the pattern under the base directory, if one is given.
pub fn full_glob_pattern(pattern: &str, base: Option<&str>) -> (r: String)
    ensures
        r@ == full_pattern_text(pattern@, match base {
            Some(b) => Some(b@),
            None => None,
        }),
{
    match base {
        None => owned(pattern),
        Some(b) => {
            let cs = crate::text::chars_of(b);
            let mut end = cs.len();
            assert(cs@.take(end as int) == cs@);
            while end > 0 && cs[end - 1] == '/'
                invariant
                    end <= cs.len(),
                    without_trailing_slashes(cs@.take(end as int)) == without_trailing_slashes(
                        cs@,
                    ),
                decreases end,
            {
                assert(cs@.take(end as int).drop_last() == cs@.take(end - 1));
                end = end - 1;
            }
            let mut out = String::new();
            crate::lines::push_range(&mut out, &cs, 0, end);
            assert(Seq::<char>::empty() + cs@.subrange(0, end as int) == cs@.take(end as int));
            push_char(&mut out, '/');
            push_str(&mut out, pattern);
            assert(seq!['/'] == "/"@) by {
                reveal_strlit("/");
            }
            assert(cs@.take(end as int).push('/') + pattern@ == cs@.take(end as int) + "/"@
                + pattern@);
            out
        },
    }
}

/// Adds a found path; says whether the list has reached `MAX_FIND_RESULTS`
/// and the search must stop, its result marked as truncated.
pub fn record_match(matches: &mut Vec<String>, path: String) -> (r: bool)
    ensures
        final(matches)@ == old(matches)@.push(path),
        r == (final(matches)@.len() >= MAX_FIND_RESULTS),
{
    matches.push(path);
    matches.len() >= MAX_FIND_RESULTS
}

/// The paths of a list of strings as character sequences.
pub open spec fn texts(list: Seq<String>) -> Seq<Seq<char>> {
    list.map_values(|s: String| s@)
}

/// What `find_files` returns for the paths it found.
pub open spec fn find_result_text(matches: Seq<Seq<char>>, truncated: bool) -> Seq<char> {
    if matches.len() == 0 {
        "No files found matching the pattern."@
    } else if truncated {
        join_lines(matches) + "\n\n... (truncated, showing first 200 results)"@
    } else {
        join_lines(matches)
    }
}

/// The result of `find_files`: the paths one per line, with a note when the
/// search stopped at `MAX_FIND_RESULTS`.
pub fn find_results(matches: &Vec<String>, truncated: bool) -> (r: ToolOutput)
    ensures
        !r.is_error,
        r.text@ == find_result_text(texts(matches@), truncated),
{
    if matches.len() == 0 {
        return ToolOutput { text: owned("No files found matching the pattern."), is_error: false };
    }
    let ghost all = texts(matches@);
    let mut text = String::new();
    let mut i: usize = 0;
    while i < matches.len()
        invariant
            i <= matches.len(),
            all == texts(matches@),
            text@ == join_lines(all.take(i as int)),
        decreases matches.len() - i,
    {
        if i > 0 {
            push_char(&mut text, '\n');
        }
        push_str(&mut text, matches[i].as_str());
        proof {
            let next = all.take(i + 1);
            assert(next.drop_last() == all.take(i as int));
            assert(next.last() == matches@[i as int]@);
            if i == 0 {
                assert(next.len() == 1);
            }
        }
        i = i + 1;
    }
    assert(all.take(i as int) == all);
    if truncated {
        push_str(&mut text, "\n\n... (truncated, showing first 200 results)");
    }
    ToolOutput { text, is_error: false }
}

/// The error for a glob pattern that does not parse.
pub fn invalid_glob_error(full_pattern: &str, error: &str) -> (r: ToolError)
    ensures
        r.tool_name@ == "find_files"@,
        r.message@ == "invalid glob pattern '"@ + full_pattern@ + "': "@ + error@,
{
    let mut message = owned("invalid glob pattern '");
    push_str(&mut message, full_pattern);
    push_str(&mut message, "': ");
    push_str(&mut message, error);
    ToolError { tool_name: owned("find_files"), message }
}

} // verus!
