//! The decisions and text of the `read_file`, `edit_file` and `write_file`
//! tools. Reading, writing and resolving paths happen around these.

use vstd::prelude::*;

use crate::lines::{join_lines, line_ranges, push_joined_lines, text_lines};
use crate::replace::{
    contains_text, count_matches, find_text, replace_all, replace_every, replace_first,
    replace_once,
};
use crate::text::{
    byte_len, byte_length, chars_of, decimal, fitting_prefix, owned, push_decimal, push_str,
    truncate_string,
};
use crate::tool::ToolOutput;

verus! {

/// How many lines `read_file` shows when the call gives neither an offset
/// nor a limit.
pub const DEFAULT_LINE_LIMIT: usize = 2000;

/// The lines that `skip(offset).take(limit)` keeps.
pub open spec fn line_window(lines: Seq<Seq<char>>, offset: nat, limit: nat) -> Seq<
    Seq<char>,
> {
    let start: int = if offset < lines.len() {
        offset as int
    } else {
        lines.len() as int
    };
    let end: int = if limit < lines.len() - start {
        start + limit
    } else {
        lines.len() as int
    };
    lines.subrange(start, end)
}

/// What `read_file` shows of a text file's content: the lines from `offset`
/// (default 0), at most `limit` of them (default `DEFAULT_LINE_LIMIT`),
/// joined by line feeds, with a note when neither was given and the file has
/// more lines than the default.
pub open spec fn read_file_text(content: Seq<char>, offset: Option<usize>, limit: Option<usize>) -> Seq<
    char,
> {
    let lines = text_lines(content);
    let first: nat = match offset {
        Some(o) => o as nat,
        None => 0,
    };
    let count: nat = match limit {
        Some(l) => l as nat,
        None => DEFAULT_LINE_LIMIT as nat,
    };
    let body = join_lines(line_window(lines, first, count));
    if offset is None && limit is None && lines.len() > DEFAULT_LINE_LIMIT {
        body + "\n\n... (showing first "@ + decimal(DEFAULT_LINE_LIMIT as nat) + " of "@ + decimal(
            lines.len(),
        ) + " lines, use offset/limit to read more)"@
    } else {
        body
    }
}

/// The text that `read_file` returns for a text file with this content.
pub fn read_file_view(content: &str, offset: Option<usize>, limit: Option<usize>) -> (r: String)
    ensures
        r@ == read_file_text(content@, offset, limit),
{
    let cs = chars_of(content);
    let ranges = line_ranges(&cs);
    let total = ranges.len();
    let first = match offset {
        Some(o) => o,
        None => 0,
    };
    let count = match limit {
        Some(l) => l,
        None => DEFAULT_LINE_LIMIT,
    };
    let start = if first < total {
        first
    } else {
        total
    };
    let end = if count < total - start {
        start + count
    } else {
        total
    };
    let mut out = String::new();
    push_joined_lines(&mut out, &cs, &ranges, start, end);
    assert(Seq::<char>::empty() + join_lines(text_lines(cs@).subrange(start as int, end as int))
        == join_lines(text_lines(cs@).subrange(start as int, end as int)));
    if offset.is_none() && limit.is_none() && total > DEFAULT_LINE_LIMIT {
        push_str(&mut out, "\n\n... (showing first ");
        push_decimal(&mut out, DEFAULT_LINE_LIMIT as u64);
        push_str(&mut out, " of ");
        push_decimal(&mut out, total as u64);
        push_str(&mut out, " lines, use offset/limit to read more)");
    }
    out
}

/// The message that refuses to edit a file the session has not read.
pub open spec fn unread_edit_message(path: Seq<char>) -> Seq<char> {
    "Error: file '"@ + path
        + "' must be read before editing. Use read_file first, or set force=true to bypass."@
}

/// Decides whether `edit_file` may go on: a file must have been read in this
/// session before it is edited, unless the call sets `force`.
pub fn edit_read_check(path: &str, force: bool, was_read: bool) -> (r: Option<ToolOutput>)
    ensures
        r is None <==> (force || was_read),
        r matches Some(out) ==> out.is_error && out.text@ == unread_edit_message(path@),
{
    if !force && !was_read {
        let mut text = owned("Error: file '");
        push_str(&mut text, path);
        push_str(
            &mut text,
            "' must be read before editing. Use read_file first, or set force=true to bypass.",
        );
        Some(ToolOutput { text, is_error: true })
    } else {
        None
    }
}

/// What `edit_file` does with a file's content.
pub enum EditPlan {
    /// Write `content` back; `count` occurrences were replaced.
    Write { content: String, count: usize },
    /// Leave the file alone and answer with this result.
    Reject(ToolOutput),
}

/// The message for an `old_string` that the file does not contain; it
/// quotes at most the first 100 bytes of `old_string`.
pub open spec fn not_found_message(old_string: Seq<char>, path: Seq<char>) -> Seq<char> {
    "Error: '"@ + old_string.take(fitting_prefix(old_string, 100) as int) + "' not found in '"@
        + path + "'"@
}

/// Plans the replacement that `edit_file` makes in a file's content: the
/// first occurrence of `old_string`, or every one with `replace_all`. A
/// content without `old_string` is left alone.
pub fn plan_edit(
    path: &str,
    content: &str,
    old_string: &str,
    new_string: &str,
    replace_all_occurrences: bool,
) -> (r: EditPlan)
    requires
        content@.len() < usize::MAX,
    ensures
        match r {
            EditPlan::Write { content: new_content, count } => {
                &&& contains_text(content@, old_string@)
                &&& replace_all_occurrences ==> new_content@ == replace_all(
                    content@,
                    old_string@,
                    new_string@,
                ) && count == count_matches(content@, old_string@)
                &&& !replace_all_occurrences ==> new_content@ == replace_first(
                    content@,
                    old_string@,
                    new_string@,
                ) && count == 1
            },
            EditPlan::Reject(out) => {
                &&& !contains_text(content@, old_string@)
                &&& out.is_error
                &&& out.text@ == not_found_message(old_string@, path@)
            },
        },
{
    let cs = chars_of(content);
    let pat = chars_of(old_string);
    let rep = chars_of(new_string);
    match find_text(&cs, &pat) {
        None => {
            let mut text = owned("Error: '");
            push_str(&mut text, truncate_string(old_string, 100));
            push_str(&mut text, "' not found in '");
            push_str(&mut text, path);
            push_str(&mut text, "'");
            EditPlan::Reject(ToolOutput { text, is_error: true })
        },
        Some(_) => {
            if replace_all_occurrences {
                let (new_content, count) = replace_every(&cs, &pat, &rep);
                EditPlan::Write { content: new_content, count }
            } else {
                EditPlan::Write { content: replace_once(&cs, &pat, &rep), count: 1 }
            }
        },
    }
}

/// The message of a successful edit.
pub open spec fn edit_success_message(path: Seq<char>, count: nat) -> Seq<char> {
    "Successfully edited '"@ + path + "': replaced "@ + decimal(count) + " occurrence(s)"@
}

/// The result of a successful edit.
pub fn edit_success(path: &str, count: usize) -> (r: ToolOutput)
    ensures
        !r.is_error,
        r.text@ == edit_success_message(path@, count as nat),
{
    let mut text = owned("Successfully edited '");
    push_str(&mut text, path);
    push_str(&mut text, "': replaced ");
    push_decimal(&mut text, count as u64);
    push_str(&mut text, " occurrence(s)");
    ToolOutput { text, is_error: false }
}

/// The message of a successful write; it counts the content's bytes.
pub open spec fn write_success_message(path: Seq<char>, content: Seq<char>) -> Seq<char> {
    "Successfully wrote "@ + decimal(byte_len(content)) + " bytes to '"@ + path + "'"@
}

/// The result of a successful write.
pub fn write_success(path: &str, content: &str) -> (r: ToolOutput)
    requires
        byte_len(content@) <= usize::MAX,
    ensures
        !r.is_error,
        r.text@ == write_success_message(path@, content@),
{
    let cs = chars_of(content);
    let bytes = byte_length(&cs);
    let mut text = owned("Successfully wrote ");
    push_decimal(&mut text, bytes as u64);
    push_str(&mut text, " bytes to '");
    push_str(&mut text, path);
    push_str(&mut text, "'");
    ToolOutput { text, is_error: false }
}

/// A text file of at most `DEFAULT_LINE_LIMIT` lines read without offset
/// or limit comes back whole: all its lines, joined by line feeds.
pub proof fn lemma_short_file_read_whole(content: Seq<char>)
    requires
        text_lines(content).len() <= DEFAULT_LINE_LIMIT,
    ensures
        read_file_text(content, None, None) == join_lines(text_lines(content)),
{
    let lines = text_lines(content);
    assert(line_window(lines, 0, DEFAULT_LINE_LIMIT as nat) == lines);
}

/// `read_file` shows a window of consecutive lines: from line `offset`, 0
/// when the call gives none, at most `limit` lines, cut at the end of the
/// file; a call with an offset and no limit shows at most the default
/// number of lines.
pub proof fn lemma_read_window(content: Seq<char>, offset: usize, limit: usize)
    ensures
        ({
            let lines = text_lines(content);
            let n = lines.len() as int;
            let start = if offset < n {
                offset as int
            } else {
                n
            };
            let end = if offset + limit < n {
                offset + limit
            } else {
                n
            };
            &&& read_file_text(content, Some(offset), Some(limit)) == join_lines(
                lines.subrange(start, end),
            )
            &&& read_file_text(content, None, Some(limit)) == read_file_text(
                content,
                Some(0),
                Some(limit),
            )
            &&& read_file_text(content, None, Some(limit)) == join_lines(
                lines.take(if limit < n {
                    limit as int
                } else {
                    n
                }),
            )
            &&& read_file_text(content, Some(offset), None) == read_file_text(
                content,
                Some(offset),
                Some(DEFAULT_LINE_LIMIT),
            )
        }),
{
    let lines = text_lines(content);
    let n = lines.len() as int;
    let k = if limit < n {
        limit as int
    } else {
        n
    };
    assert(lines.subrange(0, k) == lines.take(k));
}

/// A text file of more than `DEFAULT_LINE_LIMIT` lines read without offset
/// or limit shows its first `DEFAULT_LINE_LIMIT` lines and a note that gives
/// the total.
pub proof fn lemma_long_file_read_note(content: Seq<char>)
    requires
        text_lines(content).len() > DEFAULT_LINE_LIMIT,
    ensures
        read_file_text(content, None, None) == join_lines(
            text_lines(content).take(DEFAULT_LINE_LIMIT as int),
        ) + "\n\n... (showing first "@ + decimal(DEFAULT_LINE_LIMIT as nat) + " of "@ + decimal(
            text_lines(content).len(),
        ) + " lines, use offset/limit to read more)"@,
{
    let lines = text_lines(content);
    assert(lines.subrange(0, DEFAULT_LINE_LIMIT as int) == lines.take(DEFAULT_LINE_LIMIT as int));
}

/// An edit whose `new_string` equals its `old_string` writes the content back
/// unchanged.
pub proof fn lemma_identity_edit(content: Seq<char>, old_string: Seq<char>)
    ensures
        replace_all(content, old_string, old_string) == content,
        replace_first(content, old_string, old_string) == content,
{
    crate::replace::lemma_replace_with_itself(content, old_string);
}

} // verus!
