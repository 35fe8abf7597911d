//! Large tool outputs kept out of the conversation: the notice that stands
//! in for them, and the `read_stash` tool's two ways of reading one back.

use vstd::prelude::*;

use crate::lines::{join_lines, line_ranges, push_range, text_lines};
use crate::text::{
    byte_len, byte_length, chars_of, count_fitting, decimal, fitting_prefix, floor_boundary,
    lemma_fitting_prefix, lemma_fitting_prefix_unique, owned, push_char, push_decimal,
    push_signed_decimal, push_str, signed_decimal,
};
use crate::tool::{ToolError, ToolOutput};
use crate::util::{compile_search_regex, regex_is_match, LinePattern};

verus! {

/// Two to the power `n`.
pub open spec fn two_to(n: nat) -> nat
    decreases n,
{
    if n == 0 {
        1
    } else {
        2 * two_to((n - 1) as nat)
    }
}

/// `n / d` rounded to the nearest integer, halves to the even neighbour.
pub open spec fn round_half_even(n: nat, d: nat) -> nat {
    let q = n / d;
    let r = n % d;
    if 2 * r > d || (2 * r == d && q % 2 == 1) {
        q + 1
    } else {
        q
    }
}

/// How many low bits of `n` do not fit in the 53-bit significand of an
/// `f64`: the fewest halvings that bring `n` below 2^53.
pub open spec fn excess_bits(n: nat) -> nat
    decreases n,
{
    if n < 0x20_0000_0000_0000 {
        0
    } else {
        1 + excess_bits(n / 2)
    }
}

/// The value of `n as f64`: `n` rounded to 53 significant bits, halves to
/// even, as Rust converts integers to floating point.
pub open spec fn f64_of(n: nat) -> nat {
    let d = two_to(excess_bits(n));
    round_half_even(n, d) * d
}

/// `f64_of(n) / 2^unit_bits` written with one decimal, rounded halves to
/// even, as `{:.1}` formats it.
pub open spec fn one_decimal(n: nat, unit_bits: nat) -> Seq<char> {
    let tenths = round_half_even(f64_of(n) * 10, two_to(unit_bits));
    decimal(tenths / 10) + "."@ + seq![crate::text::digit_char(tenths % 10)]
}

/// A size in bytes for people: bytes below 1 KB, else KB or MB with one
/// decimal.
pub open spec fn size_text(bytes: nat) -> Seq<char> {
    if bytes >= 1048576 {
        one_decimal(bytes, 20) + " MB"@
    } else if bytes >= 1024 {
        one_decimal(bytes, 10) + " KB"@
    } else {
        decimal(bytes) + " bytes"@
    }
}

fn round_half_even_exec(n: u128, d: u128) -> (r: u128)
    requires
        d > 0,
        n / d < u128::MAX,
    ensures
        r == round_half_even(n as nat, d as nat),
{
    let q = n / d;
    let r = n % d;
    if r > d - r || (r == d - r && q % 2 == 1) {
        q + 1
    } else {
        q
    }
}

proof fn lemma_two_to_monotonic(a: nat, b: nat)
    requires
        a <= b,
    ensures
        1 <= two_to(a) <= two_to(b),
    decreases b,
{
    if b > 0 {
        if a < b {
            lemma_two_to_monotonic(a, (b - 1) as nat);
        } else {
            lemma_two_to_monotonic((a - 1) as nat, (b - 1) as nat);
        }
    }
}

proof fn lemma_two_to_values()
    ensures
        two_to(10) == 1024,
        two_to(11) == 2048,
        two_to(20) == 1048576,
{
    reveal_with_fuel(two_to, 21);
}

proof fn lemma_round_half_even_bounds(n: nat, d: nat)
    requires
        d > 0,
    ensures
        n / d <= round_half_even(n, d) <= n / d + 1,
        round_half_even(n, d) * d <= n + d,
{
    let q = n / d;
    assert(q * d <= n) by (nonlinear_arith)
        requires
            q == n / d,
            d > 0,
    ;
    assert((q + 1) * d == q * d + d) by (nonlinear_arith);
}

/// The value of `n as f64`, as an integer.
fn f64_value(n: u64) -> (r: u128)
    ensures
        r == f64_of(n as nat),
        r <= 0x1_0000_0000_0800u128 * 0x1_0000,
{
    let mut t: u64 = n;
    let mut e: u32 = 0;
    let mut d: u128 = 1;
    proof {
        reveal_with_fuel(two_to, 1);
    }
    while t >= 0x20_0000_0000_0000u64
        invariant
            e <= 11,
            1 <= d <= 2048,
            d == two_to(e as nat),
            t as nat == n as nat / d as nat,
            excess_bits(n as nat) == e + excess_bits(t as nat),
        decreases t,
    {
        proof {
            let ghost dn = d as nat;
            assert(t * dn <= n) by (nonlinear_arith)
                requires
                    t as nat == n as nat / dn,
                    dn > 0,
            ;
            assert(dn < 2048) by (nonlinear_arith)
                requires
                    t >= 0x20_0000_0000_0000u64,
                    t * dn <= n,
                    n < 0x1_0000_0000_0000_0000int,
            ;
            lemma_two_to_values();
            if e >= 11 {
                lemma_two_to_monotonic(11, e as nat);
            }
            lemma_two_to_monotonic((e + 1) as nat, 11);
            assert(two_to((e + 1) as nat) == 2 * two_to(e as nat));
            vstd::arithmetic::div_mod::lemma_div_denominator(n as int, d as int, 2);
        }
        t = t / 2;
        e = e + 1;
        d = d * 2;
    }
    let ghost dn = d as nat;
    proof {
        lemma_round_half_even_bounds(n as nat, dn);
    }
    let rounded = round_half_even_exec(n as u128, d);
    assert(rounded * d <= n as u128 + d);
    rounded * d
}

/// A size in bytes for people, as `format_size` writes it.
pub fn format_size(bytes: usize) -> (r: String)
    ensures
        r@ == size_text(bytes as nat),
{
    let mut out = String::new();
    let ghost start = out@;
    if bytes >= 1024 {
        let unit: u128 = if bytes >= 1048576 {
            1048576
        } else {
            1024
        };
        let value = f64_value(bytes as u64);
        proof {
            lemma_two_to_values();
            lemma_round_half_even_bounds((value * 10) as nat, unit as nat);
            assert((value * 10) as nat / (unit as nat) <= (value * 10) as nat / 1024) by (
            nonlinear_arith)
                requires
                    unit >= 1024,
            ;
            if bytes < 1048576 {
                assert(excess_bits(bytes as nat) == 0);
                assert(round_half_even(bytes as nat, 1) == bytes);
            }
        }
        let tenths = round_half_even_exec(value * 10, unit);
        push_decimal(&mut out, (tenths / 10) as u64);
        push_char(&mut out, '.');
        push_char(&mut out, crate::text::digit((tenths % 10) as u64));
        if bytes >= 1048576 {
            push_str(&mut out, " MB");
        } else {
            push_str(&mut out, " KB");
        }
        proof {
            let bits: nat = if bytes >= 1048576 { 20 } else { 10 };
            assert(two_to(bits) == unit);
            assert(tenths == round_half_even(f64_of(bytes as nat) * 10, two_to(bits)));
            reveal_strlit(".");
            assert("."@ == seq!['.']);
            assert(out@ == one_decimal(bytes as nat, bits) + (if bytes >= 1048576 { " MB"@ } else { " KB"@ }));
        }
    } else {
        push_decimal(&mut out, bytes as u64);
        push_str(&mut out, " bytes");
    }
    out
}

/// Tool result text blocks larger than this many bytes are persisted and
/// replaced with a preview and a handle in the conversation context.
pub const MAX_INLINE_RESULT_CHARS: usize = 30000;

/// The most bytes of an oversized result that its preview shows.
pub const PREVIEW_CHARS: usize = 2000;

/// Whether a tool result text is too large to stay in the conversation.
pub fn needs_stash(text: &str) -> (r: bool)
    ensures
        r == (byte_len(text@) > MAX_INLINE_RESULT_CHARS),
{
    let cs = chars_of(text);
    let (k, _) = count_fitting(&cs, MAX_INLINE_RESULT_CHARS);
    proof {
        lemma_fitting_prefix(cs@, MAX_INLINE_RESULT_CHARS as int);
        assert(cs@.take(cs@.len() as int) == cs@);
        if k == cs.len() {
            assert(cs@.take(k as int) == cs@);
        }
    }
    k < cs.len()
}

/// The notice that stands in the conversation for an oversized result:
/// its handle and size (in bytes, and for people by `size_text`), and a
/// preview of at most `PREVIEW_CHARS` bytes, cut back to a
/// character boundary, followed by `...` when the preview is not the whole
/// text.
pub open spec fn stash_notice_text(output_id: int, text: Seq<char>) -> Seq<char> {
    let size = byte_len(text);
    let budget: nat = if PREVIEW_CHARS < size {
        PREVIEW_CHARS as nat
    } else {
        size
    };
    let preview = text.take(fitting_prefix(text, budget as int) as int);
    let preview_end = byte_len(preview);
    "<large-output id=\""@ + signed_decimal(output_id) + "\" size=\""@ + decimal(size)
        + "\">\nOutput too large ("@ + size_text(size)
        + "). Use read_stash to access full content.\n\nPreview (first "@ + decimal(preview_end)
        + " characters):\n"@ + preview + (if preview_end < size {
        "\n..."@
    } else {
        Seq::<char>::empty()
    }) + "\n</large-output>"@
}

/// Builds the notice that replaces an oversized result stored under
/// `output_id`.
pub fn stash_notice(output_id: i64, text: &str) -> (r: String)
    requires
        byte_len(text@) <= usize::MAX,
    ensures
        r@ == stash_notice_text(output_id as int, text@),
{
    let cs = chars_of(text);
    let size = byte_length(&cs);
    let budget = if PREVIEW_CHARS < size {
        PREVIEW_CHARS
    } else {
        size
    };
    let (k, preview_end) = count_fitting(&cs, budget);
    proof {
        lemma_fitting_prefix(cs@, budget as int);
    }
    let mut out = owned("<large-output id=\"");
    push_signed_decimal(&mut out, output_id);
    push_str(&mut out, "\" size=\"");
    push_decimal(&mut out, size as u64);
    push_str(&mut out, "\">\nOutput too large (");
    let size_text = format_size(size);
    push_str(&mut out, size_text.as_str());
    push_str(&mut out, "). Use read_stash to access full content.\n\nPreview (first ");
    push_decimal(&mut out, preview_end as u64);
    push_str(&mut out, " characters):\n");
    push_range(&mut out, &cs, 0, k);
    assert(cs@.subrange(0, k as int) == cs@.take(k as int));
    if preview_end < size {
        push_str(&mut out, "\n...");
    }
    push_str(&mut out, "\n</large-output>");
    out
}

/// Default character limit when reading back a persisted output.
pub const DEFAULT_READ_LIMIT: usize = 30000;

/// Maximum number of regex matches returned in search mode.
pub const MAX_SEARCH_MATCHES: usize = 100;

/// What `read_stash` returns for a range of a stored output. Offsets and
/// lengths count bytes; the range is cut back to character boundaries.
pub open spec fn stash_range_text(content: Seq<char>, offset: nat, limit: nat) -> Seq<char> {
    let total = byte_len(content);
    let start = floor_boundary(content, offset);
    let stop: nat = if start + limit < total {
        start + limit
    } else {
        total
    };
    let end = floor_boundary(content, stop);
    content.subrange(
        fitting_prefix(content, offset as int) as int,
        fitting_prefix(content, stop as int) as int,
    ) + "\n\n(showing characters "@ + decimal(start) + ".."@ + decimal(end) + " of "@ + decimal(
        total,
    ) + ")"@
}

/// The message for an offset past the end of a stored output.
pub open spec fn stash_offset_message(offset: nat, total: nat) -> Seq<char> {
    "Offset "@ + decimal(offset) + " exceeds content length ("@ + decimal(total)
        + " characters)"@
}

/// Reads `limit` bytes of a stored output from byte `offset`, cut back to
/// character boundaries.
pub fn read_mode(content: &str, offset: usize, limit: usize) -> (r: ToolOutput)
    requires
        byte_len(content@) <= usize::MAX,
        offset < byte_len(content@) ==> floor_boundary(content@, offset as nat) + limit
            <= usize::MAX,
    ensures
        offset >= byte_len(content@) ==> r.is_error && r.text@ == stash_offset_message(
            offset as nat,
            byte_len(content@),
        ),
        offset < byte_len(content@) ==> !r.is_error && r.text@ == stash_range_text(
            content@,
            offset as nat,
            limit as nat,
        ),
{
    let cs = chars_of(content);
    let total = byte_length(&cs);
    if offset >= total {
        let mut text = owned("Offset ");
        push_decimal(&mut text, offset as u64);
        push_str(&mut text, " exceeds content length (");
        push_decimal(&mut text, total as u64);
        push_str(&mut text, " characters)");
        return ToolOutput { text, is_error: true };
    }
    let (first, start) = count_fitting(&cs, offset);
    let stop = if start + limit < total {
        start + limit
    } else {
        total
    };
    let (last, end) = count_fitting(&cs, stop);
    proof {
        lemma_fitting_prefix(cs@, offset as int);
        lemma_fitting_prefix(cs@, stop as int);
        if last < first {
            assert(byte_len(cs@.take(last + 1)) > stop);
            crate::text::lemma_byte_len_take_monotonic(cs@, last + 1, first as int);
        }
    }
    let mut text = String::new();
    push_range(&mut text, &cs, first, last);
    push_str(&mut text, "\n\n(showing characters ");
    push_decimal(&mut text, start as u64);
    push_str(&mut text, "..");
    push_decimal(&mut text, end as u64);
    push_str(&mut text, " of ");
    push_decimal(&mut text, total as u64);
    push_str(&mut text, ")");
    assert(Seq::<char>::empty() + cs@.subrange(first as int, last as int) == cs@.subrange(
        first as int,
        last as int,
    ));
    ToolOutput { text, is_error: false }
}

/// The indices of the lines that the regex `pattern` matches.
pub open spec fn matching_lines(pattern: Seq<char>, lines: Seq<Seq<char>>) -> Seq<nat>
    decreases lines.len(),
{
    if lines.len() == 0 {
        Seq::<nat>::empty()
    } else {
        matching_lines(pattern, lines.drop_last()) + (if regex_is_match(pattern, lines.last()) {
            seq![(lines.len() - 1) as nat]
        } else {
            Seq::<nat>::empty()
        })
    }
}

/// The entry of a matching line: its 1-based number, a colon and the line.
pub open spec fn match_entries(lines: Seq<Seq<char>>, indices: Seq<nat>) -> Seq<Seq<char>> {
    indices.map_values(|i: nat| decimal(i + 1) + ":"@ + lines[i as int])
}

/// What a regex search of a stored output returns: the first
/// `MAX_SEARCH_MATCHES` matching lines as `number:line`, one per line, and,
/// when the search stopped there, a note with the number of matches. That
/// number is the lines shown plus the matching lines from index
/// `MAX_SEARCH_MATCHES` on.
pub open spec fn search_text(pattern: Seq<char>, content: Seq<char>) -> Seq<char> {
    let lines = text_lines(content);
    let found = matching_lines(pattern, lines);
    if found.len() == 0 {
        "No matches found for the given regex pattern."@
    } else {
        let max = MAX_SEARCH_MATCHES as nat;
        let shown = if found.len() < max {
            found
        } else {
            found.take(max as int)
        };
        let total = if found.len() < max {
            found.len()
        } else {
            max + matching_lines(pattern, lines.skip(max as int)).len()
        };
        let body = join_lines(match_entries(lines, shown));
        if total > max {
            body + "\n\n... (showing first "@ + decimal(max) + " of "@ + decimal(total)
                + " matches)"@
        } else {
            body
        }
    }
}

proof fn lemma_matching_lines_prefix(pattern: Seq<char>, lines: Seq<Seq<char>>, i: int, j: int)
    requires
        0 <= i <= j <= lines.len(),
    ensures
        matching_lines(pattern, lines.take(i)).len() <= matching_lines(pattern, lines.take(j)).len(),
        matching_lines(pattern, lines.take(i)) == matching_lines(pattern, lines.take(j)).take(
            matching_lines(pattern, lines.take(i)).len() as int,
        ),
    decreases j - i,
{
    if i < j {
        lemma_matching_lines_prefix(pattern, lines, i, j - 1);
        assert(lines.take(j).drop_last() == lines.take(j - 1));
        let a = matching_lines(pattern, lines.take(i));
        let b = matching_lines(pattern, lines.take(j - 1));
        let c = matching_lines(pattern, lines.take(j));
        assert(c.take(b.len() as int) == b);
        assert(c.take(a.len() as int) == b.take(a.len() as int));
    } else {
        assert(matching_lines(pattern, lines.take(i)).take(
            matching_lines(pattern, lines.take(i)).len() as int,
        ) == matching_lines(pattern, lines.take(i)));
    }
}

proof fn lemma_matching_lines_bounded(pattern: Seq<char>, lines: Seq<Seq<char>>)
    ensures
        matching_lines(pattern, lines).len() <= lines.len(),
        forall|k: int|
            0 <= k < matching_lines(pattern, lines).len() ==> #[trigger] matching_lines(
                pattern,
                lines,
            )[k] < lines.len(),
    decreases lines.len(),
{
    if lines.len() > 0 {
        lemma_matching_lines_bounded(pattern, lines.drop_last());
    }
}

/// Counts the lines among `first..` that the pattern matches.
fn count_matching_from(
    pattern: &LinePattern,
    cs: &Vec<char>,
    ranges: &Vec<(usize, usize)>,
    first: usize,
) -> (r: usize)
    requires
        first <= ranges.len(),
        ranges.len() == text_lines(cs@).len(),
        forall|i: int|
            0 <= i < ranges.len() ==> {
                &&& 0 <= (#[trigger] ranges[i]).0 <= ranges[i].1 <= cs.len()
                &&& cs@.subrange(ranges[i].0 as int, ranges[i].1 as int) == text_lines(cs@)[i]
            },
    ensures
        r == matching_lines(pattern@, text_lines(cs@).skip(first as int)).len(),
{
    let ghost lines = text_lines(cs@).skip(first as int);
    let mut count: usize = 0;
    let mut j = first;
    assert(lines.take(0) == Seq::<Seq<char>>::empty());
    while j < ranges.len()
        invariant
            first <= j <= ranges.len(),
            ranges.len() == text_lines(cs@).len(),
            lines == text_lines(cs@).skip(first as int),
            forall|i: int|
                0 <= i < ranges.len() ==> {
                    &&& 0 <= (#[trigger] ranges[i]).0 <= ranges[i].1 <= cs.len()
                    &&& cs@.subrange(ranges[i].0 as int, ranges[i].1 as int) == text_lines(
                        cs@,
                    )[i]
                },
            count == matching_lines(pattern@, lines.take(j - first)).len(),
            count <= j - first,
        decreases ranges.len() - j,
    {
        let (s, e) = ranges[j];
        let mut line = String::new();
        push_range(&mut line, cs, s, e);
        let hit = pattern.is_match(line.as_str());
        proof {
            let next = lines.take(j + 1 - first);
            assert(next.drop_last() == lines.take(j - first));
            assert(next.last() == text_lines(cs@)[j as int]);
            assert(Seq::<char>::empty() + cs@.subrange(s as int, e as int) == cs@.subrange(
                s as int,
                e as int,
            ));
        }
        if hit {
            count = count + 1;
        }
        j = j + 1;
    }
    assert(lines.take(j - first) == lines);
    count
}

/// Searches a stored output line by line with a compiled regex.
pub fn search_lines(content: &str, pattern: &LinePattern) -> (r: ToolOutput)
    ensures
        !r.is_error,
        r.text@ == search_text(pattern@, content@),
{
    let cs = chars_of(content);
    let ranges = line_ranges(&cs);
    let ghost lines = text_lines(cs@);
    let ghost p = pattern@;
    let mut body = String::new();
    let mut count: usize = 0;
    let mut i: usize = 0;
    let ghost mut shown: Seq<nat> = Seq::empty();
    assert(lines.take(0) == Seq::<Seq<char>>::empty());
    while i < ranges.len() && count < MAX_SEARCH_MATCHES
        invariant
            i <= ranges.len(),
            lines == text_lines(cs@),
            ranges.len() == lines.len(),
            forall|k: int|
                0 <= k < ranges.len() ==> {
                    &&& 0 <= (#[trigger] ranges[k]).0 <= ranges[k].1 <= cs.len()
                    &&& cs@.subrange(ranges[k].0 as int, ranges[k].1 as int) == lines[k]
                },
            p == pattern@,
            shown == matching_lines(p, lines.take(i as int)),
            count == shown.len(),
            count <= MAX_SEARCH_MATCHES,
            forall|k: int| 0 <= k < shown.len() ==> #[trigger] shown[k] < i,
            body@ == join_lines(match_entries(lines, shown)),
        decreases ranges.len() - i,
    {
        let (s, e) = ranges[i];
        let mut line = String::new();
        push_range(&mut line, &cs, s, e);
        assert(Seq::<char>::empty() + cs@.subrange(s as int, e as int) == lines[i as int]);
        let hit = pattern.is_match(line.as_str());
        proof {
            let next = lines.take(i + 1);
            assert(next.drop_last() == lines.take(i as int));
            assert(next.last() == lines[i as int]);
        }
        if hit {
            if count > 0 {
                push_char(&mut body, '\n');
            }
            push_decimal(&mut body, (i + 1) as u64);
            push_str(&mut body, ":");
            push_str(&mut body, line.as_str());
            proof {
                let old_shown = shown;
                assert(matching_lines(p, lines.take(i + 1)) == shown + seq![i as nat]);
                shown = shown.push(i as nat);
                let entries = match_entries(lines, shown);
                assert(entries.drop_last() == match_entries(lines, old_shown));
                assert(entries.last() == decimal((i + 1) as nat) + ":"@ + lines[i as int]);
            }
            count = count + 1;
        } else {
            assert(matching_lines(p, lines.take(i + 1)) == shown + Seq::<nat>::empty());
        }
        i = i + 1;
    }
    proof {
        lemma_matching_lines_prefix(p, lines, i as int, lines.len() as int);
        assert(lines.take(lines.len() as int) == lines);
    }
    let ghost found = matching_lines(p, lines);
    if count == 0 {
        proof {
            if found.len() > 0 {
                if i == lines.len() {
                    assert(lines.take(i as int) == lines);
                }
            }
        }
        return ToolOutput {
            text: owned("No matches found for the given regex pattern."),
            is_error: false,
        };
    }
    let mut total = count;
    if count >= MAX_SEARCH_MATCHES {
        proof {
            lemma_matching_lines_bounded(p, lines.take(i as int));
        }
        let rest = count_matching_from(pattern, &cs, &ranges, MAX_SEARCH_MATCHES);
        proof {
            lemma_matching_lines_bounded(p, lines.skip(MAX_SEARCH_MATCHES as int));
        }
        total = count + rest;
    } else {
        proof {
            assert(lines.take(i as int) == lines);
        }
    }
    let mut text = body;
    if total > MAX_SEARCH_MATCHES {
        push_str(&mut text, "\n\n... (showing first ");
        push_decimal(&mut text, MAX_SEARCH_MATCHES as u64);
        push_str(&mut text, " of ");
        push_decimal(&mut text, total as u64);
        push_str(&mut text, " matches)");
    }
    ToolOutput { text, is_error: false }
}

/// Searches a stored output with the regex `pattern`; a pattern that does
/// not compile is an error of the `read_stash` tool.
pub fn search_mode(content: &str, pattern: &str) -> (r: Result<ToolOutput, ToolError>)
    ensures
        match r {
            Ok(out) => !out.is_error && out.text@ == search_text(pattern@, content@),
            Err(e) => e.tool_name@ == "read_stash"@ && exists|error: Seq<char>|
                e.message@ == crate::util::bad_regex_message(pattern@, error),
        },
{
    match compile_search_regex(pattern, "read_stash") {
        Ok(p) => Ok(search_lines(content, &p)),
        Err(e) => Err(e),
    }
}

/// Reading a stored output from offset 0 with a limit that covers it gives
/// back the whole output, followed by the range note.
pub proof fn lemma_read_whole_output(content: Seq<char>, limit: nat)
    requires
        byte_len(content) > 0,
        limit >= byte_len(content),
    ensures
        stash_range_text(content, 0, limit) == content + "\n\n(showing characters "@ + decimal(
            0,
        ) + ".."@ + decimal(byte_len(content)) + " of "@ + decimal(byte_len(content)) + ")"@,
{
    let total = byte_len(content);
    assert(content.len() > 0);
    assert(content.take(0) == Seq::<char>::empty());
    crate::text::lemma_byte_len_take_step(content, 0);
    lemma_fitting_prefix_unique(content, 0, 0);
    assert(content.take(content.len() as int) == content);
    lemma_fitting_prefix_unique(content, total as int, content.len() as int);
    assert(content.subrange(0, content.len() as int) == content);
}

/// A search lists exactly the lines the regex matches, in order: every
/// listed index is a matching line, the indices increase, and every matching
/// line is listed.
pub proof fn lemma_matching_lines_exact(pattern: Seq<char>, lines: Seq<Seq<char>>)
    ensures
        forall|k: int|
            0 <= k < matching_lines(pattern, lines).len() ==> #[trigger] matching_lines(
                pattern,
                lines,
            )[k] < lines.len() && regex_is_match(
                pattern,
                lines[matching_lines(pattern, lines)[k] as int],
            ),
        forall|k: int, l: int|
            0 <= k < l < matching_lines(pattern, lines).len() ==> #[trigger] matching_lines(
                pattern,
                lines,
            )[k] < #[trigger] matching_lines(pattern, lines)[l],
        forall|i: int|
            0 <= i < lines.len() && regex_is_match(pattern, #[trigger] lines[i]) ==> exists|k: int|
                0 <= k < matching_lines(pattern, lines).len() && #[trigger] matching_lines(
                    pattern,
                    lines,
                )[k] == i,
    decreases lines.len(),
{
    if lines.len() > 0 {
        let prev = lines.drop_last();
        lemma_matching_lines_exact(pattern, prev);
        let found = matching_lines(pattern, lines);
        let prev_found = matching_lines(pattern, prev);
        assert forall|i: int|
            0 <= i < lines.len() && regex_is_match(pattern, #[trigger] lines[i]) implies exists|
                k: int,
            | 0 <= k < found.len() && #[trigger] found[k] == i by {
            if i < lines.len() - 1 {
                assert(prev[i] == lines[i]);
                let k = choose|k: int| 0 <= k < prev_found.len() && #[trigger] prev_found[k] == i;
                assert(found[k] == prev_found[k]);
            } else {
                assert(found[prev_found.len() as int] == i);
            }
        }
    }
}

} // verus!
