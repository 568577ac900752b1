//! Lines of a text, as offsets into its characters.
//!
//! A text is a `Seq<char>`. Line 0 starts at offset 0, and every later line
//! starts immediately after a line break. A line break is one of LF, VT, FF,
//! CR, NEL, LS, PS; a CR that is directly followed by an LF forms a single
//! break with it, which ends after the LF.

use vstd::prelude::*;

verus! {

/// Whether `c` is one of the characters that can end a line.
pub open spec fn is_break_char(c: char) -> bool {
    c == '\u{0A}' || c == '\u{0B}' || c == '\u{0C}' || c == '\u{0D}' || c == '\u{85}' || c
        == '\u{2028}' || c == '\u{2029}'
}

/// Whether a line break ends immediately before offset `pos`, so that a new
/// line starts at `pos`.
pub open spec fn break_ends_at(text: Seq<char>, pos: int) -> bool {
    &&& 0 < pos <= text.len()
    &&& is_break_char(text[pos - 1])
    &&& !(text[pos - 1] == '\u{0D}' && pos < text.len() && text[pos] == '\u{0A}')
}

/// The number of line breaks that end at or before offset `pos`.
pub open spec fn breaks_before(text: Seq<char>, pos: int) -> nat
    decreases pos,
{
    if pos <= 0 {
        0
    } else {
        breaks_before(text, pos - 1) + if break_ends_at(text, pos) {
            1nat
        } else {
            0nat
        }
    }
}

/// The number of lines of `text`: one more than its line breaks, so a text
/// that ends in a break has an empty last line.
pub open spec fn line_count(text: Seq<char>) -> nat {
    breaks_before(text, text.len() as int) + 1
}

/// The offset reached from `pos` after passing `skip` line breaks, or the end
/// of the text if fewer remain.
pub open spec fn line_start_from(text: Seq<char>, pos: int, skip: nat) -> int
    decreases text.len() - pos,
{
    if skip == 0 || pos >= text.len() {
        pos
    } else if break_ends_at(text, pos + 1) {
        line_start_from(text, pos + 1, (skip - 1) as nat)
    } else {
        line_start_from(text, pos + 1, skip)
    }
}

/// The offset at which line `line` starts. For `line == line_count(text)`, and
/// beyond, this is the length of the text.
pub open spec fn line_start(text: Seq<char>, line: nat) -> int {
    line_start_from(text, 0, line)
}

/// `breaks_before` never decreases as the offset grows.
pub proof fn lemma_breaks_before_monotonic(text: Seq<char>, a: int, b: int)
    requires
        a <= b,
    ensures
        breaks_before(text, a) <= breaks_before(text, b),
    decreases b - a,
{
    if a < b {
        lemma_breaks_before_monotonic(text, a, b - 1);
    }
}

/// Where a scan for a line start ends: on the break that completes the count,
/// or at the end of the text when the text has too few breaks left.
pub proof fn lemma_line_start_from(text: Seq<char>, pos: int, skip: nat)
    requires
        0 <= pos <= text.len(),
    ensures
        pos <= line_start_from(text, pos, skip) <= text.len(),
        breaks_before(text, text.len() as int) >= breaks_before(text, pos) + skip ==> {
            &&& breaks_before(text, line_start_from(text, pos, skip)) == breaks_before(text, pos)
                + skip
            &&& skip > 0 ==> break_ends_at(text, line_start_from(text, pos, skip))
        },
        breaks_before(text, text.len() as int) < breaks_before(text, pos) + skip
            ==> line_start_from(text, pos, skip) == text.len(),
    decreases text.len() - pos,
{
    lemma_breaks_before_monotonic(text, pos, text.len() as int);
    if skip == 0 || pos >= text.len() {
    } else if break_ends_at(text, pos + 1) {
        lemma_line_start_from(text, pos + 1, (skip - 1) as nat);
    } else {
        lemma_line_start_from(text, pos + 1, skip);
    }
}

/// A line that the text has starts within the text, right after the break
/// that ends the line before it.
pub proof fn lemma_line_start(text: Seq<char>, line: nat)
    ensures
        0 <= line_start(text, line) <= text.len(),
        line < line_count(text) ==> breaks_before(text, line_start(text, line)) == line,
        0 < line < line_count(text) ==> break_ends_at(text, line_start(text, line)),
        line == 0 ==> line_start(text, line) == 0,
        line >= line_count(text) ==> line_start(text, line) == text.len(),
{
    lemma_line_start_from(text, 0, line);
}

/// Whether `a` and `b` hold the same characters before offset `cut`.
pub open spec fn same_before(a: Seq<char>, b: Seq<char>, cut: int) -> bool {
    &&& 0 <= cut <= a.len()
    &&& cut <= b.len()
    &&& forall|i: int| 0 <= i < cut ==> a[i] == b[i]
}

/// Two texts that hold the same characters before `cut` have the same line
/// breaks before `cut`.
pub proof fn lemma_breaks_same_before(a: Seq<char>, b: Seq<char>, cut: int, pos: int)
    requires
        same_before(a, b, cut),
        pos < cut,
    ensures
        break_ends_at(a, pos) == break_ends_at(b, pos),
        breaks_before(a, pos) == breaks_before(b, pos),
    decreases pos,
{
    if pos > 0 {
        lemma_breaks_same_before(a, b, cut, pos - 1);
    }
}

/// A scan for a line start that ends at or before `cut` ends at the same
/// offset in a text that holds the same characters before `cut`, provided
/// that a scan ending exactly at `cut` finds a line break there in both.
pub proof fn lemma_line_start_from_same_before(
    a: Seq<char>,
    b: Seq<char>,
    cut: int,
    pos: int,
    skip: nat,
)
    requires
        same_before(a, b, cut),
        0 <= pos <= cut,
        breaks_before(a, a.len() as int) >= breaks_before(a, pos) + skip,
        line_start_from(a, pos, skip) <= cut,
        line_start_from(a, pos, skip) < cut || skip == 0 || break_ends_at(
            b,
            line_start_from(a, pos, skip),
        ),
    ensures
        line_start_from(b, pos, skip) == line_start_from(a, pos, skip),
    decreases a.len() - pos,
{
    let end = line_start_from(a, pos, skip);
    lemma_line_start_from(a, pos, skip);
    if skip == 0 {
    } else {
        lemma_breaks_before_monotonic(a, pos, a.len() as int);
        if pos >= a.len() {
            assert(false);
        }
        assert(pos < end <= b.len());
        if pos + 1 < end {
            lemma_breaks_same_before(a, b, cut, pos + 1);
            if break_ends_at(a, pos + 1) {
                lemma_line_start_from_same_before(a, b, cut, pos + 1, (skip - 1) as nat);
                assert(line_start_from(b, pos, skip) == end);
            } else {
                lemma_line_start_from_same_before(a, b, cut, pos + 1, skip);
                assert(line_start_from(b, pos, skip) == end);
            }
        } else {
            lemma_line_start_from(a, pos + 1, skip);
            lemma_line_start_from(a, pos + 1, (skip - 1) as nat);
            assert(end == pos + 1);
            assert(break_ends_at(a, pos + 1));
            assert(skip == 1);
            if end < cut {
                lemma_breaks_same_before(a, b, cut, pos + 1);
            }
            assert(break_ends_at(b, pos + 1));
            assert(line_start_from(b, pos + 1, 0) == pos + 1);
            assert(line_start_from(b, pos, skip) == end);
        }
    }
}

/// Whether `line` is a line of `text` whose start no change at or after `cut`
/// can move: it starts before `cut`, or it starts at `cut` and is the first
/// line or follows a break that is not a lone CR, which an LF put at `cut`
/// would join.
pub open spec fn line_is_stable(text: Seq<char>, line: nat, cut: int) -> bool {
    &&& line < line_count(text)
    &&& line_start(text, line) <= cut <= text.len()
    &&& (line_start(text, line) < cut || line == 0 || text[cut - 1] != '\u{0D}')
}

/// A line of `a` that starts at or before `cut` starts at the same offset in
/// a text `b` that holds the same characters before `cut`, and is a line of
/// it, provided that a line starting exactly at `cut` still follows a line
/// break in `b`.
pub proof fn lemma_line_start_same_before(a: Seq<char>, b: Seq<char>, cut: int, line: nat)
    requires
        same_before(a, b, cut),
        line < line_count(a),
        line_start(a, line) <= cut,
        line_start(a, line) < cut || line == 0 || break_ends_at(b, cut),
    ensures
        line_start(b, line) == line_start(a, line),
        line < line_count(b),
{
    let start = line_start(a, line);
    lemma_line_start(a, line);
    if line > 0 {
        if start < cut {
            lemma_breaks_same_before(a, b, cut, start);
        }
        lemma_line_start_from_same_before(a, b, cut, 0, line);
        lemma_line_start(b, line);
        if line >= line_count(b) {
            lemma_count_at_break(a, b, cut, start);
            lemma_breaks_before_monotonic(b, start, b.len() as int);
        }
    }
}

/// A stable line starts at the same offset in every text that holds the same
/// characters before `cut`, and is a line of that text.
pub proof fn lemma_stable_line_start(a: Seq<char>, b: Seq<char>, cut: int, line: nat)
    requires
        same_before(a, b, cut),
        line_is_stable(a, line, cut),
    ensures
        line_start(b, line) == line_start(a, line),
        line < line_count(b),
{
    lemma_line_start(a, line);
    if line > 0 && line_start(a, line) == cut {
        assert(break_ends_at(a, cut));
        assert(b[cut - 1] == a[cut - 1]);
        assert(break_ends_at(b, cut));
    }
    lemma_line_start_same_before(a, b, cut, line);
}

/// Two texts that hold the same characters before `cut` have as many line
/// breaks up to an offset at which both have a break.
proof fn lemma_count_at_break(a: Seq<char>, b: Seq<char>, cut: int, pos: int)
    requires
        same_before(a, b, cut),
        0 < pos <= cut,
        break_ends_at(a, pos),
        break_ends_at(b, pos),
    ensures
        breaks_before(a, pos) == breaks_before(b, pos),
{
    lemma_breaks_same_before(a, b, cut, pos - 1);
}

/// Lines start in order: a later line starts no earlier, and strictly later
/// if the text has a line after the earlier one.
pub proof fn lemma_line_start_ordered(text: Seq<char>, earlier: nat, later: nat)
    requires
        earlier <= later,
    ensures
        line_start(text, earlier) <= line_start(text, later),
        earlier < later && later < line_count(text) ==> line_start(text, earlier) < line_start(
            text,
            later,
        ),
{
    lemma_line_start(text, earlier);
    lemma_line_start(text, later);
    if later < line_count(text) && earlier < later {
        if line_start(text, earlier) >= line_start(text, later) {
            lemma_breaks_before_monotonic(
                text,
                line_start(text, later),
                line_start(text, earlier),
            );
        }
    }
}

/// The text made of `lines`, one after the other.
pub open spec fn joined(lines: Seq<Seq<char>>) -> Seq<char>
    decreases lines.len(),
{
    if lines.len() == 0 {
        Seq::empty()
    } else {
        joined(lines.drop_last()) + lines.last()
    }
}

/// The sum of the lengths of `lines`, in characters.
pub open spec fn total_len(lines: Seq<Seq<char>>) -> nat
    decreases lines.len(),
{
    if lines.len() == 0 {
        0
    } else {
        total_len(lines.drop_last()) + lines.last().len()
    }
}

/// Whether `line` is one whole line: it ends in a line break and holds no
/// other.
pub open spec fn is_whole_line(line: Seq<char>) -> bool {
    &&& line.len() > 0
    &&& forall|i: int| 0 < i <= line.len() ==> (break_ends_at(line, i) <==> i == line.len())
}

/// Whether the break that ends `line` stays the same break when `following`
/// comes after it: a final CR is not followed by an LF.
pub open spec fn joins_cleanly(line: Seq<char>, following: Seq<char>) -> bool {
    !(line.len() > 0 && line.last() == '\u{0D}' && following.len() > 0 && following[0]
        == '\u{0A}')
}

/// Whether `lines` are whole lines that keep their breaks when joined and
/// followed by `rest`.
pub open spec fn are_lines_before(lines: Seq<Seq<char>>, rest: Seq<char>) -> bool {
    &&& forall|k: int| 0 <= k < lines.len() ==> is_whole_line(#[trigger] lines[k])
    &&& forall|k: int|
        0 <= k < lines.len() - 1 ==> joins_cleanly(#[trigger] lines[k], lines[k + 1])
    &&& lines.len() > 0 ==> joins_cleanly(lines.last(), rest)
}

/// The joined text is as long as its lines together.
pub proof fn lemma_joined_len(lines: Seq<Seq<char>>)
    ensures
        joined(lines).len() == total_len(lines),
    decreases lines.len(),
{
    if lines.len() > 0 {
        lemma_joined_len(lines.drop_last());
    }
}

/// Where a character of a line stands in the joined text.
pub proof fn lemma_joined_char(lines: Seq<Seq<char>>, k: int, i: int)
    requires
        0 <= k < lines.len(),
        0 <= i < lines[k].len(),
    ensures
        total_len(lines.take(k)) + lines[k].len() <= total_len(lines),
        total_len(lines.take(k + 1)) == total_len(lines.take(k)) + lines[k].len(),
        joined(lines)[total_len(lines.take(k)) + i] == lines[k][i],
    decreases lines.len(),
{
    let front = lines.drop_last();
    lemma_joined_len(lines);
    lemma_joined_len(front);
    assert(lines.take(k + 1).drop_last() =~= lines.take(k));
    if k == lines.len() - 1 {
        assert(lines.take(k) =~= front);
    } else {
        assert(front.take(k) =~= lines.take(k));
        assert(front[k] == lines[k]);
        lemma_joined_char(front, k, i);
    }
}

/// What the lines before a line add up to is where that line's break count
/// is reached: after `upto` whole lines the text has had `upto` breaks, the
/// last of them ending there.
proof fn lemma_breaks_after_lines(lines: Seq<Seq<char>>, rest: Seq<char>, upto: int)
    requires
        are_lines_before(lines, rest),
        0 <= upto <= lines.len(),
    ensures
        total_len(lines.take(upto)) <= total_len(lines),
        breaks_before(joined(lines) + rest, total_len(lines.take(upto)) as int) == upto,
        upto > 0 ==> break_ends_at(joined(lines) + rest, total_len(lines.take(upto)) as int),
    decreases upto,
{
    let text = joined(lines) + rest;
    lemma_joined_len(lines);
    if upto == 0 {
        assert(lines.take(0) =~= Seq::<Seq<char>>::empty());
    } else {
        let k = upto - 1;
        let line = lines[k];
        let from = total_len(lines.take(k)) as int;
        lemma_breaks_after_lines(lines, rest, k);
        lemma_joined_char(lines, k, 0);
        assert forall|i: int| 0 <= i < line.len() implies text[from + i] == line[i] by {
            lemma_joined_char(lines, k, i);
        }
        lemma_breaks_within_line(text, line, from, line.len() - 1);
        let end = from + line.len();
        assert(break_ends_at(line, line.len() as int));
        if end < text.len() && line.last() == '\u{0D}' {
            if upto < lines.len() {
                lemma_joined_char(lines, upto, 0);
                assert(text[end] == lines[upto][0]);
                assert(joins_cleanly(lines[k], lines[k + 1]));
            } else {
                assert(lines.take(upto) =~= lines);
                assert(text[end] == rest[0]);
            }
        }
        assert(break_ends_at(text, end));
    }
}

/// No line break ends inside a whole line, wherever the line stands.
proof fn lemma_breaks_within_line(text: Seq<char>, line: Seq<char>, from: int, inside: int)
    requires
        is_whole_line(line),
        0 <= from,
        from + line.len() <= text.len(),
        forall|i: int| 0 <= i < line.len() ==> text[from + i] == line[i],
        0 <= inside < line.len(),
    ensures
        breaks_before(text, from + inside) == breaks_before(text, from),
    decreases inside,
{
    if inside > 0 {
        lemma_breaks_within_line(text, line, from, inside - 1);
        assert(text[from + inside - 1] == line[inside - 1]);
        assert(text[from + inside] == line[inside]);
        assert(!break_ends_at(line, inside));
    }
}

/// A line break that completes a given count ends at one offset only.
proof fn lemma_break_of_count_unique(text: Seq<char>, a: int, b: int)
    requires
        break_ends_at(text, a),
        break_ends_at(text, b),
        breaks_before(text, a) == breaks_before(text, b),
    ensures
        a == b,
{
    if a < b {
        lemma_breaks_before_monotonic(text, a, b - 1);
    }
    if b < a {
        lemma_breaks_before_monotonic(text, b, a - 1);
    }
}

/// In a text that begins with known whole lines, a line starts where the
/// lengths of the lines before it add up to, line breaks included.
pub proof fn lemma_line_start_sums_lines(lines: Seq<Seq<char>>, rest: Seq<char>, line: nat)
    requires
        are_lines_before(lines, rest),
        line <= lines.len(),
    ensures
        line < line_count(joined(lines) + rest),
        line_start(joined(lines) + rest, line) == total_len(lines.take(line as int)),
{
    let text = joined(lines) + rest;
    let sum = total_len(lines.take(line as int)) as int;
    lemma_joined_len(lines);
    lemma_breaks_after_lines(lines, rest, line as int);
    lemma_breaks_before_monotonic(text, sum, text.len() as int);
    lemma_line_start(text, line);
    if line > 0 {
        lemma_break_of_count_unique(text, sum, line_start(text, line));
    } else {
        assert(lines.take(0) =~= Seq::<Seq<char>>::empty());
    }
}

} // verus!
