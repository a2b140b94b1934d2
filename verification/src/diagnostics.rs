//! Diagnostics: a message, a locator and an excerpt of the source it points at.

use vstd::prelude::*;
use crate::text::{
    chars_of, decimal, decimal_len, lemma_decimal_len_bound, lemma_decimal_len_monotonic,
    pad_left, push_decimal, push_range, push_repeated, push_text, repeated, string_of,
};

verus! {

/// A place in a source text. Lines and columns are counted from one.
#[derive(Clone, Copy, Debug, PartialEq, Eq, Structural)]
pub struct Position {
    pub line: u32,
    pub column: u32,
}

/// The part of a source text from `start` up to, not including, `end`.
#[derive(Clone, Copy, Debug, PartialEq, Eq, Structural)]
pub struct Span {
    pub start: Position,
    pub end: Position,
}

impl Span {
    /// A span starts on a real line and does not end before it starts.
    pub open spec fn is_valid(self) -> bool {
        &&& 1 <= self.start.line <= self.end.line
        &&& self.start.line == self.end.line ==> self.start.column <= self.end.column
    }

    /// Whether the span is valid, for callers that hold one of unknown origin.
    pub fn check(&self) -> (ok: bool)
        ensures
            ok == self.is_valid(),
    {
        1 <= self.start.line && self.start.line <= self.end.line && (self.start.line
            != self.end.line || self.start.column <= self.end.column)
    }
}

/// Where the first line of `s` ends: the index of its first line feed, or its length.
pub open spec fn line_break(s: Seq<char>) -> int
    decreases s.len(),
{
    if s.len() == 0 || s[0] == '\n' {
        0
    } else {
        1 + line_break(s.drop_first())
    }
}

/// A line without the carriage return that may precede its line feed.
pub open spec fn without_return(line: Seq<char>) -> Seq<char> {
    if line.len() > 0 && line.last() == '\r' {
        line.drop_last()
    } else {
        line
    }
}

/// The lines of a text. A line ends with a line feed, or a carriage return and a line
/// feed, neither of which belongs to it; what follows the last line feed is a line too,
/// taken as it stands, unless it is empty.
pub open spec fn lines_of(s: Seq<char>) -> Seq<Seq<char>>
    decreases s.len(),
{
    if s.len() == 0 {
        Seq::empty()
    } else {
        let k = line_break(s);
        if 0 <= k < s.len() {
            seq![without_return(s.take(k))] + lines_of(s.skip(k + 1))
        } else {
            seq![s]
        }
    }
}

/// `line_break` finds the first line feed.
pub proof fn lemma_line_break(s: Seq<char>, k: int)
    requires
        0 <= k <= s.len(),
        forall|i: int| 0 <= i < k ==> s[i] != '\n',
        k == s.len() || s[k] == '\n',
    ensures
        line_break(s) == k,
    decreases k,
{
    if k > 0 {
        lemma_line_break(s.drop_first(), k - 1);
    }
}

/// The parts of `src` that the given ranges cut out.
pub open spec fn slices(src: Seq<char>, ranges: Seq<(usize, usize)>) -> Seq<Seq<char>> {
    Seq::new(ranges.len(), |i: int| src.subrange(ranges[i].0 as int, ranges[i].1 as int))
}

/// Each range lies inside a text of `len` characters.
pub open spec fn ranges_within(ranges: Seq<(usize, usize)>, len: nat) -> bool {
    forall|i: int| 0 <= i < ranges.len() ==> (#[trigger] ranges[i]).0 <= ranges[i].1 <= len
}

/// Where each line of `src` starts and ends.
pub fn split_lines(src: &Vec<char>) -> (ranges: Vec<(usize, usize)>)
    ensures
        ranges_within(ranges@, src@.len()),
        slices(src@, ranges@) == lines_of(src@),
{
    let mut ranges: Vec<(usize, usize)> = Vec::new();
    let mut pos: usize = 0;
    assert(src@.skip(0) =~= src@);
    assert(slices(src@, ranges@) =~= Seq::empty());
    while pos < src.len()
        invariant
            pos <= src.len(),
            ranges_within(ranges@, src@.len()),
            lines_of(src@) == slices(src@, ranges@) + lines_of(src@.skip(pos as int)),
        decreases src.len() - pos,
    {
        let ghost rest = src@.skip(pos as int);
        let ghost done = slices(src@, ranges@);
        let mut j: usize = pos;
        while j < src.len() && src[j] != '\n'
            invariant
                pos <= j <= src.len(),
                forall|i: int| pos <= i < j ==> src@[i] != '\n',
            decreases src.len() - j,
        {
            j += 1;
        }
        proof {
            lemma_line_break(rest, j - pos);
        }
        if j == src.len() {
            ranges.push((pos, j));
            proof {
                assert(src@.subrange(pos as int, j as int) =~= rest);
                assert(lines_of(rest) =~= seq![rest]);
                assert(slices(src@, ranges@) =~= done + seq![rest]);
                assert(lines_of(src@.skip(j as int)) =~= Seq::empty());
            }
            pos = j;
        } else {
            let end: usize = if j > pos && src[j - 1] == '\r' {
                j - 1
            } else {
                j
            };
            ranges.push((pos, end));
            proof {
                let line = rest.take(j - pos);
                assert(line =~= src@.subrange(pos as int, j as int));
                assert(without_return(line) =~= src@.subrange(pos as int, end as int));
                assert(rest.skip(j - pos + 1) =~= src@.skip(j + 1));
                assert(slices(src@, ranges@) =~= done + seq![without_return(line)]);
            }
            pos = j + 1;
        }
    }
    proof {
        assert(lines_of(src@.skip(pos as int)) =~= Seq::empty());
    }
    ranges
}

/// One line of an excerpt: the line's number, right-aligned in a column of `width`
/// characters, a bar, and the line.
pub open spec fn excerpt_row(number: nat, width: nat, line: Seq<char>) -> Seq<char> {
    seq![' '] + pad_left(decimal(number), width) + seq![' ', '|', ' '] + line + seq!['\n']
}

/// The lines of an excerpt, numbered from `first` on.
pub open spec fn excerpt_rows(lines: Seq<Seq<char>>, first: nat, width: nat) -> Seq<char>
    decreases lines.len(),
{
    if lines.len() == 0 {
        Seq::empty()
    } else {
        excerpt_rows(lines.drop_last(), first, width) + excerpt_row(
            (first + lines.len() - 1) as nat,
            width,
            lines.last(),
        )
    }
}

/// The line under a one-line excerpt: carets below the columns from `start` up to,
/// not including, `end`.
pub open spec fn caret_row(width: nat, start: nat, end: nat) -> Seq<char> {
    repeated(' ', width + 2) + seq!['|'] + repeated(' ', start) + repeated(
        '^',
        (end - start) as nat,
    )
}

/// The lines of `script` that a span from line `first` to line `last` covers, as far
/// as the script has them.
pub open spec fn covered_lines(script: Seq<char>, first: nat, last: nat) -> Seq<Seq<char>> {
    let all = lines_of(script);
    if 1 <= first <= last && first <= all.len() {
        all.subrange(first - 1, if last <= all.len() { last as int } else { all.len() as int })
    } else {
        Seq::empty()
    }
}

/// The width of the line-number column: that of the span's last line number.
pub open spec fn number_width(span: Span) -> nat {
    decimal(span.end.line as nat).len()
}

/// The excerpt of a diagnostic. A span within one line shows that line and carets
/// under the span; any other span shows each covered line and no carets.
pub open spec fn render_excerpt(script: Seq<char>, span: Span) -> Seq<char> {
    let width = number_width(span);
    let lines = covered_lines(script, span.start.line as nat, span.end.line as nat);
    if span.start.line == span.end.line && lines.len() == 1 {
        excerpt_row(span.start.line as nat, width, lines[0]) + caret_row(
            width,
            span.start.column as nat,
            span.end.column as nat,
        )
    } else {
        excerpt_rows(lines, span.start.line as nat, width)
    }
}

/// A diagnostic: the message, a locator with the span's first line and column, an
/// empty excerpt line, and the excerpt.
pub open spec fn render_error(message: Seq<char>, script: Seq<char>, span: Span) -> Seq<char> {
    message + seq!['\n', ' ', '-', '-', '>', ' '] + decimal(span.start.line as nat) + seq![':']
        + decimal(span.start.column as nat) + seq!['\n'] + repeated(
        ' ',
        number_width(span) + 2,
    ) + seq!['|', '\n'] + render_excerpt(script, span)
}

/// No line number of a valid span is wider than the line-number column.
pub proof fn lemma_number_width_is_widest(span: Span, line: nat)
    requires
        span.is_valid(),
        span.start.line <= line <= span.end.line,
    ensures
        decimal(line).len() <= number_width(span),
        pad_left(decimal(line), number_width(span)).len() == number_width(span),
{
    lemma_decimal_len_monotonic(line, span.end.line as nat);
}

/// Appends one line of an excerpt.
fn push_excerpt_row(out: &mut Vec<char>, number: u32, width: usize, src: &Vec<char>, range: (usize, usize))
    requires
        range.0 <= range.1 <= src.len(),
    ensures
        final(out)@ == old(out)@ + excerpt_row(
            number as nat,
            width as nat,
            src@.subrange(range.0 as int, range.1 as int),
        ),
{
    let digits = decimal_len(number as u64);
    out.push(' ');
    if digits < width {
        push_repeated(out, ' ', width - digits);
    }
    push_decimal(out, number as u64);
    out.push(' ');
    out.push('|');
    out.push(' ');
    push_range(out, src, range.0, range.1);
    out.push('\n');
    assert(out@ =~= old(out)@ + excerpt_row(
        number as nat,
        width as nat,
        src@.subrange(range.0 as int, range.1 as int),
    ));
}

/// Renders a diagnostic for `message` at `span` of `script`.
pub fn format_error(message: &str, script: &str, span: Span) -> (out: String)
    requires
        span.is_valid(),
    ensures
        out@ == render_error(message@, script@, span),
{
    let src = chars_of(script);
    let ranges = split_lines(&src);
    let width = decimal_len(span.end.line as u64);
    proof {
        lemma_decimal_len_bound(span.end.line as nat);
    }
    let first: usize = (span.start.line - 1) as usize;
    let last: usize = if (span.end.line as usize) <= ranges.len() {
        span.end.line as usize
    } else {
        ranges.len()
    };
    let ghost all = lines_of(src@);
    let ghost lines = covered_lines(script@, span.start.line as nat, span.end.line as nat);

    let mut out: Vec<char> = Vec::new();
    push_text(&mut out, message);
    out.push('\n');
    out.push(' ');
    out.push('-');
    out.push('-');
    out.push('>');
    out.push(' ');
    push_decimal(&mut out, span.start.line as u64);
    out.push(':');
    push_decimal(&mut out, span.start.column as u64);
    out.push('\n');
    push_repeated(&mut out, ' ', width + 2);
    out.push('|');
    out.push('\n');
    let ghost head = out@;
    assert(head =~= message@ + seq!['\n', ' ', '-', '-', '>', ' '] + decimal(
        span.start.line as nat,
    ) + seq![':'] + decimal(span.start.column as nat) + seq!['\n'] + repeated(
        ' ',
        number_width(span) + 2,
    ) + seq!['|', '\n']);

    if first < ranges.len() {
        assert(lines =~= all.subrange(first as int, last as int));
        if span.start.line == span.end.line {
            assert(lines.len() == 1);
            assert(lines[0] == slices(src@, ranges@)[first as int]);
            push_excerpt_row(&mut out, span.start.line, width, &src, ranges[first]);
            push_repeated(&mut out, ' ', width + 2);
            out.push('|');
            push_repeated(&mut out, ' ', span.start.column as usize);
            push_repeated(&mut out, '^', (span.end.column - span.start.column) as usize);
            assert(out@ =~= head + render_excerpt(script@, span));
        } else {
            let mut i: usize = first;
            assert(lines.take(0) =~= Seq::<Seq<char>>::empty());
            while i < last
                invariant
                    first <= i <= last <= ranges.len(),
                    first == span.start.line - 1,
                    last <= span.end.line,
                    ranges_within(ranges@, src@.len()),
                    slices(src@, ranges@) == all,
                    lines == all.subrange(first as int, last as int),
                    out@ == head + excerpt_rows(
                        lines.take(i - first),
                        span.start.line as nat,
                        width as nat,
                    ),
                decreases last - i,
            {
                let ghost before = lines.take(i - first);
                let ghost after = lines.take(i - first + 1);
                let number: u32 = span.start.line + (i - first) as u32;
                assert(all[i as int] == slices(src@, ranges@)[i as int]);
                push_excerpt_row(&mut out, number, width, &src, ranges[i]);
                proof {
                    assert(after.drop_last() =~= before);
                    assert(after.last() == all[i as int]);
                }
                i += 1;
            }
            assert(lines.take(last - first) =~= lines);
            assert(lines.len() != 1 || span.start.line != span.end.line);
        }
    } else {
        assert(lines =~= Seq::<Seq<char>>::empty());
    }
    string_of(&out)
}

} // verus!
