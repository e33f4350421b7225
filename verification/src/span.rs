//! Mapping between byte offsets and line/column coordinates, and the
//! line-window extraction used to show a span with surrounding context.

use vstd::prelude::*;
use vstd::std_specs::iter::IteratorSpec;

verus! {

broadcast use vstd::string::group_string_axioms;

/// A zero-indexed line/column position within a piece of source text.
#[derive(Debug, Clone, Copy, PartialEq, Eq, Structural)]
pub struct Coord {
    pub line: usize,
    pub column: usize,
}

/// The line/column pair reached after scanning the first `i` characters of
/// `s`: a newline advances the line and resets the column, any other
/// character advances the column.
pub open spec fn line_col_at(s: Seq<char>, i: int) -> (int, int)
    decreases i,
{
    if i <= 0 {
        (0, 0)
    } else {
        let prev = line_col_at(s, i - 1);
        if 0 <= i - 1 < s.len() && s[i - 1] == '\n' {
            (prev.0 + 1, 0)
        } else {
            (prev.0, prev.1 + 1)
        }
    }
}

/// Where an index past the end of the text is clamped to: the position of
/// the last character of the last line.
pub open spec fn clamp_index(s: Seq<char>) -> int {
    if s.len() > 0 && s[s.len() - 1] == '\n' {
        s.len() - 1
    } else {
        s.len() as int
    }
}

/// The index whose coordinates `coords_of_idx` reports for `i`.
pub open spec fn effective_index(s: Seq<char>, i: int) -> int {
    if i <= s.len() {
        i
    } else {
        clamp_index(s)
    }
}

pub proof fn lemma_line_col_bounds(s: Seq<char>, i: int)
    ensures
        0 <= line_col_at(s, i).0,
        0 <= line_col_at(s, i).1,
        i >= 0 ==> line_col_at(s, i).0 + line_col_at(s, i).1 <= i,
    decreases i,
{
    if i > 0 {
        lemma_line_col_bounds(s, i - 1);
    }
}

/// Gets the line and column which contain the character at the given index.
///
/// Indices past the end of the content clamp to the coordinate of the last
/// character of the last line; this function never fails.
#[verifier::loop_isolation(false)]
pub fn coords_of_idx(content: &str, index: usize) -> (r: Coord)
    ensures
        (r.line as int, r.column as int) == line_col_at(
            content@,
            effective_index(content@, index as int),
        ),
{
    let chars = chars_of(content);
    let n = chars.len();
    let idx: usize = if index <= n {
        index
    } else {
        if n > 0 && chars[n - 1] == '\n' {
            n - 1
        } else {
            n
        }
    };
    assert(idx as int == effective_index(content@, index as int));

    let mut line: usize = 0;
    let mut column: usize = 0;
    let mut i: usize = 0;
    while i < idx
        invariant
            i <= idx,
            idx <= chars@.len(),
            chars@ == content@,
            (line as int, column as int) == line_col_at(content@, i as int),
        decreases idx - i,
    {
        proof {
            lemma_line_col_bounds(content@, i as int);
        }
        if chars[i] == '\n' {
            line = line + 1;
            column = 0;
        } else {
            column = column + 1;
        }
        i = i + 1;
    }
    Coord { line, column }
}

/// Defines some span within a source's content: a half-open, zero-indexed
/// interval `[start, end)` of character positions.
///
/// Reversed or out-of-bounds ranges are accepted everywhere and degrade
/// gracefully; they never cause a failure.
#[derive(Debug, Clone, Copy, PartialEq, Eq, Structural)]
pub struct SpanRange {
    pub start: usize,
    pub end: usize,
}

impl SpanRange {
    /// Creates a span from its two endpoints.
    pub fn new(start: usize, end: usize) -> (r: SpanRange)
        ensures
            r == (SpanRange { start, end }),
    {
        SpanRange { start, end }
    }
}

/// A span expressed as start and end line/column coordinates.
#[derive(Debug, Clone, Copy, PartialEq, Eq, Structural)]
pub struct Span {
    pub start: Coord,
    pub end: Coord,
}

/// The column interval that `Span::columns` reports: a reversed single-line
/// span collapses to one column at its start.
pub open spec fn spec_columns(s: Span) -> (int, int) {
    if s.start.column > s.end.column {
        (
            s.start.column as int,
            if s.start.column < usize::MAX {
                s.start.column + 1
            } else {
                usize::MAX as int
            },
        )
    } else {
        (s.start.column as int, s.end.column as int)
    }
}

impl Span {
    /// The columns a single-line span covers; a reversed span yields a
    /// single column at its start rather than a negative-width interval.
    pub fn columns(self) -> (r: SpanRange)
        ensures
            (r.start as int, r.end as int) == spec_columns(self),
    {
        if self.start.column > self.end.column {
            let end = if self.start.column < usize::MAX {
                self.start.column + 1
            } else {
                usize::MAX
            };
            SpanRange { start: self.start.column, end }
        } else {
            SpanRange { start: self.start.column, end: self.end.column }
        }
    }

    /// Whether the span's endpoints lie on different lines.
    pub fn is_multiline(self) -> (r: bool)
        ensures
            r == (self.start.line != self.end.line),
    {
        self.start.line != self.end.line
    }
}

/// Gets the line/column coordinates of both endpoints of the given span.
///
/// Both endpoints are mapped independently, so a reversed range yields an
/// inverted span; downstream rendering degrades it to a one-column marker.
pub fn coords_of_span(content: &str, span: SpanRange) -> (r: Span)
    ensures
        (r.start.line as int, r.start.column as int) == line_col_at(
            content@,
            effective_index(content@, span.start as int),
        ),
        (r.end.line as int, r.end.column as int) == line_col_at(
            content@,
            effective_index(content@, span.end as int),
        ),
{
    let start = coords_of_idx(content, span.start);
    let end = coords_of_idx(content, span.end);
    Span { start, end }
}

/// The position of the first newline at or after `i`, or the text's length
/// if there is none.
pub open spec fn next_newline(s: Seq<char>, i: int) -> int
    decreases s.len() - i,
{
    if i < 0 || i >= s.len() {
        s.len() as int
    } else if s[i] == '\n' {
        i
    } else {
        next_newline(s, i + 1)
    }
}

pub proof fn lemma_next_newline(s: Seq<char>, i: int)
    requires
        0 <= i <= s.len(),
    ensures
        i <= next_newline(s, i) <= s.len(),
        forall|j: int| i <= j < next_newline(s, i) ==> s[j] != '\n',
        next_newline(s, i) < s.len() ==> s[next_newline(s, i)] == '\n',
    decreases s.len() - i,
{
    if i < s.len() && s[i] != '\n' {
        lemma_next_newline(s, i + 1);
    }
}

/// The per-line spans of the text, in order: each element is the interval
/// of one line's characters, excluding its terminating newline. A trailing
/// newline does not open a final empty line.
pub open spec fn lines_from(s: Seq<char>, i: int) -> Seq<(int, int)>
    decreases s.len() - i + 1,
        via lines_from_decreases
{
    if i < 0 || i >= s.len() {
        Seq::empty()
    } else {
        seq![(i, next_newline(s, i))] + lines_from(s, next_newline(s, i) + 1)
    }
}

#[via_fn]
proof fn lines_from_decreases(s: Seq<char>, i: int) {
    if 0 <= i < s.len() {
        lemma_next_newline(s, i);
    }
}

/// All line spans of the text.
pub open spec fn lines_of(s: Seq<char>) -> Seq<(int, int)> {
    lines_from(s, 0)
}

pub proof fn lemma_lines_from_props(s: Seq<char>, i: int)
    requires
        0 <= i,
    ensures
        forall|k: int|
            0 <= k < lines_from(s, i).len() ==> i <= #[trigger] lines_from(s, i)[k].0
                <= lines_from(s, i)[k].1 <= s.len(),
        forall|k: int|
            0 <= k && k + 1 < lines_from(s, i).len() ==> #[trigger] lines_from(s, i)[k + 1].0
                == lines_from(s, i)[k].1 + 1,
    decreases s.len() - i + 1,
{
    if 0 <= i < s.len() {
        lemma_next_newline(s, i);
        let e = next_newline(s, i);
        lemma_lines_from_props(s, e + 1);
        let tail = lines_from(s, e + 1);
        let li = lines_from(s, i);
        assert(li =~= seq![(i, e)] + tail);
        assert forall|k: int| 0 <= k < li.len() implies i <= #[trigger] li[k].0 <= li[k].1
            <= s.len() by {
            if k > 0 {
                assert(li[k] == tail[k - 1]);
            }
        }
        assert forall|k: int| 0 <= k && k + 1 < li.len() implies #[trigger] li[k + 1].0 == li[k].1
            + 1 by {
            if k == 0 {
                assert(tail.len() > 0);
                assert(tail[0] == (e + 1, next_newline(s, e + 1)));
                assert(li[1] == tail[0]);
            } else {
                assert(li[k + 1] == tail[k]);
                assert(li[k] == tail[k - 1]);
                assert(lines_from(s, e + 1)[(k - 1) + 1].0 == lines_from(s, e + 1)[k - 1].1 + 1);
            }
        }
        assert forall|k: int|
            0 <= k < lines_from(s, i).len() implies i <= #[trigger] lines_from(s, i)[k].0
            <= lines_from(s, i)[k].1 <= s.len() by {
            assert(lines_from(s, i)[k] == li[k]);
        }
        assert forall|k: int|
            0 <= k && k + 1 < lines_from(s, i).len() implies #[trigger] lines_from(s, i)[k + 1].0
            == lines_from(s, i)[k].1 + 1 by {
            assert(lines_from(s, i)[k + 1] == li[k + 1]);
            assert(lines_from(s, i)[k] == li[k]);
        }
    }
}

pub proof fn lemma_lines_ordered(s: Seq<char>)
    ensures
        forall|k: int|
            0 <= k < lines_of(s).len() ==> 0 <= #[trigger] lines_of(s)[k].0 <= lines_of(s)[k].1
                <= s.len(),
        forall|k1: int, k2: int|
            0 <= k1 <= k2 < lines_of(s).len() ==> #[trigger] lines_of(s)[k1].0
                <= #[trigger] lines_of(s)[k2].0 && lines_of(s)[k1].1 <= lines_of(s)[k2].1,
{
    lemma_lines_from_props(s, 0);
    assert forall|k1: int, k2: int| 0 <= k1 <= k2 < lines_of(s).len() implies #[trigger] lines_of(
        s,
    )[k1].0 <= #[trigger] lines_of(s)[k2].0 && lines_of(s)[k1].1 <= lines_of(s)[k2].1 by {
        lemma_lines_chain(s, k1, k2);
    }
}

proof fn lemma_lines_chain(s: Seq<char>, k1: int, k2: int)
    requires
        0 <= k1 <= k2 < lines_of(s).len(),
    ensures
        lines_of(s)[k1].0 <= lines_of(s)[k2].0,
        lines_of(s)[k1].1 <= lines_of(s)[k2].1,
    decreases k2 - k1,
{
    lemma_lines_from_props(s, 0);
    assert(lines_of(s) == lines_from(s, 0));
    if k1 < k2 {
        lemma_lines_chain(s, k1, k2 - 1);
        assert(lines_from(s, 0)[(k2 - 1) + 1].0 == lines_from(s, 0)[k2 - 1].1 + 1);
    }
}

/// Converts executable line spans to their mathematical form.
pub open spec fn pairs_of(v: Seq<(usize, usize)>) -> Seq<(int, int)> {
    v.map_values(|p: (usize, usize)| (p.0 as int, p.1 as int))
}

pub proof fn lemma_pairs_index(v: Seq<(usize, usize)>, i: int)
    requires
        0 <= i < v.len(),
    ensures
        pairs_of(v)[i] == (v[i].0 as int, v[i].1 as int),
{
}

/// Computes the per-line spans of the given characters.
#[verifier::loop_isolation(false)]
pub fn line_spans_of(chars: &Vec<char>) -> (r: Vec<(usize, usize)>)
    ensures
        pairs_of(r@) == lines_of(chars@),
{
    let ghost s = chars@;
    let n = chars.len();
    let mut spans: Vec<(usize, usize)> = Vec::new();
    let mut start: usize = 0;
    proof {
        assert(pairs_of(spans@) =~= Seq::<(int, int)>::empty());
    }
    while start < n
        invariant
            start <= n,
            n == s.len(),
            chars@ == s,
            lines_of(s) == pairs_of(spans@) + lines_from(s, start as int),
        decreases n - start,
    {
        let ghost spans0 = spans@;
        let mut e: usize = start;
        while e < n && chars[e] != '\n'
            invariant
                start <= e <= n,
                n == s.len(),
                chars@ == s,
                next_newline(s, start as int) == next_newline(s, e as int),
            decreases n - e,
        {
            e = e + 1;
        }
        assert(next_newline(s, e as int) == e as int);
        spans.push((start, e));
        proof {
            assert(pairs_of(spans@) =~= pairs_of(spans0) + seq![(start as int, e as int)]);
        }
        let ghost old_start = start as int;
        if e >= n {
            start = n;
        } else {
            start = e + 1;
        }
        proof {
            assert(lines_from(s, old_start) =~= seq![(old_start, e as int)] + lines_from(
                s,
                e + 1,
            ));
            if e >= n {
                assert(lines_from(s, e + 1) =~= lines_from(s, n as int));
            }
            assert(lines_of(s) =~= pairs_of(spans@) + lines_from(s, start as int));
        }
    }
    proof {
        assert(lines_of(s) =~= pairs_of(spans@));
    }
    spans
}

/// Whether line `k` of the text intersects the interval `[rs, re)`.
pub open spec fn line_matches(s: Seq<char>, k: int, rs: int, re: int) -> bool {
    lines_of(s)[k].1 > rs && lines_of(s)[k].0 < re
}

/// The least line index at or after `k` that intersects `[rs, re)`, or the
/// line count if there is none.
pub open spec fn first_match_from(s: Seq<char>, rs: int, re: int, k: int) -> int
    decreases lines_of(s).len() - k + 1,
{
    if k < 0 {
        first_match_from(s, rs, re, 0)
    } else if k >= lines_of(s).len() {
        lines_of(s).len() as int
    } else if line_matches(s, k, rs, re) {
        k
    } else {
        first_match_from(s, rs, re, k + 1)
    }
}

/// The greatest line index at or below `k` that intersects `[rs, re)`, or
/// `-1` if there is none.
pub open spec fn last_match_upto(s: Seq<char>, rs: int, re: int, k: int) -> int
    decreases k + 1,
{
    if k < 0 {
        -1
    } else if k >= lines_of(s).len() {
        last_match_upto(s, rs, re, lines_of(s).len() - 1)
    } else if line_matches(s, k, rs, re) {
        k
    } else {
        last_match_upto(s, rs, re, k - 1)
    }
}

pub proof fn lemma_first_match(s: Seq<char>, rs: int, re: int, k: int)
    requires
        0 <= k <= lines_of(s).len(),
    ensures
        k <= first_match_from(s, rs, re, k) <= lines_of(s).len(),
        first_match_from(s, rs, re, k) < lines_of(s).len() ==> line_matches(
            s,
            first_match_from(s, rs, re, k),
            rs,
            re,
        ),
        forall|j: int| k <= j < first_match_from(s, rs, re, k) ==> !line_matches(s, j, rs, re),
    decreases lines_of(s).len() - k,
{
    if k < lines_of(s).len() && !line_matches(s, k, rs, re) {
        lemma_first_match(s, rs, re, k + 1);
    }
}

pub proof fn lemma_last_match(s: Seq<char>, rs: int, re: int, k: int)
    requires
        -1 <= k < lines_of(s).len(),
    ensures
        -1 <= last_match_upto(s, rs, re, k) <= k,
        last_match_upto(s, rs, re, k) >= 0 ==> line_matches(
            s,
            last_match_upto(s, rs, re, k),
            rs,
            re,
        ),
        forall|j: int| last_match_upto(s, rs, re, k) < j <= k ==> !line_matches(s, j, rs, re),
    decreases k + 1,
{
    if k >= 0 && !line_matches(s, k, rs, re) {
        lemma_last_match(s, rs, re, k - 1);
    }
}

/// The end of the fallback window substituted when no line intersects the
/// requested span: the window holds the first `2 * c + 1` lines of the
/// text, or all of them if the text is shorter, so it ends at the end of
/// line `2 * c`, clamped to the last line; it is empty only for empty
/// text.
pub open spec fn fallback_end(s: Seq<char>, c: int) -> int {
    let l = lines_of(s);
    if l.len() == 0 {
        0
    } else if 2 * c < l.len() {
        l[2 * c].1
    } else {
        l[l.len() - 1].1
    }
}

/// The context window shown for the interval `[rs, re)` with `c` context
/// lines: the text of the window and the line index of the first line that
/// actually intersects the interval (or `c` itself for the fallback window).
pub open spec fn extract_spec(s: Seq<char>, rs: int, re: int, c: int) -> (Seq<char>, int) {
    let l = lines_of(s);
    let f = first_match_from(s, rs, re, 0);
    if f == l.len() {
        (s.subrange(0, fallback_end(s, c)), c)
    } else {
        let lm = last_match_upto(s, rs, re, l.len() - 1);
        let first = if f - c >= 0 {
            f - c
        } else {
            0
        };
        let last = if lm + c <= l.len() - 1 {
            lm + c
        } else {
            l.len() - 1
        };
        (s.subrange(l[first].0, l[last].1), f)
    }
}

/// Law: any index past the end of the text is reported at the coordinate of
/// the last character of the last line, a position that always lies within
/// the text, never past it.
pub proof fn lemma_coords_of_idx_clamped(s: Seq<char>, i: int)
    requires
        i > s.len(),
    ensures
        effective_index(s, i) == clamp_index(s),
        0 <= clamp_index(s) <= s.len(),
        line_col_at(s, effective_index(s, i)).0 + line_col_at(s, effective_index(s, i)).1
            <= s.len(),
{
    lemma_line_col_bounds(s, clamp_index(s));
}

/// Law: for a span lying entirely past the end of the content, the context
/// window is the fallback window, which begins at position zero and is not
/// empty. The exceptions are contents whose window consists only of an
/// empty first line: content starting with a newline when no context lines
/// are asked for, or single-line content whose one line is empty.
pub proof fn lemma_extract_fallback(s: Seq<char>, rs: int, re: int, c: int)
    requires
        rs >= s.len(),
        s.len() > 0,
        c >= 0,
        s[0] == '\n' ==> c >= 1 && lines_of(s).len() >= 2,
    ensures
        extract_spec(s, rs, re, c).0 == s.subrange(0, fallback_end(s, c)),
        extract_spec(s, rs, re, c).0.len() > 0,
        extract_spec(s, rs, re, c).1 == c,
{
    let l = lines_of(s);
    lemma_lines_from_props(s, 0);
    lemma_lines_ordered(s);
    assert forall|k: int| 0 <= k < l.len() implies !line_matches(s, k, rs, re) by {
        assert(0 <= lines_from(s, 0)[k].0);
        assert(lines_from(s, 0)[k].1 <= s.len());
    }
    lemma_first_match(s, rs, re, 0);
    if first_match_from(s, rs, re, 0) < l.len() {
        assert(line_matches(s, first_match_from(s, rs, re, 0), rs, re));
        assert(false);
    }
    assert(l.len() > 0);
    lemma_next_newline(s, 0);
    assert(l[0] == (0int, next_newline(s, 0)));
    let idx = if 2 * c < l.len() {
        2 * c
    } else {
        l.len() - 1
    };
    assert(fallback_end(s, c) == l[idx].1);
    if idx == 0 {
        if next_newline(s, 0) == 0 {
            assert(s[0] == '\n');
            assert(c >= 1 && l.len() >= 2);
            assert(false);
        }
        assert(fallback_end(s, c) >= 1);
    } else {
        assert(0 <= lines_from(s, 0)[idx - 1].0);
        assert(0 <= lines_from(s, 0)[idx].0);
        assert(lines_from(s, 0)[(idx - 1) + 1].0 == lines_from(s, 0)[idx - 1].1 + 1);
        assert(l[idx].1 >= l[idx].0 >= 1);
    }
}

/// Whether any line of the text intersects the interval `[rs, re)`.
pub open spec fn spec_has_match(s: Seq<char>, rs: int, re: int) -> bool {
    first_match_from(s, rs, re, 0) < lines_of(s).len()
}

/// The index of the first line of the extracted window within the whole
/// text: the first intersecting line moved back by the context amount, or
/// zero for the fallback window.
pub open spec fn window_first_spec(s: Seq<char>, rs: int, re: int, c: int) -> int {
    if spec_has_match(s, rs, re) {
        let f = first_match_from(s, rs, re, 0);
        if f - c >= 0 {
            f - c
        } else {
            0
        }
    } else {
        0
    }
}

/// Extracts the window of lines shown for the given span: the intersecting
/// lines plus `context_lines` surrounding lines on each side, clamped to
/// the text. Returns the window's text, the index of the window's first
/// line, the index of the first intersecting line (or `context_lines` for
/// the fallback window), and whether any line intersected the span.
///
/// If no line intersects the span (for instance, a range entirely past the
/// end), a fallback window from the start of the text is returned instead
/// of failing.
#[verifier::loop_isolation(false)]
pub fn extract_window<'a>(input: &'a str, range: SpanRange, context_lines: usize) -> (r: (
    &'a str,
    usize,
    usize,
    bool,
))
    ensures
        r.0@ == extract_spec(input@, range.start as int, range.end as int, context_lines as int).0,
        r.1 as int == window_first_spec(input@, range.start as int, range.end as int, context_lines as int),
        r.2 as int == extract_spec(
            input@,
            range.start as int,
            range.end as int,
            context_lines as int,
        ).1,
        r.3 == spec_has_match(input@, range.start as int, range.end as int),
{
    let ghost s = input@;
    let ghost rs = range.start as int;
    let ghost re = range.end as int;
    let chars = chars_of(input);
    let spans = line_spans_of(&chars);
    let m = spans.len();
    proof {
        lemma_lines_ordered(s);
        assert(pairs_of(spans@).len() == m);
    }

    let mut fm: usize = m;
    let mut lm: usize = m;
    let mut i: usize = 0;
    while i < m
        invariant
            i <= m,
            fm <= m,
            lm <= m,
            m == lines_of(s).len(),
            m == spans@.len(),
            pairs_of(spans@) == lines_of(s),
            fm == m ==> lm == m && (forall|j: int| 0 <= j < i ==> !line_matches(s, j, rs, re)),
            fm < m ==> fm < i && line_matches(s, fm as int, rs, re) && (forall|j: int|
                0 <= j < fm ==> !line_matches(s, j, rs, re)),
            fm < m ==> fm <= lm < i && line_matches(s, lm as int, rs, re) && (forall|j: int|
                lm < j < i ==> !line_matches(s, j, rs, re)),
        decreases m - i,
    {
        let sp = spans[i];
        proof {
            lemma_pairs_index(spans@, i as int);
            assert(lines_of(s)[i as int] == (spans@[i as int].0 as int, spans@[i as int].1 as int));
        }
        if sp.1 > range.start && sp.0 < range.end {
            assert(line_matches(s, i as int, rs, re));
            if fm == m {
                fm = i;
            }
            lm = i;
        } else {
            assert(!line_matches(s, i as int, rs, re));
        }
        i = i + 1;
    }

    proof {
        lemma_first_match(s, rs, re, 0);
        if m > 0 {
            lemma_last_match(s, rs, re, m as int - 1);
        }
    }
    if fm == m {
        assert(first_match_from(s, rs, re, 0) == m as int);
        let end_idx: usize = if m == 0 {
            0
        } else if context_lines <= (m - 1) / 2 {
            proof {
                assert(2 * (context_lines as int) <= 2 * (((m - 1) as int) / 2));
                assert(2 * (((m - 1) as int) / 2) <= (m - 1) as int);
            }
            proof {
                lemma_pairs_index(spans@, 2 * (context_lines as int));
            }
            spans[2 * context_lines].1
        } else {
            proof {
                assert(context_lines as int > ((m - 1) as int) / 2);
                assert(2 * (context_lines as int) >= m as int);
                lemma_pairs_index(spans@, m as int - 1);
            }
            spans[m - 1].1
        };
        assert(end_idx as int == fallback_end(s, context_lines as int));
        let out = input.substring_char(0, end_idx);
        (out, 0, context_lines, false)
    } else {
        proof {
            let f = first_match_from(s, rs, re, 0);
            if f < fm as int {
                assert(line_matches(s, f, rs, re));
                assert(false);
            }
            if f > fm as int {
                assert(!line_matches(s, fm as int, rs, re));
                assert(false);
            }
            let l = last_match_upto(s, rs, re, m as int - 1);
            if l < lm as int {
                assert(!line_matches(s, lm as int, rs, re));
                assert(false);
            }
            if l > lm as int {
                assert(!line_matches(s, l, rs, re));
                assert(false);
            }
        }
        assert(first_match_from(s, rs, re, 0) == fm as int);
        assert(last_match_upto(s, rs, re, m as int - 1) == lm as int);
        let first: usize = if fm >= context_lines {
            fm - context_lines
        } else {
            0
        };
        let last: usize = if m - 1 - lm >= context_lines {
            lm + context_lines
        } else {
            m - 1
        };
        assert(first <= last);
        proof {
            lemma_pairs_index(spans@, first as int);
            lemma_pairs_index(spans@, last as int);
        }
        let out = input.substring_char(spans[first].0, spans[last].1);
        (out, first, fm, true)
    }
}

/// Extracts the lines which the given span intersects, together with
/// `context_lines` surrounding lines on each side, clamped to the text.
/// Also returns the index of the first line that intersects the span.
///
/// If no line intersects the span, a fallback window of the first
/// `2 * context_lines + 1` lines is returned instead of failing, with
/// `context_lines` as the reported index.
pub fn extract_with_context_offset<'a>(
    input: &'a str,
    range: SpanRange,
    context_lines: usize,
) -> (r: (&'a str, usize))
    ensures
        r.0@ == extract_spec(input@, range.start as int, range.end as int, context_lines as int).0,
        r.1 as int == extract_spec(
            input@,
            range.start as int,
            range.end as int,
            context_lines as int,
        ).1,
{
    let (slice, _, offset, _) = extract_window(input, range, context_lines);
    (slice, offset)
}

/// Extracts the lines which the given span intersects, together with
/// `context_lines` surrounding lines on each side, clamped to the text.
/// If no line intersects the span, a fallback window of the first
/// `2 * context_lines + 1` lines is returned instead of failing.
pub fn extract_with_context<'a>(input: &'a str, range: SpanRange, context_lines: usize) -> (r:
    &'a str)
    ensures
        r@ == extract_spec(input@, range.start as int, range.end as int, context_lines as int).0,
{
    let (slice, _, _, _) = extract_window(input, range, context_lines);
    slice
}

/// Counts the lines of the given text.
#[verifier::loop_isolation(false)]
pub fn count_lines(s: &str) -> (r: usize)
    ensures
        r as int == lines_of(s@).len(),
{
    let chars = chars_of(s);
    let spans = line_spans_of(&chars);
    proof {
        assert(pairs_of(spans@).len() == spans@.len());
    }
    spans.len()
}

/// Collects the characters of a string into a vector.
#[verifier::loop_isolation(false)]
pub fn chars_of(s: &str) -> (r: Vec<char>)
    ensures
        r@ == s@,
{
    let mut it = s.chars();
    let mut out: Vec<char> = Vec::new();
    loop
        invariant
            out@ + it.remaining() == s@,
            it.obeys_prophetic_iter_laws(),
            it.decrease() is Some,
        decreases it.decrease()->0,
    {
        let next = it.next();
        match next {
            Some(c) => {
                out.push(c);
            },
            None => {
                proof {
                    assert(out@ =~= s@);
                }
                return out;
            },
        }
    }
}

} // verus!
