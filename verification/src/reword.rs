//! The document in which a commit is reworded: its headers, its dates and Git's clean-up of the
//! edited message.
use vstd::prelude::*;
use vstd::string::StringSliceAdditionalSpecFns;

use crate::bytes::{has_prefix, push_all};
use crate::commit::Time;

verus! {

// ---------------------------------------------------------------------------------------------
// Lines.
// ---------------------------------------------------------------------------------------------

/// The end of the line that starts at `start`: the position of the next newline, or the end of `s`.
pub open spec fn line_end(s: Seq<u8>, start: int) -> int
    decreases s.len() - start,
{
    if start >= s.len() {
        s.len() as int
    } else if s[start] == 10u8 {
        start
    } else {
        line_end(s, start + 1)
    }
}

/// The end of a line lies between its start and the end of the text, on a newline unless at the end.
pub proof fn lemma_line_end_bounds(s: Seq<u8>, start: int)
    requires
        0 <= start <= s.len(),
    ensures
        start <= line_end(s, start) <= s.len(),
        line_end(s, start) < s.len() ==> s[line_end(s, start)] == 10u8,
    decreases s.len() - start,
{
    if start < s.len() && s[start] != 10u8 {
        lemma_line_end_bounds(s, start + 1);
    }
}

/// The line ends where the scan from `start` reaches the first newline at or after `at`.
pub proof fn lemma_line_end_skip(s: Seq<u8>, start: int, at: int)
    requires
        0 <= start <= at <= s.len(),
        forall|k: int| start <= k < at ==> s[k] != 10u8,
    ensures
        line_end(s, start) == line_end(s, at),
    decreases at - start,
{
    if start < at {
        lemma_line_end_skip(s, start + 1, at);
    }
}

/// The end of the line that starts at `start`.
pub(crate) fn find_line_end(s: &[u8], start: usize) -> (e: usize)
    requires
        start <= s@.len(),
    ensures
        e == line_end(s@, start as int),
        start <= e <= s@.len(),
        e < s@.len() ==> s@[e as int] == 10u8,
{
    let mut at = start;
    while at < s.len() && s[at] != 10u8
        invariant
            start <= at <= s@.len(),
            forall|k: int| start <= k < at ==> s@[k] != 10u8,
        decreases s@.len() - at,
    {
        at += 1;
    }
    proof {
        lemma_line_end_skip(s@, start as int, at as int);
    }
    at
}

/// The line without one trailing carriage return.
pub open spec fn without_trailing_cr(line: Seq<u8>) -> Seq<u8> {
    if line.len() > 0 && line.last() == 13u8 {
        line.drop_last()
    } else {
        line
    }
}

/// The bounds of `s[start..end]` without one trailing carriage return.
pub(crate) fn trim_cr(s: &[u8], start: usize, end: usize) -> (r: usize)
    requires
        start <= end <= s@.len(),
    ensures
        start <= r <= end,
        s@.subrange(start as int, r as int) == without_trailing_cr(s@.subrange(start as int, end as int)),
{
    if end > start && s[end - 1] == 13u8 {
        assert(s@.subrange(start as int, end - 1) =~= s@.subrange(start as int, end as int).drop_last());
        end - 1
    } else {
        end
    }
}

/// The bytes that Git's clean-up treats as trailing whitespace.
pub open spec fn ascii_whitespace(b: u8) -> bool {
    b == 32u8 || b == 9u8 || b == 10u8 || b == 12u8 || b == 13u8
}

/// The line without trailing whitespace.
pub open spec fn trim_end(line: Seq<u8>) -> Seq<u8>
    decreases line.len(),
{
    if line.len() > 0 && ascii_whitespace(line.last()) {
        trim_end(line.drop_last())
    } else {
        line
    }
}

// ---------------------------------------------------------------------------------------------
// Message clean-up.
// ---------------------------------------------------------------------------------------------

/// The line from `start` to `end` as clean-up keeps it: `None` for a comment, which begins with the
/// comment prefix, else the line without its carriage return and trailing whitespace.
pub open spec fn kept_line(s: Seq<u8>, start: int, end: int, comment: Seq<u8>) -> Option<Seq<u8>> {
    let line = without_trailing_cr(s.subrange(start, end));
    if has_prefix(line, comment) {
        None
    } else {
        Some(trim_end(line))
    }
}

/// Clean-up of the lines from `start` on, given the output `out` so far and whether blank lines were
/// skipped since its last line: comments are dropped, runs of blank lines become one empty line
/// between paragraphs, and leading and trailing blank lines go.
pub open spec fn cleanup_from(s: Seq<u8>, start: int, comment: Seq<u8>, out: Seq<u8>, blank: bool) -> Seq<u8>
    decreases s.len() - start,
{
    if start < 0 || start >= s.len() {
        out
    } else {
        let end = line_end(s, start);
        proof {
            lemma_line_end_bounds(s, start);
        }
        let next = if end < s.len() {
            end + 1
        } else {
            s.len() as int
        };
        match kept_line(s, start, end, comment) {
            None => cleanup_from(s, next, comment, out, blank),
            Some(line) => if line.len() == 0 {
                cleanup_from(s, next, comment, out, true)
            } else {
                let sep = if out.len() > 0 && blank {
                    seq![10u8]
                } else {
                    seq![]
                };
                cleanup_from(s, next, comment, out + sep + line + seq![10u8], false)
            },
        }
    }
}

/// A message cleaned up as Git does for the comment prefix `comment`.
pub open spec fn cleaned(s: Seq<u8>, comment: Seq<u8>) -> Seq<u8> {
    cleanup_from(s, 0, comment, seq![], false)
}

/// Cleans up an edited message: lines that begin with the comment prefix are removed, trailing
/// whitespace is trimmed, and blank lines are collapsed and removed at both ends.
pub fn cleanup_message(input: &[u8], comment_char: &[u8]) -> (r: Vec<u8>)
    ensures
        r@ == cleaned(input@, comment_char@),
{
    let mut out: Vec<u8> = Vec::new();
    let mut blank = false;
    let mut start: usize = 0;
    while start < input.len()
        invariant
            start <= input@.len(),
            cleanup_from(input@, start as int, comment_char@, out@, blank) == cleaned(input@, comment_char@),
        decreases input@.len() - start,
    {
        let end = find_line_end(input, start);
        let trimmed = trim_cr(input, start, end);
        let ghost line = input@.subrange(start as int, trimmed as int);
        let comment = comment_char.len() <= trimmed - start && crate::bytes::eq_at(input, start, comment_char);
        proof {
            if comment_char@.len() <= trimmed - start {
                assert(line.subrange(0, comment_char@.len() as int) =~= input@.subrange(
                    start as int,
                    start + comment_char@.len(),
                ));
            }
        }
        if !comment {
            let mut last = trimmed;
            while last > start && is_ascii_whitespace(input[last - 1])
                invariant
                    start <= last <= trimmed,
                    trimmed <= input@.len(),
                    line == input@.subrange(start as int, trimmed as int),
                    trim_end(input@.subrange(start as int, last as int)) == trim_end(line),
                decreases last - start,
            {
                assert(input@.subrange(start as int, last - 1) =~= input@.subrange(start as int, last as int).drop_last());
                last -= 1;
            }
            if last == start {
                blank = true;
            } else {
                let ghost before = out@;
                if out.len() > 0 && blank {
                    out.push(10u8);
                }
                push_all(&mut out, slice_range(input, start, last));
                out.push(10u8);
                proof {
                    let sep = if before.len() > 0 && blank {
                        seq![10u8]
                    } else {
                        seq![]
                    };
                    assert(trim_end(input@.subrange(start as int, last as int)) == input@.subrange(start as int, last as int));
                    assert(out@ =~= before + sep + input@.subrange(start as int, last as int) + seq![10u8]);
                }
                blank = false;
            }
        }
        if end < input.len() {
            start = end + 1;
        } else {
            start = input.len();
        }
    }
    out
}

/// A line of `q + b` that starts within `b` ends where it ends in `b`.
proof fn lemma_line_end_shift(q: Seq<u8>, b: Seq<u8>, i: int)
    requires
        0 <= i <= b.len(),
    ensures
        line_end(q + b, q.len() + i) == q.len() + line_end(b, i),
    decreases b.len() - i,
{
    if i < b.len() {
        assert((q + b)[q.len() + i] == b[i]);
        if b[i] != 10u8 {
            lemma_line_end_shift(q, b, i + 1);
        }
    }
}

/// A line that starts within `a`, which ends with a newline, ends within `a` whatever follows.
proof fn lemma_line_end_within(a: Seq<u8>, y: Seq<u8>, start: int)
    requires
        0 <= start < a.len(),
        a.last() == 10u8,
    ensures
        line_end(a + y, start) == line_end(a, start),
        line_end(a, start) < a.len(),
    decreases a.len() - start,
{
    assert((a + y)[start] == a[start]);
    if a[start] != 10u8 {
        lemma_line_end_within(a, y, start + 1);
    }
}

/// Clean-up of `q + b` from a line start within `b` goes on as clean-up of `b` alone.
proof fn lemma_cleanup_shift(q: Seq<u8>, b: Seq<u8>, i: int, comment: Seq<u8>, out: Seq<u8>, blank: bool)
    requires
        0 <= i,
    ensures
        cleanup_from(q + b, q.len() + i, comment, out, blank) == cleanup_from(b, i, comment, out, blank),
    decreases b.len() - i,
{
    let s = q + b;
    if i < b.len() {
        lemma_line_end_shift(q, b, i);
        lemma_line_end_bounds(b, i);
        let end = line_end(b, i);
        assert(s.subrange(q.len() + i, q.len() + end) =~= b.subrange(i, end));
        assert(kept_line(s, q.len() + i, q.len() + end, comment) == kept_line(b, i, end, comment));
        let next = if end < b.len() { end + 1 } else { b.len() as int };
        match kept_line(b, i, end, comment) {
            None => lemma_cleanup_shift(q, b, next, comment, out, blank),
            Some(line) => if line.len() == 0 {
                lemma_cleanup_shift(q, b, next, comment, out, true);
            } else {
                let sep = if out.len() > 0 && blank { seq![10u8] } else { seq![] };
                lemma_cleanup_shift(q, b, next, comment, out + sep + line + seq![10u8], false);
            },
        }
    }
}

/// At the start of a comment line `c + x`, clean-up skips it and goes on as if it were not there.
proof fn lemma_comment_line_skipped(
    a: Seq<u8>,
    c: Seq<u8>,
    x: Seq<u8>,
    b: Seq<u8>,
    out: Seq<u8>,
    blank: bool,
)
    requires
        !x.contains(10u8),
        !c.contains(10u8),
        !c.contains(13u8),
    ensures
        cleanup_from(a + c + x + seq![10u8] + b, a.len() as int, c, out, blank)
            == cleanup_from(a + b, a.len() as int, c, out, blank),
{
    let q = a + c + x + seq![10u8];
    let s = a + c + x + seq![10u8] + b;
    assert(s =~= q + b);
    let at: int = (a.len() + c.len() + x.len()) as int;
    assert forall|k: int| a.len() <= k < at implies s[k] != 10u8 by {
        if k < a.len() + c.len() {
            assert(s[k] == c[k - a.len()]);
        } else {
            assert(s[k] == x[k - a.len() - c.len()]);
        }
    }
    assert(s[at] == 10u8);
    lemma_line_end_skip(s, a.len() as int, at);
    assert(line_end(s, at) == at);
    let line = s.subrange(a.len() as int, at);
    assert(line =~= c + x);
    if x.len() == 0 {
        assert(c + x =~= c);
        if c.len() > 0 {
            assert(c.contains(c.last()));
        }
        assert(without_trailing_cr(line) == c);
        assert(without_trailing_cr(line).subrange(0, c.len() as int) =~= c);
    } else {
        let w = without_trailing_cr(line);
        assert(w.subrange(0, c.len() as int) =~= c);
    }
    assert(kept_line(s, a.len() as int, at, c) is None);
    assert(q.len() == at + 1);
    lemma_cleanup_shift(q, b, 0, c, out, blank);
    lemma_cleanup_shift(a, b, 0, c, out, blank);
}

/// Clean-up from a line start within `a` reaches the comment line with the same output.
proof fn lemma_cleanup_before_comment(
    a: Seq<u8>,
    c: Seq<u8>,
    x: Seq<u8>,
    b: Seq<u8>,
    start: int,
    out: Seq<u8>,
    blank: bool,
)
    requires
        a.len() == 0 || a.last() == 10u8,
        0 <= start <= a.len(),
        !x.contains(10u8),
        !c.contains(10u8),
        !c.contains(13u8),
    ensures
        cleanup_from(a + c + x + seq![10u8] + b, start, c, out, blank)
            == cleanup_from(a + b, start, c, out, blank),
    decreases a.len() - start,
{
    let s1 = a + c + x + seq![10u8] + b;
    let s2 = a + b;
    if start == a.len() {
        lemma_comment_line_skipped(a, c, x, b, out, blank);
    } else {
        let y1 = c + x + seq![10u8] + b;
        assert(s1 =~= a + y1);
        lemma_line_end_within(a, y1, start);
        lemma_line_end_within(a, b, start);
        lemma_line_end_bounds(a, start);
        let end = line_end(a, start);
        assert(s1.subrange(start, end) =~= a.subrange(start, end));
        assert(s2.subrange(start, end) =~= a.subrange(start, end));
        assert(kept_line(s1, start, end, c) == kept_line(s2, start, end, c));
        match kept_line(a, start, end, c) {
            None => lemma_cleanup_before_comment(a, c, x, b, end + 1, out, blank),
            Some(line) => if line.len() == 0 {
                lemma_cleanup_before_comment(a, c, x, b, end + 1, out, true);
            } else {
                let sep = if out.len() > 0 && blank { seq![10u8] } else { seq![] };
                lemma_cleanup_before_comment(a, c, x, b, end + 1, out + sep + line + seq![10u8], false);
            },
        }
    }
}

/// Removing a comment line commutes with the clean-up: a message with a line that begins with the
/// comment prefix cleans up as the message without that line, so a comment never changes whether a
/// blank line separates the paragraphs around it, nor anything else that is kept.
pub proof fn lemma_comment_lines_are_as_if_deleted(a: Seq<u8>, c: Seq<u8>, x: Seq<u8>, b: Seq<u8>)
    requires
        a.len() == 0 || a.last() == 10u8,
        !x.contains(10u8),
        !c.contains(10u8),
        !c.contains(13u8),
    ensures
        cleaned(a + c + x + seq![10u8] + b, c) == cleaned(a + b, c),
{
    lemma_cleanup_before_comment(a, c, x, b, 0, seq![], false);
}

/// Text laid out as clean-up leaves it: empty or ending with a newline, no blank line first, no line
/// ending in whitespace, and every blank line single and followed by a line with text.
pub open spec fn tidy(o: Seq<u8>) -> bool {
    &&& o.len() == 0 || o.last() == 10u8
    &&& o.len() > 0 ==> o[0] != 10u8
    &&& forall|k: int| 1 <= k < o.len() && o[k] == 10u8 && #[trigger] o[k - 1] != 10u8 ==> !ascii_whitespace(o[k - 1])
    &&& forall|k: int| 0 <= k < o.len() - 1 && #[trigger] o[k] == 10u8 && o[k + 1] == 10u8 ==> k + 2 < o.len() && o[k + 2] != 10u8
}

/// The line before `line_end` holds no newline.
proof fn lemma_line_end_clear(s: Seq<u8>, start: int, k: int)
    requires
        0 <= start <= k < line_end(s, start),
    ensures
        s[k] != 10u8,
    decreases k - start,
{
    if start < k {
        assert(s[start] != 10u8);
        lemma_line_end_clear(s, start + 1, k);
    }
}

/// Trimming keeps a prefix of the line, which is empty or ends with a byte that is not whitespace.
proof fn lemma_trim_end(line: Seq<u8>)
    ensures
        trim_end(line).len() <= line.len(),
        trim_end(line) =~= line.subrange(0, trim_end(line).len() as int),
        trim_end(line).len() > 0 ==> !ascii_whitespace(trim_end(line).last()),
    decreases line.len(),
{
    if line.len() > 0 && ascii_whitespace(line.last()) {
        lemma_trim_end(line.drop_last());
    }
}

/// A kept line of text holds no newline and does not end with whitespace.
proof fn lemma_kept_line_clean(s: Seq<u8>, start: int, comment: Seq<u8>)
    requires
        0 <= start < s.len(),
    ensures
        kept_line(s, start, line_end(s, start), comment) matches Some(line) ==> (forall|k: int|
            0 <= k < line.len() ==> #[trigger] line[k] != 10u8) && (line.len() > 0 ==> !ascii_whitespace(
            line.last(),
        )),
{
    lemma_line_end_bounds(s, start);
    let end = line_end(s, start);
    let raw = s.subrange(start, end);
    let w = without_trailing_cr(raw);
    lemma_trim_end(w);
    let t = trim_end(w);
    assert forall|k: int| 0 <= k < t.len() implies #[trigger] t[k] != 10u8 by {
        assert(t[k] == w[k]);
        assert(w[k] == raw[k]);
        lemma_line_end_clear(s, start, start + k);
    }
}

/// Appending a line of text, after one blank line where blank lines were skipped, keeps text tidy.
proof fn lemma_tidy_append(out: Seq<u8>, blank: bool, line: Seq<u8>)
    requires
        tidy(out),
        line.len() > 0,
        forall|k: int| 0 <= k < line.len() ==> #[trigger] line[k] != 10u8,
        !ascii_whitespace(line.last()),
    ensures
        tidy(out + (if out.len() > 0 && blank { seq![10u8] } else { seq![] }) + line + seq![10u8]),
{
    let sep: Seq<u8> = if out.len() > 0 && blank { seq![10u8] } else { seq![] };
    let o = out + sep + line + seq![10u8];
    let m = out.len() + sep.len();
    assert forall|k: int| 0 <= k < o.len() implies #[trigger] o[k] == (if k < out.len() {
        out[k]
    } else if k < m {
        10u8
    } else if k < m + line.len() {
        line[k - m]
    } else {
        10u8
    }) by {}
    assert(o.len() == m + line.len() + 1);
    assert forall|k: int| 1 <= k < o.len() && o[k] == 10u8 && #[trigger] o[k - 1] != 10u8 implies !ascii_whitespace(o[k - 1]) by {
        if k < out.len() {
        } else if k < m {
            assert(o[k - 1] == out.last());
        } else if k < m + line.len() {
            assert(line[k - m] != 10u8);
        } else {
            assert(o[k - 1] == line.last());
        }
    }
    assert forall|k: int| 0 <= k < o.len() - 1 && #[trigger] o[k] == 10u8 && o[k + 1] == 10u8 implies k + 2 < o.len() && o[k + 2] != 10u8 by {
        if k + 1 < out.len() {
        } else if k + 1 < m {
            assert(o[k + 2] == line[0]);
        } else if k + 1 < m + line.len() {
            assert(line[k + 1 - m] != 10u8);
        } else {
            assert(o[k] == line.last());
            assert(line.last() == line[line.len() - 1]);
        }
    }
    if out.len() == 0 {
        assert(o[0] == line[0]);
    } else {
        assert(o[0] == out[0]);
    }
}

/// Clean-up of the rest keeps tidy output tidy.
proof fn lemma_cleanup_tidy(s: Seq<u8>, start: int, comment: Seq<u8>, out: Seq<u8>, blank: bool)
    requires
        tidy(out),
    ensures
        tidy(cleanup_from(s, start, comment, out, blank)),
    decreases s.len() - start,
{
    if 0 <= start < s.len() {
        lemma_line_end_bounds(s, start);
        lemma_kept_line_clean(s, start, comment);
        let end = line_end(s, start);
        let next = if end < s.len() { end + 1 } else { s.len() as int };
        match kept_line(s, start, end, comment) {
            None => lemma_cleanup_tidy(s, next, comment, out, blank),
            Some(line) => if line.len() == 0 {
                lemma_cleanup_tidy(s, next, comment, out, true);
            } else {
                lemma_tidy_append(out, blank, line);
                let sep = if out.len() > 0 && blank { seq![10u8] } else { seq![] };
                lemma_cleanup_tidy(s, next, comment, out + sep + line + seq![10u8], false);
            },
        }
    }
}

/// A cleaned-up message is empty or ends with a newline; it starts with no blank line, no line of it
/// ends in whitespace, and blank lines come singly, each between two lines of text.
pub proof fn lemma_cleaned_messages_are_tidy(s: Seq<u8>, comment: Seq<u8>)
    ensures
        cleaned(s, comment).len() == 0 || cleaned(s, comment).last() == 10u8,
        cleaned(s, comment).len() > 0 ==> cleaned(s, comment)[0] != 10u8,
        forall|k: int|
            1 <= k < cleaned(s, comment).len() && cleaned(s, comment)[k] == 10u8 && #[trigger] cleaned(s, comment)[k - 1]
                != 10u8 ==> !ascii_whitespace(cleaned(s, comment)[k - 1]),
        forall|k: int|
            0 <= k < cleaned(s, comment).len() - 1 && #[trigger] cleaned(s, comment)[k] == 10u8 && cleaned(s, comment)[k
                + 1] == 10u8 ==> k + 2 < cleaned(s, comment).len() && cleaned(s, comment)[k + 2] != 10u8,
{
    lemma_cleanup_tidy(s, 0, comment, seq![], false);
}

/// Whether `b` is ASCII whitespace as Git's clean-up counts it.
fn is_ascii_whitespace(b: u8) -> (r: bool)
    ensures
        r == ascii_whitespace(b),
{
    b == 32u8 || b == 9u8 || b == 10u8 || b == 12u8 || b == 13u8
}

/// The bytes `s[start..end]`.
fn slice_range(s: &[u8], start: usize, end: usize) -> (r: &[u8])
    requires
        start <= end <= s@.len(),
    ensures
        r@ == s@.subrange(start as int, end as int),
{
    let (head, _) = s.split_at(end);
    let (_, mid) = head.split_at(start);
    mid
}

// ---------------------------------------------------------------------------------------------
// Dates.
// ---------------------------------------------------------------------------------------------

/// An ASCII digit.
pub open spec fn is_digit(b: u8) -> bool {
    48u8 <= b <= 57u8
}

/// The number written by the two digits at `at`.
pub open spec fn two_digits(v: Seq<u8>, at: int) -> int {
    (v[at] - 48) * 10 + (v[at + 1] - 48)
}

/// A leap year of the Gregorian calendar.
pub open spec fn is_leap(y: int) -> bool {
    y % 4 == 0 && (y % 100 != 0 || y % 400 == 0)
}

/// The number of days of month `m` of year `y`.
pub open spec fn days_in_month(y: int, m: int) -> int {
    if m == 2 {
        if is_leap(y) {
            29
        } else {
            28
        }
    } else if m == 4 || m == 6 || m == 9 || m == 11 {
        30
    } else {
        31
    }
}

/// The number of days from 1970-01-01 to the date `y-m-d` of the proleptic Gregorian calendar, for
/// years from 0 on: eras of 400 years of 146097 days, counted from March so that leap days end a year.
pub open spec fn days_from_civil(y: int, m: int, d: int) -> int {
    let yy = if m <= 2 {
        y - 1
    } else {
        y
    };
    let era = (yy + 400) / 400 - 1;
    let yoe = yy - era * 400;
    let mp = if m > 2 {
        m - 3
    } else {
        m + 9
    };
    let doy = (153 * mp + 2) / 5 + d - 1;
    let doe = yoe * 365 + yoe / 4 - yoe / 100 + doy;
    era * 146097 + doe - 719468
}

/// The two bytes at `at` are ASCII digits.
pub open spec fn digit_pair(v: Seq<u8>, at: int) -> bool {
    is_digit(v[at]) && is_digit(v[at + 1])
}

/// The text has the shape `YYYY-MM-DD HH:MM:SS +HHMM`, with `-` as the other sign of the zone.
pub open spec fn iso_shape(v: Seq<u8>) -> bool {
    &&& v.len() == 25
    &&& digit_pair(v, 0) && digit_pair(v, 2) && digit_pair(v, 5) && digit_pair(v, 8)
    &&& digit_pair(v, 11) && digit_pair(v, 14) && digit_pair(v, 17) && digit_pair(v, 21) && digit_pair(v, 23)
    &&& v[4] == 45u8 && v[7] == 45u8 && v[10] == 32u8 && v[13] == 58u8 && v[16] == 58u8 && v[19] == 32u8
    &&& (v[20] == 43u8 || v[20] == 45u8)
}

/// The offset of a time zone `+HHMM` or `-HHMM` in seconds.
pub open spec fn zone_seconds(negative: bool, oh: int, om: int) -> int {
    if negative {
        -(oh * 3600 + om * 60)
    } else {
        oh * 3600 + om * 60
    }
}

/// The time an ISO 8601 date `YYYY-MM-DD HH:MM:SS +HHMM` names: the seconds since the Unix epoch and
/// the offset of its time zone in seconds; `None` for any other text or an impossible date or time.
pub open spec fn iso_time(v: Seq<u8>) -> Option<Time> {
    if !iso_shape(v) {
        None
    } else {
        let y = two_digits(v, 0) * 100 + two_digits(v, 2);
        let m = two_digits(v, 5);
        let d = two_digits(v, 8);
        let h = two_digits(v, 11);
        let mi = two_digits(v, 14);
        let sec = two_digits(v, 17);
        let zone = zone_seconds(v[20] == 45u8, two_digits(v, 21), two_digits(v, 23));
        if m < 1 || m > 12 || d < 1 || d > days_in_month(y, m) || h > 23 || mi > 59 || sec > 59 || two_digits(
            v,
            21,
        ) > 23 || two_digits(v, 23) > 59 {
            None
        } else {
            Some(
                Time {
                    seconds: (days_from_civil(y, m, d) * 86400 + h * 3600 + mi * 60 + sec - zone) as i64,
                    offset: zone as i32,
                },
            )
        }
    }
}

/// The number written by the two ASCII digits at `at`, if both are digits.
fn digits_at(v: &[u8], at: usize) -> (r: Option<i64>)
    requires
        at + 1 < v@.len(),
    ensures
        match r {
            Some(n) => digit_pair(v@, at as int) && n == two_digits(v@, at as int) && 0 <= n <= 99,
            None => !digit_pair(v@, at as int),
        },
{
    let a = v[at];
    let b = v[at + 1];
    if 48u8 <= a && a <= 57u8 && 48u8 <= b && b <= 57u8 {
        Some(((a - 48) as i64) * 10 + ((b - 48) as i64))
    } else {
        None
    }
}

/// The days from 1970-01-01 to the date `y-m-d`.
fn days_since_epoch(y: i64, m: i64, d: i64) -> (r: i64)
    requires
        0 <= y <= 9999,
        1 <= m <= 12,
        1 <= d <= 31,
    ensures
        r == days_from_civil(y as int, m as int, d as int),
{
    let yy = if m <= 2 {
        y - 1
    } else {
        y
    };
    let era = (yy + 400) / 400 - 1;
    let yoe = yy - era * 400;
    let mp = if m > 2 {
        m - 3
    } else {
        m + 9
    };
    let doy = (153 * mp + 2) / 5 + d - 1;
    let doe = yoe * 365 + yoe / 4 - yoe / 100 + doy;
    era * 146097 + doe - 719468
}

/// Whether `d` is a day of month `m` of year `y`.
fn day_exists(y: i64, m: i64, d: i64) -> (r: bool)
    requires
        0 <= y <= 9999,
        1 <= m <= 12,
    ensures
        r == (1 <= d <= days_in_month(y as int, m as int)),
{
    let leap = y % 4 == 0 && (y % 100 != 0 || y % 400 == 0);
    let month_days: i64 = if m == 2 {
        if leap {
            29
        } else {
            28
        }
    } else if m == 4 || m == 6 || m == 9 || m == 11 {
        30
    } else {
        31
    };
    1 <= d && d <= month_days
}

/// The time an ISO 8601 date `YYYY-MM-DD HH:MM:SS +HHMM` names, as the edit document writes it.
pub fn parse_iso_time(v: &[u8]) -> (r: Option<Time>)
    ensures
        r == iso_time(v@),
{
    if v.len() != 25 {
        return None;
    }
    let y1 = match digits_at(v, 0) {
        Some(n) => n,
        None => return None,
    };
    let y2 = match digits_at(v, 2) {
        Some(n) => n,
        None => return None,
    };
    let m = match digits_at(v, 5) {
        Some(n) => n,
        None => return None,
    };
    let d = match digits_at(v, 8) {
        Some(n) => n,
        None => return None,
    };
    let h = match digits_at(v, 11) {
        Some(n) => n,
        None => return None,
    };
    let mi = match digits_at(v, 14) {
        Some(n) => n,
        None => return None,
    };
    let sec = match digits_at(v, 17) {
        Some(n) => n,
        None => return None,
    };
    let oh = match digits_at(v, 21) {
        Some(n) => n,
        None => return None,
    };
    let om = match digits_at(v, 23) {
        Some(n) => n,
        None => return None,
    };
    if v[4] != 45u8 || v[7] != 45u8 || v[10] != 32u8 || v[13] != 58u8 || v[16] != 58u8 || v[19] != 32u8 || (v[20]
        != 43u8 && v[20] != 45u8) {
        return None;
    }
    let y = y1 * 100 + y2;
    if m < 1 || m > 12 || !day_exists(y, m, d) || h > 23 || mi > 59 || sec > 59 || oh > 23 || om > 59 {
        return None;
    }
    let days = days_since_epoch(y, m, d);
    let zone: i64 = if v[20] == 45u8 {
        -(oh * 3600 + om * 60)
    } else {
        oh * 3600 + om * 60
    };
    proof {
        assert(-3000000 <= days <= 3000000) by {
            assert(days == days_from_civil(y as int, m as int, d as int));
        }
    }
    let seconds = days * 86400 + h * 3600 + mi * 60 + sec - zone;
    Some(Time { seconds, offset: zone as i32 })
}

// ---------------------------------------------------------------------------------------------
// The edit document.
// ---------------------------------------------------------------------------------------------

/// A header line of the edit document.
#[derive(Clone, Copy, Debug, PartialEq, Eq, Structural)]
pub enum Header {
    Author,
    AuthorDate,
    Committer,
    CommitterDate,
    CommentChar,
}

/// The label with which a header line begins.
pub open spec fn label(h: Header) -> Seq<u8> {
    match h {
        Header::Author => "Author: ".spec_bytes(),
        Header::AuthorDate => "AuthorDate: ".spec_bytes(),
        Header::Committer => "Committer: ".spec_bytes(),
        Header::CommitterDate => "CommitterDate: ".spec_bytes(),
        Header::CommentChar => "CommentChar: ".spec_bytes(),
    }
}

/// The label with which a header line begins.
fn header_label(h: Header) -> (r: &'static [u8])
    ensures
        r@ == label(h),
{
    match h {
        Header::Author => "Author: ".as_bytes(),
        Header::AuthorDate => "AuthorDate: ".as_bytes(),
        Header::Committer => "Committer: ".as_bytes(),
        Header::CommitterDate => "CommitterDate: ".as_bytes(),
        Header::CommentChar => "CommentChar: ".as_bytes(),
    }
}

/// Why an edited document was refused.
#[derive(Clone, Copy, Debug, PartialEq, Eq, Structural)]
pub enum RewordError {
    /// The document ends before this header.
    MissingHeader(Header),
    /// The line does not hold this header with a non-empty value.
    EmptyHeader(Header),
    /// The value of this date header is not a date.
    InvalidDate(Header),
    /// The comment prefix holds a carriage return.
    CommentCharLineEnding,
    /// The headers are not followed by an empty line.
    MissingSeparator,
    /// Nothing follows the empty line.
    MissingMessage,
}

/// A reworded commit as the edit document gives it.
#[derive(Debug, PartialEq, Eq)]
pub struct Edit {
    pub author: Vec<u8>,
    pub author_time: Time,
    pub committer: Vec<u8>,
    pub committer_time: Time,
    pub message: Vec<u8>,
}

/// The start of the `k`-th of the parts that the first six newlines of `s` cut it into.
pub open spec fn part_start(s: Seq<u8>, k: nat) -> Option<int>
    decreases k,
{
    if k == 0 {
        Some(0)
    } else {
        match part_start(s, (k - 1) as nat) {
            Some(p) => if 0 <= p <= s.len() && line_end(s, p) < s.len() {
                Some(line_end(s, p) + 1)
            } else {
                None
            },
            None => None,
        }
    }
}

/// Each part starts within the text.
pub proof fn lemma_part_start(s: Seq<u8>, k: nat)
    ensures
        part_start(s, k) matches Some(p) ==> 0 <= p <= s.len(),
    decreases k,
{
    if k > 0 {
        lemma_part_start(s, (k - 1) as nat);
        if let Some(p) = part_start(s, (k - 1) as nat) {
            if 0 <= p <= s.len() {
                lemma_line_end_bounds(s, p);
            }
        }
    }
}

/// The `k`-th line of the document, if it has one.
pub open spec fn doc_line(s: Seq<u8>, k: nat) -> Option<Seq<u8>> {
    match part_start(s, k) {
        Some(p) => Some(s.subrange(p, line_end(s, p))),
        None => None,
    }
}

/// What follows the sixth newline of the document, if it has one.
pub open spec fn doc_rest(s: Seq<u8>) -> Option<Seq<u8>> {
    match part_start(s, 6) {
        Some(p) => Some(s.subrange(p, s.len() as int)),
        None => None,
    }
}

/// The value of header `h` on the line `line`: the line without its carriage return must begin with
/// the label and hold more.
pub open spec fn header_value(line: Option<Seq<u8>>, h: Header) -> Result<Seq<u8>, RewordError> {
    match line {
        None => Err(RewordError::MissingHeader(h)),
        Some(l) => {
            let t = without_trailing_cr(l);
            if has_prefix(t, label(h)) && t.len() > label(h).len() {
                Ok(t.subrange(label(h).len() as int, t.len() as int))
            } else {
                Err(RewordError::EmptyHeader(h))
            }
        },
    }
}

/// The time of date header `h` on line `line`.
pub open spec fn header_time(line: Option<Seq<u8>>, h: Header) -> Result<Time, RewordError> {
    match header_value(line, h) {
        Err(e) => Err(e),
        Ok(v) => match iso_time(v) {
            Some(t) => Ok(t),
            None => Err(RewordError::InvalidDate(h)),
        },
    }
}

/// The value of an edit.
pub struct EditView {
    pub author: Seq<u8>,
    pub author_time: Time,
    pub committer: Seq<u8>,
    pub committer_time: Time,
    pub message: Seq<u8>,
}

impl View for Edit {
    type V = EditView;

    open spec fn view(&self) -> EditView {
        EditView {
            author: self.author@,
            author_time: self.author_time,
            committer: self.committer@,
            committer_time: self.committer_time,
            message: self.message@,
        }
    }
}

/// The edit a document describes, checked line by line from the top: five headers, an empty line and
/// the message, which is cleaned up with the comment prefix of the document.
pub open spec fn parsed_edit(s: Seq<u8>) -> Result<EditView, RewordError> {
    match header_value(doc_line(s, 0), Header::Author) {
        Err(e) => Err(e),
        Ok(author) => match header_time(doc_line(s, 1), Header::AuthorDate) {
            Err(e) => Err(e),
            Ok(author_time) => match header_value(doc_line(s, 2), Header::Committer) {
                Err(e) => Err(e),
                Ok(committer) => match header_time(doc_line(s, 3), Header::CommitterDate) {
                    Err(e) => Err(e),
                    Ok(committer_time) => match header_value(doc_line(s, 4), Header::CommentChar) {
                        Err(e) => Err(e),
                        Ok(comment) => if comment.contains(13u8) {
                            Err(RewordError::CommentCharLineEnding)
                        } else if !(doc_line(s, 5) matches Some(l) && without_trailing_cr(l).len() == 0) {
                            Err(RewordError::MissingSeparator)
                        } else {
                            match doc_rest(s) {
                                None => Err(RewordError::MissingMessage),
                                Some(rest) => Ok(
                                    EditView {
                                        author,
                                        author_time,
                                        committer,
                                        committer_time,
                                        message: cleaned(rest, comment),
                                    },
                                ),
                            }
                        },
                    },
                },
            },
        },
    }
}

/// The bytes `s[start..end]` as a new vector.
fn copy_range(s: &[u8], start: usize, end: usize) -> (r: Vec<u8>)
    requires
        start <= end <= s@.len(),
    ensures
        r@ == s@.subrange(start as int, end as int),
{
    let mut out: Vec<u8> = Vec::new();
    push_all(&mut out, slice_range(s, start, end));
    assert(out@ =~= s@.subrange(start as int, end as int));
    out
}

/// The line of the document that starts at `start`, and the start of the next one.
fn next_line(s: &[u8], start: Option<usize>) -> (r: (Option<(usize, usize)>, Option<usize>))
    requires
        start matches Some(p) ==> p <= s@.len(),
    ensures
        match start {
            None => r == (None::<(usize, usize)>, None::<usize>),
            Some(p) => {
                &&& r.0 == Some((p, line_end(s@, p as int) as usize))
                &&& p <= line_end(s@, p as int) <= s@.len()
                &&& match r.1 {
                    Some(q) => line_end(s@, p as int) < s@.len() && q == line_end(s@, p as int) + 1 && q <= s@.len(),
                    None => line_end(s@, p as int) >= s@.len(),
                }
            },
        },
{
    match start {
        None => (None, None),
        Some(p) => {
            let e = find_line_end(s, p);
            let next = if e < s.len() {
                Some(e + 1)
            } else {
                None
            };
            (Some((p, e)), next)
        },
    }
}

/// The value of header `h` on the line `s[start..end]`, as bounds into `s`.
fn header(s: &[u8], line: Option<(usize, usize)>, h: Header) -> (r: Result<(usize, usize), RewordError>)
    requires
        line matches Some((a, b)) ==> a <= b <= s@.len(),
    ensures
        match r {
            Ok((a, b)) => a <= b <= s@.len() && header_value(
                match line {
                    Some((x, y)) => Some(s@.subrange(x as int, y as int)),
                    None => None,
                },
                h,
            ) == Ok::<Seq<u8>, RewordError>(s@.subrange(a as int, b as int)),
            Err(e) => header_value(
                match line {
                    Some((x, y)) => Some(s@.subrange(x as int, y as int)),
                    None => None,
                },
                h,
            ) == Err::<Seq<u8>, RewordError>(e),
        },
{
    match line {
        None => Err(RewordError::MissingHeader(h)),
        Some((a, b)) => {
            let t = trim_cr(s, a, b);
            let prefix = header_label(h);
            let ghost line = s@.subrange(a as int, t as int);
            if prefix.len() < t - a && crate::bytes::eq_at(s, a, prefix) {
                proof {
                    assert(line.subrange(0, prefix@.len() as int) =~= s@.subrange(a as int, a + prefix@.len()));
                    assert(line.subrange(prefix@.len() as int, line.len() as int) =~= s@.subrange(
                        a + prefix@.len(),
                        t as int,
                    ));
                }
                Ok((a + prefix.len(), t))
            } else {
                proof {
                    if prefix@.len() <= t - a {
                        assert(line.subrange(0, prefix@.len() as int) =~= s@.subrange(a as int, a + prefix@.len()));
                    }
                }
                Err(RewordError::EmptyHeader(h))
            }
        },
    }
}

/// Whether `s[a..b]` holds a carriage return.
fn holds_cr(s: &[u8], a: usize, b: usize) -> (r: bool)
    requires
        a <= b <= s@.len(),
    ensures
        r == s@.subrange(a as int, b as int).contains(13u8),
{
    let mut i = a;
    while i < b
        invariant
            a <= i <= b <= s@.len(),
            forall|k: int| a <= k < i ==> s@[k] != 13u8,
        decreases b - i,
    {
        if s[i] == 13u8 {
            assert(s@.subrange(a as int, b as int)[i - a] == 13u8);
            return true;
        }
        i += 1;
    }
    proof {
        assert forall|k: int| 0 <= k < b - a implies s@.subrange(a as int, b as int)[k] != 13u8 by {
            assert(s@.subrange(a as int, b as int)[k] == s@[a + k]);
        }
    }
    false
}

/// The text of a line given by its bounds.
pub open spec fn bounded(s: Seq<u8>, line: Option<(usize, usize)>) -> Option<Seq<u8>> {
    match line {
        Some((a, b)) => Some(s.subrange(a as int, b as int)),
        None => None,
    }
}

/// The document from the start of a part on.
pub open spec fn from_part(s: Seq<u8>, p: Option<usize>) -> Option<Seq<u8>> {
    match p {
        Some(p) => Some(s.subrange(p as int, s.len() as int)),
        None => None,
    }
}

/// What one step of the split shows of the line it found and of the next part.
proof fn step_facts(s: Seq<u8>, k: nat, p: Option<usize>, line: Option<(usize, usize)>, next: Option<usize>)
    requires
        part_start(s, k) == match p {
            Some(q) => Some(q as int),
            None => None::<int>,
        },
        p matches Some(q) ==> q <= s.len(),
        s.len() <= usize::MAX,
        match p {
            None => line == None::<(usize, usize)> && next == None::<usize>,
            Some(q) => {
                &&& line == Some((q, line_end(s, q as int) as usize))
                &&& q <= line_end(s, q as int) <= s.len()
                &&& match next {
                    Some(n) => line_end(s, q as int) < s.len() && n == line_end(s, q as int) + 1 && n <= s.len(),
                    None => line_end(s, q as int) >= s.len(),
                }
            },
        },
    ensures
        bounded(s, line) == doc_line(s, k),
        line matches Some((a, b)) ==> a <= b <= s.len(),
        next matches Some(n) ==> n <= s.len(),
        part_start(s, k + 1) == match next {
            Some(n) => Some(n as int),
            None => None::<int>,
        },
{
    lemma_part_start(s, k);
    assert(part_start(s, (k + 1) as nat) == match part_start(s, k) {
        Some(q) => if 0 <= q <= s.len() && line_end(s, q) < s.len() {
            Some(line_end(s, q) + 1)
        } else {
            None
        },
        None => None,
    });
    if let Some(q) = p {
        assert(bounded(s, line) =~~= doc_line(s, k));
    }
}

/// The first six lines of a document, as bounds, and the start of what follows them.
fn document_parts(input: &[u8]) -> (r: (
    Option<(usize, usize)>,
    Option<(usize, usize)>,
    Option<(usize, usize)>,
    Option<(usize, usize)>,
    Option<(usize, usize)>,
    Option<(usize, usize)>,
    Option<usize>,
))
    ensures
        bounded(input@, r.0) == doc_line(input@, 0),
        bounded(input@, r.1) == doc_line(input@, 1),
        bounded(input@, r.2) == doc_line(input@, 2),
        bounded(input@, r.3) == doc_line(input@, 3),
        bounded(input@, r.4) == doc_line(input@, 4),
        bounded(input@, r.5) == doc_line(input@, 5),
        from_part(input@, r.6) == doc_rest(input@),
        r.0 matches Some((a, b)) ==> a <= b <= input@.len(),
        r.1 matches Some((a, b)) ==> a <= b <= input@.len(),
        r.2 matches Some((a, b)) ==> a <= b <= input@.len(),
        r.3 matches Some((a, b)) ==> a <= b <= input@.len(),
        r.4 matches Some((a, b)) ==> a <= b <= input@.len(),
        r.5 matches Some((a, b)) ==> a <= b <= input@.len(),
        r.6 matches Some(p) ==> p <= input@.len(),
{
    let ghost s = input@;
    assert(s.len() == input.len());
    assert(part_start(s, 0) == Some(0int));
    let (l0, p1) = next_line(input, Some(0));
    proof {
        step_facts(s, 0, Some(0usize), l0, p1);
    }
    let (l1, p2) = next_line(input, p1);
    proof {
        step_facts(s, 1, p1, l1, p2);
    }
    let (l2, p3) = next_line(input, p2);
    proof {
        step_facts(s, 2, p2, l2, p3);
    }
    let (l3, p4) = next_line(input, p3);
    proof {
        step_facts(s, 3, p3, l3, p4);
    }
    let (l4, p5) = next_line(input, p4);
    proof {
        step_facts(s, 4, p4, l4, p5);
    }
    let (l5, p6) = next_line(input, p5);
    proof {
        step_facts(s, 5, p5, l5, p6);
        assert(from_part(s, p6) =~~= doc_rest(s));
    }
    (l0, l1, l2, l3, l4, l5, p6)
}

/// The time in the value `s[a..b]` of date header `h`.
fn date_of(s: &[u8], a: usize, b: usize, h: Header) -> (r: Result<Time, RewordError>)
    requires
        a <= b <= s@.len(),
    ensures
        r == match iso_time(s@.subrange(a as int, b as int)) {
            Some(t) => Ok::<Time, RewordError>(t),
            None => Err(RewordError::InvalidDate(h)),
        },
{
    match parse_iso_time(slice_range(s, a, b)) {
        Some(t) => Ok(t),
        None => Err(RewordError::InvalidDate(h)),
    }
}

/// Reads an edited document: five headers, an empty line and the message, which is cleaned up with
/// the document's comment prefix.
pub fn parse(input: &[u8]) -> (r: Result<Edit, RewordError>)
    ensures
        match r {
            Ok(e) => parsed_edit(input@) == Ok::<EditView, RewordError>(e@),
            Err(e) => parsed_edit(input@) == Err::<EditView, RewordError>(e),
        },
{
    let (l0, l1, l2, l3, l4, l5, p6) = document_parts(input);
    let (a0, b0) = match header(input, l0, Header::Author) {
        Ok(v) => v,
        Err(e) => return Err(e),
    };
    let (a1, b1) = match header(input, l1, Header::AuthorDate) {
        Ok(v) => v,
        Err(e) => return Err(e),
    };
    let author_time = match date_of(input, a1, b1, Header::AuthorDate) {
        Ok(t) => t,
        Err(e) => return Err(e),
    };
    let (a2, b2) = match header(input, l2, Header::Committer) {
        Ok(v) => v,
        Err(e) => return Err(e),
    };
    let (a3, b3) = match header(input, l3, Header::CommitterDate) {
        Ok(v) => v,
        Err(e) => return Err(e),
    };
    let committer_time = match date_of(input, a3, b3, Header::CommitterDate) {
        Ok(t) => t,
        Err(e) => return Err(e),
    };
    let (a4, b4) = match header(input, l4, Header::CommentChar) {
        Ok(v) => v,
        Err(e) => return Err(e),
    };
    if holds_cr(input, a4, b4) {
        return Err(RewordError::CommentCharLineEnding);
    }
    let separated = match l5 {
        Some((a, b)) => trim_cr(input, a, b) == a,
        None => false,
    };
    if !separated {
        return Err(RewordError::MissingSeparator);
    }
    let rest = match p6 {
        Some(p) => p,
        None => return Err(RewordError::MissingMessage),
    };
    let message = cleanup_message(slice_range(input, rest, input.len()), slice_range(input, a4, b4));
    Ok(
        Edit {
            author: copy_range(input, a0, b0),
            author_time,
            committer: copy_range(input, a2, b2),
            committer_time,
            message,
        },
    )
}

/// An identity header line of the edit document: the label, the name, and the email in angle
/// brackets.
pub open spec fn actor_line(label: Seq<u8>, name: Seq<u8>, email: Seq<u8>) -> Seq<u8> {
    label + name + seq![32u8, 60u8] + email + seq![62u8, 10u8]
}

/// Appends an identity header line to the edit document.
pub fn write_actor(out: &mut Vec<u8>, label: &[u8], name: &[u8], email: &[u8])
    ensures
        final(out)@ == old(out)@ + actor_line(label@, name@, email@),
{
    push_all(out, label);
    push_all(out, name);
    out.push(32u8);
    out.push(60u8);
    push_all(out, email);
    out.push(62u8);
    out.push(10u8);
    assert(out@ =~= old(out)@ + actor_line(label@, name@, email@));
}

} // verus!
