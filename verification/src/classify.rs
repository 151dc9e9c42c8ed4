//! Line classification: the five syntactic shapes a diff line can take.
//!
//! Each shape is defined by a fixed grammar over the line's characters:
//! a source-file header (`---` then a path), a destination-file header
//! (`+++` then a path), a hunk header (`@@ -l,c +l,c @@`, with either
//! count optional), a hunk-body line (first character `+`, `-`, `\` or
//! space), and a non-diff line (first character anything but `+`, `-`
//! or space). The spec functions here are the grammar; the executable
//! functions are proved to decide it exactly.

use vstd::prelude::*;

use crate::diff::Op;

verus! {

/// Horizontal whitespace as headers allow it between marker and path.
pub open spec fn is_hws(c: char) -> bool {
    c == ' ' || c == '\t'
}

/// A decimal digit.
pub open spec fn is_digit(c: char) -> bool {
    '0' <= c && c <= '9'
}

/// The numeric value of a decimal digit.
pub open spec fn digit_val(c: char) -> int {
    c as int - '0' as int
}

/// The value of a digit string, most significant digit first.
pub open spec fn digits_val(s: Seq<char>) -> int
    decreases s.len(),
{
    if s.len() == 0 {
        0
    } else {
        digits_val(s.drop_last()) * 10 + digit_val(s.last())
    }
}

/// The first index at or after `i` that does not hold horizontal whitespace
/// (or the end of the line).
pub open spec fn hws_run_end(s: Seq<char>, i: int) -> int
    decreases s.len() - i,
{
    if i < s.len() && is_hws(s[i]) {
        hws_run_end(s, i + 1)
    } else {
        i
    }
}

/// The first index at or after `i` that holds horizontal whitespace
/// (or the end of the line): the end of the maximal path token.
pub open spec fn token_run_end(s: Seq<char>, i: int) -> int
    decreases s.len() - i,
{
    if i < s.len() && !is_hws(s[i]) {
        token_run_end(s, i + 1)
    } else {
        i
    }
}

/// The first index at or after `i` that does not hold a digit
/// (or the end of the line).
pub open spec fn digit_run_end(s: Seq<char>, i: int) -> int
    decreases s.len() - i,
{
    if i < s.len() && is_digit(s[i]) {
        digit_run_end(s, i + 1)
    } else {
        i
    }
}

/// A source-file header: `---`, optional horizontal whitespace, then a
/// path token of at least one non-whitespace character.
pub open spec fn is_src_header(s: Seq<char>) -> bool {
    s.len() >= 3 && s[0] == '-' && s[1] == '-' && s[2] == '-' && hws_run_end(s, 3) < s.len()
}

/// The path a source-file header captures: the maximal non-whitespace run
/// after the marker and the whitespace that follows it.
pub open spec fn src_header_path(s: Seq<char>) -> Seq<char> {
    s.subrange(hws_run_end(s, 3), token_run_end(s, hws_run_end(s, 3)))
}

/// A destination-file header: `+++`, optional horizontal whitespace, then
/// a path token of at least one non-whitespace character.
pub open spec fn is_dst_header(s: Seq<char>) -> bool {
    s.len() >= 3 && s[0] == '+' && s[1] == '+' && s[2] == '+' && hws_run_end(s, 3) < s.len()
}

/// The path a destination-file header captures.
pub open spec fn dst_header_path(s: Seq<char>) -> Seq<char> {
    s.subrange(hws_run_end(s, 3), token_run_end(s, hws_run_end(s, 3)))
}

/// A hunk-body line: it begins with `+`, `-`, `\` or a space. The
/// backslash introduces continuation markers such as the note that a
/// trailing newline is missing.
pub open spec fn is_body_line(s: Seq<char>) -> bool {
    s.len() > 0 && (s[0] == '+' || s[0] == '-' || s[0] == '\\' || s[0] == ' ')
}

/// A line that carries no diff content: it begins with any character other
/// than `+`, `-` or a space. Commit banners, `diff --git` lines and index
/// lines all take this shape.
pub open spec fn is_nodiff_line(s: Seq<char>) -> bool {
    s.len() > 0 && !(s[0] == '+' || s[0] == '-' || s[0] == ' ')
}

/// An edit-direction character as hunk headers use it.
pub open spec fn is_op_char(c: char) -> bool {
    c == '+' || c == '-'
}

/// The direction a header character denotes.
pub open spec fn op_of_char(c: char) -> Op {
    if c == '+' {
        Op::Add
    } else {
        Op::Sub
    }
}

/// One side of a hunk header, as the grammar captures it: the direction,
/// the 1-based starting line, and the line count. The values are
/// unbounded here; whether they fit the machine is judged separately.
pub ghost struct RangeView {
    pub op: Op,
    pub line: int,
    pub count: int,
}

/// Parse one side of a hunk header at position `i`: a direction character,
/// a digit run, and optionally a comma followed by a second digit run.
/// Gives the captured values and the index just past them, or nothing if
/// the grammar does not match. An omitted count defaults to 1.
pub open spec fn parse_range(s: Seq<char>, i: int) -> Option<(RangeView, int)> {
    if i < s.len() && is_op_char(s[i]) && digit_run_end(s, i + 1) > i + 1 {
        let e = digit_run_end(s, i + 1);
        let op = op_of_char(s[i]);
        let line = digits_val(s.subrange(i + 1, e));
        if e < s.len() && s[e] == ',' {
            if digit_run_end(s, e + 1) > e + 1 {
                let e2 = digit_run_end(s, e + 1);
                Some((RangeView { op, line, count: digits_val(s.subrange(e + 1, e2)) }, e2))
            } else {
                None
            }
        } else {
            Some((RangeView { op, line, count: 1 }, e))
        }
    } else {
        None
    }
}

/// Whether the side at `i` parses with its count omitted, so that the
/// default of 1 applies.
pub open spec fn range_count_elided(s: Seq<char>, i: int) -> bool {
    parse_range(s, i) is Some && {
        let e = digit_run_end(s, i + 1);
        !(e < s.len() && s[e] == ',')
    }
}

/// Both sides of one hunk header.
pub ghost struct HunkHeaderView {
    pub src: RangeView,
    pub dst: RangeView,
}

/// Parse a hunk header: `@@ `, the source side, a space, the destination
/// side, then ` @@`; anything may follow and is ignored.
pub open spec fn parse_hunk_header(s: Seq<char>) -> Option<HunkHeaderView> {
    if s.len() >= 3 && s[0] == '@' && s[1] == '@' && s[2] == ' ' {
        match parse_range(s, 3) {
            Some((r1, e1)) => {
                if e1 < s.len() && s[e1] == ' ' {
                    match parse_range(s, e1 + 1) {
                        Some((r2, e2)) => {
                            if e2 + 3 <= s.len() && s[e2] == ' ' && s[e2 + 1] == '@' && s[e2 + 2]
                                == '@' {
                                Some(HunkHeaderView { src: r1, dst: r2 })
                            } else {
                                None
                            }
                        },
                        None => None,
                    }
                } else {
                    None
                }
            },
            None => None,
        }
    } else {
        None
    }
}

/// Whether every value a hunk header captured fits the machine's word.
pub open spec fn header_fits(h: HunkHeaderView) -> bool {
    h.src.line <= usize::MAX && h.src.count <= usize::MAX && h.dst.line <= usize::MAX
        && h.dst.count <= usize::MAX
}

/// A scan that saw only whitespace on `[a, b)` and a non-whitespace
/// character (or the end) at `b` has found the whitespace run's end.
pub proof fn lemma_hws_run_end(s: Seq<char>, a: int, b: int)
    requires
        0 <= a <= b <= s.len(),
        forall|j: int| a <= j < b ==> is_hws(s[j]),
        b == s.len() || !is_hws(s[b]),
    ensures
        hws_run_end(s, a) == b,
    decreases b - a,
{
    if a < b {
        lemma_hws_run_end(s, a + 1, b);
    }
}

/// The same for the maximal non-whitespace token.
pub proof fn lemma_token_run_end(s: Seq<char>, a: int, b: int)
    requires
        0 <= a <= b <= s.len(),
        forall|j: int| a <= j < b ==> !is_hws(s[j]),
        b == s.len() || is_hws(s[b]),
    ensures
        token_run_end(s, a) == b,
    decreases b - a,
{
    if a < b {
        lemma_token_run_end(s, a + 1, b);
    }
}

/// The same for a digit run.
pub proof fn lemma_digit_run_end(s: Seq<char>, a: int, b: int)
    requires
        0 <= a <= b <= s.len(),
        forall|j: int| a <= j < b ==> is_digit(s[j]),
        b == s.len() || !is_digit(s[b]),
    ensures
        digit_run_end(s, a) == b,
    decreases b - a,
{
    if a < b {
        lemma_digit_run_end(s, a + 1, b);
    }
}

/// What ending a digit run means: it reaches at least `a`, at most the end
/// of the line, every character before it is a digit, and the character at
/// it (if any) is not.
pub proof fn lemma_digit_run_end_props(s: Seq<char>, a: int)
    requires
        0 <= a <= s.len(),
    ensures
        a <= digit_run_end(s, a) <= s.len(),
        forall|j: int| a <= j < digit_run_end(s, a) ==> is_digit(s[j]),
        digit_run_end(s, a) == s.len() || !is_digit(s[digit_run_end(s, a)]),
    decreases s.len() - a,
{
    if a < s.len() && is_digit(s[a]) {
        lemma_digit_run_end_props(s, a + 1);
    }
}

fn is_hws_char(c: char) -> (b: bool)
    ensures
        b == is_hws(c),
{
    c == ' ' || c == '\t'
}

fn is_digit_char(c: char) -> (b: bool)
    ensures
        b == is_digit(c),
{
    '0' <= c && c <= '9'
}

/// Match a header line of the shape `marker`, optional whitespace, path:
/// shared by the source and destination header classifiers. `m` is the
/// marker character, repeated three times.
fn match_header_path(line: &str, m: char) -> (r: Option<String>)
    ensures
        r is Some <==> (line@.len() >= 3 && line@[0] == m && line@[1] == m && line@[2] == m
            && hws_run_end(line@, 3) < line@.len()),
        r matches Some(p) ==> p@ == line@.subrange(
            hws_run_end(line@, 3),
            token_run_end(line@, hws_run_end(line@, 3)),
        ),
{
    let n = line.unicode_len();
    if n < 3 || line.get_char(0) != m || line.get_char(1) != m || line.get_char(2) != m {
        proof {
            if line@.len() >= 3 && line@[0] == m && line@[1] == m && line@[2] == m {
                assert(false);
            }
        }
        return None;
    }
    let mut i: usize = 3;
    while i < n && is_hws_char(line.get_char(i))
        invariant
            3 <= i <= n,
            n == line@.len(),
            forall|j: int| 3 <= j < i ==> is_hws(line@[j]),
        decreases n - i,
    {
        i = i + 1;
    }
    proof {
        lemma_hws_run_end(line@, 3, i as int);
    }
    if i == n {
        return None;
    }
    let mut j: usize = i;
    while j < n && !is_hws_char(line.get_char(j))
        invariant
            i <= j <= n,
            n == line@.len(),
            forall|k: int| i <= k < j ==> !is_hws(line@[k]),
        decreases n - j,
    {
        j = j + 1;
    }
    proof {
        lemma_token_run_end(line@, i as int, j as int);
    }
    let path = line.substring_char(i, j);
    Some(path.to_owned())
}

/// Decide the source-file header shape, capturing the path.
pub fn match_src_header(line: &str) -> (r: Option<String>)
    ensures
        r is Some <==> is_src_header(line@),
        r matches Some(p) ==> p@ == src_header_path(line@),
{
    match_header_path(line, '-')
}

/// Decide the destination-file header shape, capturing the path.
pub fn match_dst_header(line: &str) -> (r: Option<String>)
    ensures
        r is Some <==> is_dst_header(line@),
        r matches Some(p) ==> p@ == dst_header_path(line@),
{
    match_header_path(line, '+')
}

/// Decide the hunk-body shape.
pub fn match_body_line(line: &str) -> (b: bool)
    ensures
        b == is_body_line(line@),
{
    if line.unicode_len() == 0 {
        return false;
    }
    let c = line.get_char(0);
    c == '+' || c == '-' || c == '\\' || c == ' '
}

/// Decide the non-diff shape.
pub fn match_nodiff_line(line: &str) -> (b: bool)
    ensures
        b == is_nodiff_line(line@),
{
    if line.unicode_len() == 0 {
        return false;
    }
    let c = line.get_char(0);
    !(c == '+' || c == '-' || c == ' ')
}

/// Scan the digit run that starts at `i`: its end, and its value if the
/// value fits a `usize`.
fn scan_number(line: &str, i: usize) -> (r: (usize, Option<usize>))
    requires
        i <= line@.len(),
    ensures
        r.0 == digit_run_end(line@, i as int),
        r.1 matches Some(v) ==> v == digits_val(line@.subrange(i as int, r.0 as int)),
        r.1 is None ==> digits_val(line@.subrange(i as int, r.0 as int)) > usize::MAX,
{
    let n = line.unicode_len();
    let mut j: usize = i;
    let mut val: usize = 0;
    let mut over: bool = false;
    while j < n && is_digit_char(line.get_char(j))
        invariant
            i <= j <= n,
            n == line@.len(),
            forall|k: int| i <= k < j ==> is_digit(line@[k]),
            !over ==> val == digits_val(line@.subrange(i as int, j as int)),
            over ==> digits_val(line@.subrange(i as int, j as int)) > usize::MAX,
        decreases n - j,
    {
        let c = line.get_char(j);
        let d: usize = (c as usize) - ('0' as usize);
        proof {
            assert(line@.subrange(i as int, j + 1).drop_last() =~= line@.subrange(
                i as int,
                j as int,
            ));
            assert(line@.subrange(i as int, j + 1).last() == line@[j as int]);
        }
        let ghost prev = digits_val(line@.subrange(i as int, j as int));
        assert(digits_val(line@.subrange(i as int, j + 1)) == prev * 10 + d);
        if over {
            assert(prev * 10 + d > usize::MAX) by (nonlinear_arith)
                requires
                    prev > usize::MAX,
                    d >= 0,
            ;
        } else {
            if val > (usize::MAX - d) / 10 {
                over = true;
                assert(val * 10 + d > usize::MAX) by (nonlinear_arith)
                    requires
                        val > (usize::MAX - d) / 10,
                        0 <= d <= usize::MAX,
                ;
            } else {
                assert(val * 10 + d <= usize::MAX) by (nonlinear_arith)
                    requires
                        val <= (usize::MAX - d) / 10,
                        0 <= d <= usize::MAX,
                ;
                val = val * 10 + d;
            }
        }
        j = j + 1;
    }
    proof {
        lemma_digit_run_end(line@, i as int, j as int);
    }
    if over {
        (j, None)
    } else {
        (j, Some(val))
    }
}

/// One side of a hunk header as scanned from a line: the direction, the
/// starting line and count where they fit a `usize`, and the index just
/// past the side.
pub struct RangeScan {
    pub op: Op,
    pub line: Option<usize>,
    pub count: Option<usize>,
    pub end: usize,
}

/// Scan one side of a hunk header at position `i`.
fn scan_range(line: &str, i: usize) -> (r: Option<RangeScan>)
    requires
        i <= line@.len(),
    ensures
        r is Some <==> parse_range(line@, i as int) is Some,
        r matches Some(sc) ==> parse_range(line@, i as int) matches Some((rv, e)) && sc.end == e
            && sc.end <= line@.len() && sc.op == rv.op && (sc.line matches Some(v) ==> v == rv.line)
            && (sc.line is None ==> rv.line > usize::MAX) && (sc.count matches Some(v) ==> v
            == rv.count) && (sc.count is None ==> rv.count > usize::MAX),
{
    let n = line.unicode_len();
    if i == n {
        return None;
    }
    let c = line.get_char(i);
    if !(c == '+' || c == '-') {
        return None;
    }
    let op = if c == '+' {
        Op::Add
    } else {
        Op::Sub
    };
    let (e, line_val) = scan_number(line, i + 1);
    proof {
        lemma_digit_run_end_props(line@, i + 1);
    }
    if e == i + 1 {
        return None;
    }
    if e < n && line.get_char(e) == ',' {
        let (e2, count_val) = scan_number(line, e + 1);
        proof {
            lemma_digit_run_end_props(line@, e + 1);
        }
        if e2 == e + 1 {
            return None;
        }
        Some(RangeScan { op, line: line_val, count: count_val, end: e2 })
    } else {
        Some(RangeScan { op, line: line_val, count: Some(1), end: e })
    }
}

/// The outcome of holding a line against the hunk-header shape: no match,
/// a match whose numerals do not fit a `usize`, or a match with its six
/// captures.
pub enum HeaderMatch {
    NoMatch,
    TooLarge,
    Ranges {
        src_op: Op,
        src_line: usize,
        src_count: usize,
        dst_op: Op,
        dst_line: usize,
        dst_count: usize,
    },
}

/// Decide the hunk-header shape, capturing both sides' values.
pub fn match_hunk_header(line: &str) -> (r: HeaderMatch)
    ensures
        r is NoMatch <==> parse_hunk_header(line@) is None,
        r is TooLarge ==> (parse_hunk_header(line@) matches Some(h) && !header_fits(h)),
        r matches HeaderMatch::Ranges { src_op, src_line, src_count, dst_op, dst_line, dst_count }
            ==> parse_hunk_header(line@) matches Some(h) && header_fits(h) && src_op == h.src.op
            && src_line == h.src.line && src_count == h.src.count && dst_op == h.dst.op && dst_line
            == h.dst.line && dst_count == h.dst.count,
{
    let n = line.unicode_len();
    if n < 3 || line.get_char(0) != '@' || line.get_char(1) != '@' || line.get_char(2) != ' ' {
        return HeaderMatch::NoMatch;
    }
    let r1 = match scan_range(line, 3) {
        Some(r1) => r1,
        None => {
            return HeaderMatch::NoMatch;
        },
    };
    if !(r1.end < n && line.get_char(r1.end) == ' ') {
        return HeaderMatch::NoMatch;
    }
    let r2 = match scan_range(line, r1.end + 1) {
        Some(r2) => r2,
        None => {
            return HeaderMatch::NoMatch;
        },
    };
    if !(r2.end <= n - 3 && line.get_char(r2.end) == ' ' && line.get_char(r2.end + 1) == '@'
        && line.get_char(r2.end + 2) == '@') {
        return HeaderMatch::NoMatch;
    }
    match (r1.line, r1.count, r2.line, r2.count) {
        (Some(src_line), Some(src_count), Some(dst_line), Some(dst_count)) => HeaderMatch::Ranges {
            src_op: r1.op,
            src_line,
            src_count,
            dst_op: r2.op,
            dst_line,
            dst_count,
        },
        _ => HeaderMatch::TooLarge,
    }
}

} // verus!
