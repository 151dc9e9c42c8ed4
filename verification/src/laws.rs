//! Laws of the parser: what whole runs of the machine yield.
//!
//! Each proof function here states a property of the machine over all
//! inputs of a given shape: a complete file section yields exactly its
//! hunks' pairs, every pair of a section carries that section's two
//! paths, preamble alone is accepted and yields nothing, and a source
//! header not followed by a destination header is a fatal error.

use vstd::prelude::*;

use crate::classify::HunkHeaderView;
use crate::classify::RangeView;
use crate::classify::digit_run_end;
use crate::classify::digit_val;
use crate::classify::digits_val;
use crate::classify::dst_header_path;
use crate::classify::header_fits;
use crate::classify::is_body_line;
use crate::classify::is_dst_header;
use crate::classify::is_nodiff_line;
use crate::classify::is_op_char;
use crate::classify::is_src_header;
use crate::classify::lemma_digit_run_end;
use crate::classify::lemma_digit_run_end_props;
use crate::classify::parse_hunk_header;
use crate::classify::parse_range;
use crate::classify::range_count_elided;
use crate::classify::src_header_path;
use crate::diff::FileView;
use crate::diff::MachineState;
use crate::diff::Outcome;
use crate::diff::Step;
use crate::diff::machine_run;
use crate::diff::machine_step;
use crate::diff::pair_of_header;

verus! {

/// A line a file section may hold after its first hunk header: a body
/// line, or another hunk header whose values fit the machine.
pub open spec fn body_or_hunk(l: Seq<char>) -> bool {
    is_body_line(l) || (parse_hunk_header(l) matches Some(h) && header_fits(h))
}

/// Every line of `lines` is a body line or a fitting hunk header.
pub open spec fn section_body_ok(lines: Seq<Seq<char>>) -> bool {
    forall|i: int| 0 <= i < lines.len() ==> body_or_hunk(#[trigger] lines[i])
}

/// The descriptor pairs that the hunk headers among `lines` yield for a
/// file section with the paths `src` and `dst`, in input order.
pub open spec fn hunk_pairs(lines: Seq<Seq<char>>, src: Seq<char>, dst: Seq<char>) -> Seq<
    (FileView, FileView),
>
    decreases lines.len(),
{
    if lines.len() == 0 {
        Seq::empty()
    } else {
        let rest = hunk_pairs(lines.drop_first(), src, dst);
        match parse_hunk_header(lines[0]) {
            Some(h) => seq![pair_of_header(h, src, dst)] + rest,
            None => rest,
        }
    }
}

/// Running the machine over concatenated input composes: whatever state
/// and pairs the first part reaches, the whole run continues from there.
pub proof fn lemma_run_append(
    s: MachineState,
    d: Seq<(FileView, FileView)>,
    a: Seq<Seq<char>>,
    b: Seq<Seq<char>>,
    s1: MachineState,
    d1: Seq<(FileView, FileView)>,
)
    requires
        machine_run(s, d, a) == (Outcome::Accept { state: s1, diffs: d1 }),
    ensures
        machine_run(s, d, a + b) == machine_run(s1, d1, b),
    decreases a.len(),
{
    if a.len() == 0 {
        assert(a + b =~= b);
    } else {
        assert((a + b)[0] == a[0]);
        assert((a + b).drop_first() =~= a.drop_first() + b);
        match machine_step(s, a[0]) {
            Step::Next { state, emit } => {
                let appended = match emit {
                    Some(p) => d.push(p),
                    None => d,
                };
                lemma_run_append(state, appended, a.drop_first(), b, s1, d1);
            },
            Step::Reject { .. } => {},
        }
    }
}

/// Multiple hunks in one file section: from the in-hunk state, body lines
/// are discarded and every hunk header appends exactly one pair carrying
/// the section's two paths, in the order the headers are encountered; the
/// machine stays in the in-hunk state throughout.
pub proof fn lemma_hunks_in_section(
    src: Seq<char>,
    dst: Seq<char>,
    d0: Seq<(FileView, FileView)>,
    lines: Seq<Seq<char>>,
)
    requires
        section_body_ok(lines),
    ensures
        machine_run(MachineState::Hdr { src, dst }, d0, lines) == (Outcome::Accept {
            state: MachineState::Hdr { src, dst },
            diffs: d0 + hunk_pairs(lines, src, dst),
        }),
    decreases lines.len(),
{
    if lines.len() == 0 {
        assert(d0 + hunk_pairs(lines, src, dst) =~= d0);
    } else {
        let rest = lines.drop_first();
        assert(body_or_hunk(lines[0]));
        assert(section_body_ok(rest)) by {
            assert(forall|i: int| 0 <= i < rest.len() ==> rest[i] == lines[i + 1]);
        }
        if is_body_line(lines[0]) {
            lemma_hunks_in_section(src, dst, d0, rest);
        } else {
            let h = parse_hunk_header(lines[0])->Some_0;
            let pair = pair_of_header(h, src, dst);
            lemma_hunks_in_section(src, dst, d0.push(pair), rest);
            assert(d0.push(pair) + hunk_pairs(rest, src, dst) =~= d0 + hunk_pairs(
                lines,
                src,
                dst,
            ));
        }
    }
}

/// A complete file section parsed from the start state: the source
/// header, the destination header, then the hunks. Each path is captured
/// verbatim from its header line — `/dev/null` and any other token pass
/// through unchanged — and the section yields exactly its hunk headers'
/// pairs, in order, every one carrying the section's two paths.
pub proof fn lemma_file_section(
    src_line: Seq<char>,
    dst_line: Seq<char>,
    body: Seq<Seq<char>>,
    d0: Seq<(FileView, FileView)>,
)
    requires
        is_src_header(src_line),
        is_dst_header(dst_line),
        body.len() > 0,
        parse_hunk_header(body[0]) is Some,
        section_body_ok(body),
    ensures
        machine_run(MachineState::Start, d0, seq![src_line, dst_line] + body) == (Outcome::Accept {
            state: MachineState::Hdr {
                src: src_header_path(src_line),
                dst: dst_header_path(dst_line),
            },
            diffs: d0 + hunk_pairs(body, src_header_path(src_line), dst_header_path(dst_line)),
        }),
{
    let sp = src_header_path(src_line);
    let dp = dst_header_path(dst_line);
    let full = seq![src_line, dst_line] + body;
    assert(full[0] == src_line);
    assert(full.drop_first() =~= seq![dst_line] + body);
    assert((seq![dst_line] + body)[0] == dst_line);
    assert((seq![dst_line] + body).drop_first() =~= body);
    assert(!is_src_header(dst_line));
    let h = parse_hunk_header(body[0])->Some_0;
    assert(body_or_hunk(body[0]));
    assert(!is_body_line(body[0]));
    assert(header_fits(h));
    let pair = pair_of_header(h, sp, dp);
    let rest = body.drop_first();
    assert(section_body_ok(rest)) by {
        assert(forall|i: int| 0 <= i < rest.len() ==> rest[i] == body[i + 1]);
    }
    assert(machine_run(MachineState::Start, d0, full) == machine_run(
        MachineState::Src { src: sp },
        d0,
        seq![dst_line] + body,
    ));
    assert(machine_run(MachineState::Src { src: sp }, d0, seq![dst_line] + body) == machine_run(
        MachineState::Dst { src: sp, dst: dp },
        d0,
        body,
    ));
    assert(machine_run(MachineState::Dst { src: sp, dst: dp }, d0, body) == machine_run(
        MachineState::Hdr { src: sp, dst: dp },
        d0.push(pair),
        rest,
    ));
    lemma_hunks_in_section(sp, dp, d0.push(pair), rest);
    assert(d0.push(pair) + hunk_pairs(rest, sp, dp) =~= d0 + hunk_pairs(body, sp, dp));
}

/// Body lines alone yield no pairs.
pub proof fn lemma_hunk_pairs_all_body(lines: Seq<Seq<char>>, src: Seq<char>, dst: Seq<char>)
    requires
        forall|i: int| 0 <= i < lines.len() ==> is_body_line(#[trigger] lines[i]),
    ensures
        hunk_pairs(lines, src, dst) == Seq::<(FileView, FileView)>::empty(),
    decreases lines.len(),
{
    if lines.len() > 0 {
        let rest = lines.drop_first();
        assert(forall|i: int| 0 <= i < rest.len() ==> rest[i] == lines[i + 1]);
        lemma_hunk_pairs_all_body(rest, src, dst);
    }
}

/// The pairs of concatenated line runs are the runs' pairs, concatenated.
pub proof fn lemma_hunk_pairs_append(
    a: Seq<Seq<char>>,
    b: Seq<Seq<char>>,
    src: Seq<char>,
    dst: Seq<char>,
)
    ensures
        hunk_pairs(a + b, src, dst) == hunk_pairs(a, src, dst) + hunk_pairs(b, src, dst),
    decreases a.len(),
{
    if a.len() == 0 {
        assert(a + b =~= b);
        assert(hunk_pairs(a, src, dst) + hunk_pairs(b, src, dst) =~= hunk_pairs(b, src, dst));
    } else {
        assert((a + b)[0] == a[0]);
        assert((a + b).drop_first() =~= a.drop_first() + b);
        lemma_hunk_pairs_append(a.drop_first(), b, src, dst);
        match parse_hunk_header(a[0]) {
            Some(h) => {
                assert(seq![pair_of_header(h, src, dst)] + (hunk_pairs(a.drop_first(), src, dst)
                    + hunk_pairs(b, src, dst)) =~= hunk_pairs(a, src, dst) + hunk_pairs(
                    b,
                    src,
                    dst,
                ));
            },
            None => {},
        }
    }
}

/// A single-hunk round trip: a source header, a destination header, one
/// hunk header and any body lines yield exactly one descriptor pair — the
/// source side built from the header's first range and the source path,
/// the destination side from its second range and the destination path.
pub proof fn lemma_single_hunk_round_trip(
    src_line: Seq<char>,
    dst_line: Seq<char>,
    head: Seq<char>,
    body: Seq<Seq<char>>,
    h: HunkHeaderView,
)
    requires
        is_src_header(src_line),
        is_dst_header(dst_line),
        parse_hunk_header(head) == Some(h),
        header_fits(h),
        forall|i: int| 0 <= i < body.len() ==> is_body_line(#[trigger] body[i]),
    ensures
        machine_run(MachineState::Start, Seq::empty(), seq![src_line, dst_line, head] + body) == (
        Outcome::Accept {
            state: MachineState::Hdr {
                src: src_header_path(src_line),
                dst: dst_header_path(dst_line),
            },
            diffs: seq![
                pair_of_header(h, src_header_path(src_line), dst_header_path(dst_line)),
            ],
        }),
{
    let sp = src_header_path(src_line);
    let dp = dst_header_path(dst_line);
    let sec = seq![head] + body;
    assert(seq![src_line, dst_line] + sec =~= seq![src_line, dst_line, head] + body);
    assert(sec[0] == head);
    assert forall|i: int| 0 <= i < sec.len() implies body_or_hunk(#[trigger] sec[i]) by {
        if i > 0 {
            assert(sec[i] == body[i - 1]);
        }
    }
    lemma_file_section(src_line, dst_line, sec, Seq::empty());
    assert(sec.drop_first() =~= body);
    lemma_hunk_pairs_all_body(body, sp, dp);
    assert(Seq::<(FileView, FileView)>::empty() + hunk_pairs(sec, sp, dp) =~= seq![
        pair_of_header(h, sp, dp),
    ]);
}

/// Two hunks under one file-pair header, separated only by body lines,
/// yield two pairs sharing the section's paths, in the order encountered.
pub proof fn lemma_two_hunks_one_file(
    src_line: Seq<char>,
    dst_line: Seq<char>,
    head1: Seq<char>,
    mid: Seq<Seq<char>>,
    head2: Seq<char>,
    tail: Seq<Seq<char>>,
    h1: HunkHeaderView,
    h2: HunkHeaderView,
)
    requires
        is_src_header(src_line),
        is_dst_header(dst_line),
        parse_hunk_header(head1) == Some(h1),
        header_fits(h1),
        parse_hunk_header(head2) == Some(h2),
        header_fits(h2),
        forall|i: int| 0 <= i < mid.len() ==> is_body_line(#[trigger] mid[i]),
        forall|i: int| 0 <= i < tail.len() ==> is_body_line(#[trigger] tail[i]),
    ensures
        machine_run(
            MachineState::Start,
            Seq::empty(),
            seq![src_line, dst_line, head1] + mid + seq![head2] + tail,
        ) == (Outcome::Accept {
            state: MachineState::Hdr {
                src: src_header_path(src_line),
                dst: dst_header_path(dst_line),
            },
            diffs: seq![
                pair_of_header(h1, src_header_path(src_line), dst_header_path(dst_line)),
                pair_of_header(h2, src_header_path(src_line), dst_header_path(dst_line)),
            ],
        }),
{
    let sp = src_header_path(src_line);
    let dp = dst_header_path(dst_line);
    let sec = seq![head1] + mid + seq![head2] + tail;
    assert(seq![src_line, dst_line] + sec =~= seq![src_line, dst_line, head1] + mid + seq![head2]
        + tail);
    assert(sec[0] == head1);
    assert forall|i: int| 0 <= i < sec.len() implies body_or_hunk(#[trigger] sec[i]) by {
        if 0 < i < 1 + mid.len() {
            assert(sec[i] == mid[i - 1]);
        } else if i > 1 + mid.len() {
            assert(sec[i] == tail[i - (2 + mid.len())]);
        }
    }
    lemma_file_section(src_line, dst_line, sec, Seq::empty());
    lemma_hunk_pairs_append(seq![head1] + mid + seq![head2], tail, sp, dp);
    lemma_hunk_pairs_append(seq![head1] + mid, seq![head2], sp, dp);
    lemma_hunk_pairs_append(seq![head1], mid, sp, dp);
    lemma_hunk_pairs_all_body(mid, sp, dp);
    lemma_hunk_pairs_all_body(tail, sp, dp);
    assert(seq![head1].drop_first() =~= Seq::<Seq<char>>::empty());
    assert(seq![head2].drop_first() =~= Seq::<Seq<char>>::empty());
    assert(hunk_pairs(Seq::<Seq<char>>::empty(), sp, dp) =~= Seq::<(FileView, FileView)>::empty());
    assert(seq![head1][0] == head1);
    assert(seq![head2][0] == head2);
    assert(hunk_pairs(seq![head1], sp, dp) =~= seq![pair_of_header(h1, sp, dp)]);
    assert(hunk_pairs(seq![head2], sp, dp) =~= seq![pair_of_header(h2, sp, dp)]);
    assert(Seq::<(FileView, FileView)>::empty() + hunk_pairs(sec, sp, dp) =~= seq![
        pair_of_header(h1, sp, dp),
        pair_of_header(h2, sp, dp),
    ]);
}

/// Two complete file sections separated by one non-diff boundary line:
/// the pairs come grouped by section in input order, the first section's
/// pairs carrying only its two paths and the second section's only its
/// own — no cross-contamination between sections.
pub proof fn lemma_multi_file_stream(
    src1: Seq<char>,
    dst1: Seq<char>,
    body1: Seq<Seq<char>>,
    boundary: Seq<char>,
    src2: Seq<char>,
    dst2: Seq<char>,
    body2: Seq<Seq<char>>,
)
    requires
        is_src_header(src1),
        is_dst_header(dst1),
        body1.len() > 0,
        parse_hunk_header(body1[0]) is Some,
        section_body_ok(body1),
        is_nodiff_line(boundary),
        !is_body_line(boundary),
        parse_hunk_header(boundary) is None,
        is_src_header(src2),
        is_dst_header(dst2),
        body2.len() > 0,
        parse_hunk_header(body2[0]) is Some,
        section_body_ok(body2),
    ensures
        machine_run(
            MachineState::Start,
            Seq::empty(),
            (seq![src1, dst1] + body1) + seq![boundary] + (seq![src2, dst2] + body2),
        ) == (Outcome::Accept {
            state: MachineState::Hdr {
                src: src_header_path(src2),
                dst: dst_header_path(dst2),
            },
            diffs: hunk_pairs(body1, src_header_path(src1), dst_header_path(dst1)) + hunk_pairs(
                body2,
                src_header_path(src2),
                dst_header_path(dst2),
            ),
        }),
{
    let sp1 = src_header_path(src1);
    let dp1 = dst_header_path(dst1);
    let sp2 = src_header_path(src2);
    let dp2 = dst_header_path(dst2);
    let sec1 = seq![src1, dst1] + body1;
    let sec2 = seq![src2, dst2] + body2;
    let d1 = hunk_pairs(body1, sp1, dp1);
    lemma_file_section(src1, dst1, body1, Seq::empty());
    assert(Seq::<(FileView, FileView)>::empty() + d1 =~= d1);
    lemma_run_append(
        MachineState::Start,
        Seq::empty(),
        sec1,
        seq![boundary] + sec2,
        MachineState::Hdr { src: sp1, dst: dp1 },
        d1,
    );
    assert(sec1 + (seq![boundary] + sec2) =~= (sec1 + seq![boundary]) + sec2);
    assert((seq![boundary] + sec2)[0] == boundary);
    assert((seq![boundary] + sec2).drop_first() =~= sec2);
    lemma_file_section(src2, dst2, body2, d1);
}

/// Rejection: a source header not immediately followed by a destination
/// header is a fatal error, reporting the offending line and the state
/// that was expecting the destination header; the pairs gathered before
/// it are kept as they were and no later line is consumed.
pub proof fn lemma_rejection_missing_dst(
    s0: MachineState,
    d0: Seq<(FileView, FileView)>,
    pre: Seq<Seq<char>>,
    src: Seq<char>,
    d: Seq<(FileView, FileView)>,
    bad: Seq<char>,
    rest: Seq<Seq<char>>,
)
    requires
        machine_run(s0, d0, pre) == (Outcome::Accept { state: MachineState::Src { src }, diffs: d }),
        !is_dst_header(bad),
    ensures
        machine_run(s0, d0, pre + (seq![bad] + rest)) == (Outcome::Reject {
            state: MachineState::Src { src },
            diffs: d,
            line: bad,
            overflow: false,
        }),
{
    lemma_run_append(s0, d0, pre, seq![bad] + rest, MachineState::Src { src }, d);
    assert((seq![bad] + rest)[0] == bad);
}

/// A stream with no recognisable header line at all: when every line
/// matches the non-diff shape, the machine accepts from the start state,
/// stays there, and yields no pairs.
pub proof fn lemma_preamble_only(d0: Seq<(FileView, FileView)>, lines: Seq<Seq<char>>)
    requires
        forall|i: int| 0 <= i < lines.len() ==> is_nodiff_line(#[trigger] lines[i]),
    ensures
        machine_run(MachineState::Start, d0, lines) == (Outcome::Accept {
            state: MachineState::Start,
            diffs: d0,
        }),
    decreases lines.len(),
{
    if lines.len() > 0 {
        assert(!is_src_header(lines[0]));
        let rest = lines.drop_first();
        assert(forall|i: int| 0 <= i < rest.len() ==> rest[i] == lines[i + 1]);
        lemma_preamble_only(d0, rest);
    }
}

/// Idempotent re-parse: the machine is a function of its input alone, so
/// feeding identical line sequences to two fresh parsers yields identical
/// outcomes. The contract of `Parser::parse` pins its whole result to
/// `machine_run`; this equality records that there is no hidden
/// nondeterminism to pin down.
pub proof fn lemma_reparse_deterministic(a: Seq<Seq<char>>, b: Seq<Seq<char>>)
    requires
        a == b,
    ensures
        machine_run(MachineState::Start, Seq::empty(), a) == machine_run(
            MachineState::Start,
            Seq::empty(),
            b,
        ),
{
}

/// Default count elision: a hunk-header side that omits its count stands
/// for count 1 — writing `,1` out after the line number yields the very
/// same captures, two characters further along.
pub proof fn lemma_default_count_elision(
    s: Seq<char>,
    i: int,
    r: RangeView,
    e: int,
    t: Seq<char>,
)
    requires
        0 <= i,
        parse_range(s, i) == Some((r, e)),
        range_count_elided(s, i),
        t == s.take(e) + seq![',', '1'] + s.skip(e),
    ensures
        parse_range(t, i) == Some((r, e + 2)),
        r.count == 1,
{
    lemma_digit_run_end_props(s, i + 1);
    assert(e == digit_run_end(s, i + 1));
    assert(i + 1 < e <= s.len());
    assert(t.len() == s.len() + 2);
    assert(forall|k: int| 0 <= k < e ==> t[k] == s[k]);
    assert(t[e] == ',');
    assert(t[e + 1] == '1');
    assert(forall|k: int| e + 2 <= k < t.len() ==> t[k] == s[k - 2]);
    lemma_digit_run_end(t, i + 1, e);
    assert(t.subrange(i + 1, e) =~= s.subrange(i + 1, e));
    lemma_digit_run_end(t, e + 1, e + 2);
    assert(t.subrange(e + 1, e + 2) =~= seq!['1']);
    assert(seq!['1'].drop_last() =~= Seq::<char>::empty());
    assert(digits_val(Seq::<char>::empty()) == 0);
    assert(seq!['1'].last() == '1');
    assert(digit_val('1') == 1);
    assert(digits_val(seq!['1']) == 1);
}

/// Parsing one side of a hunk header looks only at the line's tail: two
/// lines that agree from the parse position onwards parse alike, their
/// end indices apart by the positions' offset.
pub proof fn lemma_parse_range_shift(s: Seq<char>, t: Seq<char>, i: int, j: int)
    requires
        0 <= i <= s.len(),
        0 <= j <= t.len(),
        s.skip(i) == t.skip(j),
    ensures
        parse_range(s, i) is Some <==> parse_range(t, j) is Some,
        parse_range(s, i) matches Some((r, e)) ==> parse_range(t, j) == Some((r, e - i + j)),
{
    assert(s.skip(i).len() == s.len() - i);
    assert(t.skip(j).len() == t.len() - j);
    assert forall|m: int| j <= m < t.len() implies t[m] == s[m - j + i] by {
        assert(t[m] == t.skip(j)[m - j]);
        assert(s.skip(i)[m - j] == s[m - j + i]);
    }
    if i < s.len() && is_op_char(s[i]) {
        assert(t[j] == s[i]);
        lemma_digit_run_end_props(s, i + 1);
        let b = digit_run_end(s, i + 1);
        lemma_digit_run_end(t, j + 1, b - i + j);
        assert(t.subrange(j + 1, b - i + j) =~= s.subrange(i + 1, b));
        if b > i + 1 {
            if b < s.len() && s[b] == ',' {
                lemma_digit_run_end_props(s, b + 1);
                let b2 = digit_run_end(s, b + 1);
                lemma_digit_run_end(t, b - i + j + 1, b2 - i + j);
                assert(t.subrange(b - i + j + 1, b2 - i + j) =~= s.subrange(b + 1, b2));
            }
        }
    } else {
        if j < t.len() {
            assert(t[j] == s[j - j + i]);
        }
    }
}

/// Default count elision over a whole hunk header, source side: a header
/// whose source range omits its count parses exactly as the header with
/// `,1` written out after the source line number, and that count is 1.
pub proof fn lemma_header_count_elision_src(
    s: Seq<char>,
    t: Seq<char>,
    h: HunkHeaderView,
    e1: int,
)
    requires
        parse_hunk_header(s) == Some(h),
        parse_range(s, 3) matches Some((r, e)) && e == e1,
        range_count_elided(s, 3),
        t == s.take(e1) + seq![',', '1'] + s.skip(e1),
    ensures
        parse_hunk_header(t) == Some(h),
        h.src.count == 1,
{
    let r1 = parse_range(s, 3)->Some_0.0;
    lemma_default_count_elision(s, 3, r1, e1, t);
    lemma_digit_run_end_props(s, 4);
    assert(t[0] == s[0] && t[1] == s[1] && t[2] == s[2]);
    assert(t[e1 + 2] == s[e1]);
    let r2 = parse_range(s, e1 + 1)->Some_0.0;
    let e2 = parse_range(s, e1 + 1)->Some_0.1;
    assert(s.skip(e1 + 1) =~= t.skip(e1 + 3)) by {
        assert(forall|k: int| 0 <= k < s.len() - e1 - 1 ==> #[trigger] s.skip(e1 + 1)[k] == s[e1 + 1
            + k]);
        assert(forall|k: int| 0 <= k < t.len() - e1 - 3 ==> #[trigger] t.skip(e1 + 3)[k] == t[e1 + 3
            + k]);
        assert(forall|k: int| e1 + 2 <= k < t.len() ==> #[trigger] t[k] == s[k - 2]);
    }
    lemma_parse_range_shift(s, t, e1 + 1, e1 + 3);
    assert(parse_range(t, e1 + 3) == Some((r2, e2 + 2)));
    assert(t[e2 + 2] == s[e2] && t[e2 + 3] == s[e2 + 1] && t[e2 + 4] == s[e2 + 2]);
}

/// Parsing one side of a hunk header reads the line no further than one
/// past the side's end: lines that agree up to there parse alike.
pub proof fn lemma_parse_range_agree(s: Seq<char>, t: Seq<char>, i: int, r: RangeView, e: int)
    requires
        0 <= i,
        parse_range(s, i) == Some((r, e)),
        e < s.len(),
        e < t.len(),
        forall|k: int| i <= k <= e ==> t[k] == s[k],
    ensures
        parse_range(t, i) == Some((r, e)),
{
    lemma_digit_run_end_props(s, i + 1);
    let b = digit_run_end(s, i + 1);
    lemma_digit_run_end(t, i + 1, b);
    assert(t.subrange(i + 1, b) =~= s.subrange(i + 1, b));
    if b < s.len() && s[b] == ',' {
        lemma_digit_run_end_props(s, b + 1);
        lemma_digit_run_end(t, b + 1, e);
        assert(t.subrange(b + 1, e) =~= s.subrange(b + 1, e));
    }
}

/// Default count elision over a whole hunk header, destination side: a
/// header whose destination range omits its count parses exactly as the
/// header with `,1` written out, and that count is 1.
#[verifier::rlimit(50)]
pub proof fn lemma_header_count_elision_dst(
    s: Seq<char>,
    t: Seq<char>,
    h: HunkHeaderView,
    e1: int,
    e2: int,
)
    requires
        parse_hunk_header(s) == Some(h),
        parse_range(s, 3) matches Some((r, e)) && e == e1,
        parse_range(s, e1 + 1) matches Some((r, e)) && e == e2,
        range_count_elided(s, e1 + 1),
        t == s.take(e2) + seq![',', '1'] + s.skip(e2),
    ensures
        parse_hunk_header(t) == Some(h),
        h.dst.count == 1,
{
    let r1 = parse_range(s, 3)->Some_0.0;
    let r2 = parse_range(s, e1 + 1)->Some_0.0;
    lemma_default_count_elision(s, e1 + 1, r2, e2, t);
    lemma_digit_run_end_props(s, 4);
    lemma_digit_run_end_props(s, e1 + 2);
    assert(forall|k: int| 0 <= k < e2 ==> t[k] == s[k]);
    assert(t[0] == s[0] && t[1] == s[1] && t[2] == s[2]);
    lemma_parse_range_agree(s, t, 3, r1, e1);
    assert(t[e1] == s[e1]);
    assert(t[e2 + 2] == s[e2] && t[e2 + 3] == s[e2 + 1] && t[e2 + 4] == s[e2 + 2]);
}

} // verus!
