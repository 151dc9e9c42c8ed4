//! The diff parser: the descriptor model, the parser state machine, and
//! its mathematical counterpart.
//!
//! The machine holds at most the two pending path strings of the current
//! file section and appends one descriptor pair per hunk header it
//! consumes. Each line is held against the shapes the current state
//! allows, in a fixed priority order; the first matching shape decides
//! the transition, and a line that matches none is a fatal error.

use std::rc::Rc;

use vstd::prelude::*;

use crate::classify::HeaderMatch;
use crate::classify::HunkHeaderView;
use crate::classify::dst_header_path;
use crate::classify::header_fits;
use crate::classify::is_body_line;
use crate::classify::is_dst_header;
use crate::classify::is_nodiff_line;
use crate::classify::is_src_header;
use crate::classify::match_body_line;
use crate::classify::match_dst_header;
use crate::classify::match_hunk_header;
use crate::classify::match_nodiff_line;
use crate::classify::match_src_header;
use crate::classify::parse_hunk_header;
use crate::classify::src_header_path;

verus! {

/// An enumeration of the supported operations in a diff.
#[derive(Clone, Copy, Debug, PartialEq, Eq, Structural)]
pub enum Op {
    /// Lines are being added.
    Add,
    /// Lines are being removed.
    Sub,
}

impl core::str::FromStr for Op {
    type Err = ();

    /// The direction is produced only from the literal `+` or `-`; any
    /// other string is invalid.
    fn from_str(s: &str) -> (r: Result<Self, Self::Err>)
        ensures
            r == (if s@ =~= seq!['+'] {
                Ok::<Op, ()>(Op::Add)
            } else if s@ =~= seq!['-'] {
                Ok::<Op, ()>(Op::Sub)
            } else {
                Err::<Op, ()>(())
            }),
    {
        if s.unicode_len() == 1 && s.get_char(0) == '+' {
            proof {
                assert(s@ =~= seq!['+']);
            }
            Ok(Op::Add)
        } else if s.unicode_len() == 1 && s.get_char(0) == '-' {
            proof {
                assert(s@ =~= seq!['-']);
            }
            Ok(Op::Sub)
        } else {
            Err(())
        }
    }
}

/// An object capturing meta data about one side of a hunk.
#[derive(Debug)]
pub struct File {
    /// The file the diff belongs to. The two paths of a file section are
    /// shared, read-only, by every descriptor emitted for that section.
    pub file: Rc<String>,
    /// Whether the diff adds or removes lines.
    pub op: Op,
    /// The start line of the diff. Zero means that no line applies, as
    /// for the missing side of a created or deleted file.
    pub line: usize,
    /// The number of lines in the diff.
    pub count: usize,
}

/// The mathematical value of a `File` descriptor.
pub ghost struct FileView {
    pub file: Seq<char>,
    pub op: Op,
    pub line: int,
    pub count: int,
}

impl View for File {
    type V = FileView;

    open spec fn view(&self) -> FileView {
        FileView { file: self.file@, op: self.op, line: self.line as int, count: self.count as int }
    }
}

/// The state of the parser's machine, over mathematical values: how much
/// of a file-section header has been consumed.
pub ghost enum MachineState {
    /// Expecting a new source-file header, or preamble to discard.
    Start,
    /// The source header was consumed; its destination header must follow.
    Src { src: Seq<char> },
    /// Both headers consumed; the first hunk header must follow.
    Dst { src: Seq<char>, dst: Seq<char> },
    /// At least one hunk header consumed for this file section.
    Hdr { src: Seq<char>, dst: Seq<char> },
}

/// The descriptor pair one hunk header yields: the source side first,
/// the destination side second, each carrying its section's path.
pub open spec fn pair_of_header(h: HunkHeaderView, src: Seq<char>, dst: Seq<char>) -> (
    FileView,
    FileView,
) {
    (
        FileView { file: src, op: h.src.op, line: h.src.line, count: h.src.count },
        FileView { file: dst, op: h.dst.op, line: h.dst.line, count: h.dst.count },
    )
}

/// What one line does to the machine.
pub ghost enum Step {
    /// The line matched a shape: the next state, and the pair appended,
    /// if the line was a hunk header.
    Next { state: MachineState, emit: Option<(FileView, FileView)> },
    /// The line matched no shape the state allows (`overflow` false), or
    /// it matched the hunk-header shape with a numeral too large for the
    /// machine (`overflow` true). Either is a fatal parse error.
    Reject { overflow: bool },
}

/// The transition function: hold `line` against the shapes `s` allows, in
/// priority order, and take the first match.
pub open spec fn machine_step(s: MachineState, line: Seq<char>) -> Step {
    match s {
        MachineState::Start => {
            if is_src_header(line) {
                Step::Next { state: MachineState::Src { src: src_header_path(line) }, emit: None }
            } else if is_nodiff_line(line) {
                Step::Next { state: MachineState::Start, emit: None }
            } else {
                Step::Reject { overflow: false }
            }
        },
        MachineState::Src { src } => {
            if is_dst_header(line) {
                Step::Next {
                    state: MachineState::Dst { src, dst: dst_header_path(line) },
                    emit: None,
                }
            } else {
                Step::Reject { overflow: false }
            }
        },
        MachineState::Dst { src, dst } => {
            match parse_hunk_header(line) {
                Some(h) => {
                    if header_fits(h) {
                        Step::Next {
                            state: MachineState::Hdr { src, dst },
                            emit: Some(pair_of_header(h, src, dst)),
                        }
                    } else {
                        Step::Reject { overflow: true }
                    }
                },
                None => Step::Reject { overflow: false },
            }
        },
        MachineState::Hdr { src, dst } => {
            if is_body_line(line) {
                Step::Next { state: MachineState::Hdr { src, dst }, emit: None }
            } else {
                match parse_hunk_header(line) {
                    Some(h) => {
                        if header_fits(h) {
                            Step::Next {
                                state: MachineState::Hdr { src, dst },
                                emit: Some(pair_of_header(h, src, dst)),
                            }
                        } else {
                            Step::Reject { overflow: true }
                        }
                    },
                    None => {
                        if is_nodiff_line(line) {
                            Step::Next { state: MachineState::Start, emit: None }
                        } else {
                            Step::Reject { overflow: false }
                        }
                    },
                }
            }
        },
    }
}

/// What a whole run of the machine yields.
pub ghost enum Outcome {
    /// Every line matched: the final state, and every pair appended, in
    /// input order.
    Accept { state: MachineState, diffs: Seq<(FileView, FileView)> },
    /// A line failed to match: the state and pairs at that moment, the
    /// offending line, and whether the failure was a numeral too large.
    Reject {
        state: MachineState,
        diffs: Seq<(FileView, FileView)>,
        line: Seq<char>,
        overflow: bool,
    },
}

/// Run the machine over `lines`, one line at a time, from state `s` with
/// the pairs `diffs` already accumulated.
pub open spec fn machine_run(
    s: MachineState,
    diffs: Seq<(FileView, FileView)>,
    lines: Seq<Seq<char>>,
) -> Outcome
    decreases lines.len(),
{
    if lines.len() == 0 {
        Outcome::Accept { state: s, diffs }
    } else {
        match machine_step(s, lines[0]) {
            Step::Next { state, emit } => {
                let appended = match emit {
                    Some(p) => diffs.push(p),
                    None => diffs,
                };
                machine_run(state, appended, lines.drop_first())
            },
            Step::Reject { overflow } => Outcome::Reject { state: s, diffs, line: lines[0], overflow },
        }
    }
}

/// A line as the machine sees it: one trailing newline character, if any,
/// is removed before classification.
pub open spec fn strip_newline(s: Seq<char>) -> Seq<char> {
    if s.len() > 0 && s.last() == '\n' {
        s.drop_last()
    } else {
        s
    }
}

/// The lines the machine is fed, out of the lines the caller supplies:
/// each stripped of its trailing newline, and those left empty skipped.
pub open spec fn normalize_lines(lines: Seq<Seq<char>>) -> Seq<Seq<char>>
    decreases lines.len(),
{
    if lines.len() == 0 {
        Seq::empty()
    } else {
        let head = strip_newline(lines[0]);
        let rest = normalize_lines(lines.drop_first());
        if head.len() == 0 {
            rest
        } else {
            seq![head] + rest
        }
    }
}

/// The names of the machine's states, for error reports.
#[derive(Clone, Copy, Debug, PartialEq, Eq, Structural)]
pub enum StateKind {
    Start,
    Src,
    Dst,
    Hdr,
}

/// The name of a machine state.
pub open spec fn kind_of(s: MachineState) -> StateKind {
    match s {
        MachineState::Start => StateKind::Start,
        MachineState::Src { .. } => StateKind::Src,
        MachineState::Dst { .. } => StateKind::Dst,
        MachineState::Hdr { .. } => StateKind::Hdr,
    }
}

/// Why parsing failed. Every failure is fatal: there is no recovery and
/// no silent skipping of malformed lines.
#[derive(Debug)]
pub enum ParseError {
    /// The line matched no shape the current state allows. This covers a
    /// source header not followed by a destination header, a destination
    /// header not followed by a hunk header, and any line no shape takes.
    UnexpectedLine { line: String, state: StateKind },
    /// The line matched the hunk-header shape, but a line number or count
    /// in it is too large for the machine.
    NumberTooLarge { line: String },
}

/// Whether `e` reports exactly the failure of holding `line` against the
/// shapes that the state `state` allows.
pub open spec fn error_matches(
    e: ParseError,
    line: Seq<char>,
    state: MachineState,
    overflow: bool,
) -> bool {
    match e {
        ParseError::UnexpectedLine { line: l, state: k } => !overflow && l@ == line && k == kind_of(
            state,
        ),
        ParseError::NumberTooLarge { line: l } => overflow && l@ == line,
    }
}

/// Relies on `Rc::clone`: the clone is a second handle to the same string.
#[verifier::external_body]
fn rc_clone(v: &Rc<String>) -> (r: Rc<String>)
    ensures
        r@ == v@,
{
    Rc::clone(v)
}

/// An enumeration of all the states our parser can be in, holding the
/// pending path strings of the current file section.
enum State {
    /// The state when we expect a new file to start.
    Start,
    /// The state after we parsed the source file header part.
    Src { src: Rc<String> },
    /// The state after we parsed the destination file header part.
    Dst { src: Rc<String>, dst: Rc<String> },
    /// The state after we parsed the entire header.
    Hdr { src: Rc<String>, dst: Rc<String> },
}

impl View for State {
    type V = MachineState;

    closed spec fn view(&self) -> MachineState {
        match self {
            State::Start => MachineState::Start,
            State::Src { src } => MachineState::Src { src: src@ },
            State::Dst { src, dst } => MachineState::Dst { src: src@, dst: dst@ },
            State::Hdr { src, dst } => MachineState::Hdr { src: src@, dst: dst@ },
        }
    }
}

/// The mathematical value of an accumulated descriptor sequence.
pub open spec fn pairs_view(s: Seq<(File, File)>) -> Seq<(FileView, FileView)> {
    s.map_values(|p: (File, File)| (p.0@, p.1@))
}

impl State {
    /// A helper function advancing `self` to another state.
    fn advance(&mut self, state: State)
        ensures
            final(self)@ == state@,
    {
        *self = state;
    }

    /// A second handle to this state: the paths are shared, not copied.
    fn duplicate(&self) -> (s: State)
        ensures
            s@ == self@,
    {
        match self {
            State::Start => State::Start,
            State::Src { src } => State::Src { src: rc_clone(src) },
            State::Dst { src, dst } => State::Dst { src: rc_clone(src), dst: rc_clone(dst) },
            State::Hdr { src, dst } => State::Hdr { src: rc_clone(src), dst: rc_clone(dst) },
        }
    }

    /// Consume one line: hold it against the shapes the current state
    /// allows, in priority order, advance by the first match, and append
    /// a descriptor pair if the line is a hunk header.
    fn parse(&mut self, diffs: &mut Vec<(File, File)>, line: &str) -> (r: Result<(), ParseError>)
        ensures
            match machine_step(old(self)@, line@) {
                Step::Next { state, emit } => r is Ok && final(self)@ == state && pairs_view(
                    final(diffs)@,
                ) == match emit {
                    Some(p) => pairs_view(old(diffs)@).push(p),
                    None => pairs_view(old(diffs)@),
                },
                Step::Reject { overflow } => (r matches Err(e) && error_matches(
                    e,
                    line@,
                    old(self)@,
                    overflow,
                )) && final(self)@ == old(self)@ && final(diffs)@ == old(diffs)@,
            },
    {
        match self.duplicate() {
            State::Start => {
                if let Some(path) = match_src_header(line) {
                    self.advance(State::Src { src: Rc::new(path) });
                    Ok(())
                } else if match_nodiff_line(line) {
                    Ok(())
                } else {
                    Err(ParseError::UnexpectedLine { line: line.to_owned(), state: StateKind::Start })
                }
            },
            State::Src { src } => {
                if let Some(path) = match_dst_header(line) {
                    self.advance(State::Dst { src, dst: Rc::new(path) });
                    Ok(())
                } else {
                    Err(ParseError::UnexpectedLine { line: line.to_owned(), state: StateKind::Src })
                }
            },
            State::Dst { src, dst } => {
                match match_hunk_header(line) {
                    HeaderMatch::Ranges { src_op, src_line, src_count, dst_op, dst_line, dst_count } => {
                        let src_file = File {
                            file: rc_clone(&src),
                            op: src_op,
                            line: src_line,
                            count: src_count,
                        };
                        let dst_file = File {
                            file: rc_clone(&dst),
                            op: dst_op,
                            line: dst_line,
                            count: dst_count,
                        };
                        let ghost previous = pairs_view(diffs@);
                        let ghost pair = (src_file@, dst_file@);
                        diffs.push((src_file, dst_file));
                        proof {
                            assert(pairs_view(diffs@) =~= previous.push(pair));
                        }
                        self.advance(State::Hdr { src, dst });
                        Ok(())
                    },
                    HeaderMatch::TooLarge => Err(
                        ParseError::NumberTooLarge { line: line.to_owned() },
                    ),
                    HeaderMatch::NoMatch => Err(
                        ParseError::UnexpectedLine { line: line.to_owned(), state: StateKind::Dst },
                    ),
                }
            },
            State::Hdr { src, dst } => {
                if match_body_line(line) {
                    Ok(())
                } else {
                    match match_hunk_header(line) {
                        HeaderMatch::Ranges {
                            src_op,
                            src_line,
                            src_count,
                            dst_op,
                            dst_line,
                            dst_count,
                        } => {
                            let src_file = File {
                                file: rc_clone(&src),
                                op: src_op,
                                line: src_line,
                                count: src_count,
                            };
                            let dst_file = File {
                                file: rc_clone(&dst),
                                op: dst_op,
                                line: dst_line,
                                count: dst_count,
                            };
                            let ghost previous = pairs_view(diffs@);
                            let ghost pair = (src_file@, dst_file@);
                            diffs.push((src_file, dst_file));
                            proof {
                                assert(pairs_view(diffs@) =~= previous.push(pair));
                            }
                            self.advance(State::Hdr { src, dst });
                            Ok(())
                        },
                        HeaderMatch::TooLarge => Err(
                            ParseError::NumberTooLarge { line: line.to_owned() },
                        ),
                        HeaderMatch::NoMatch => {
                            if match_nodiff_line(line) {
                                self.advance(State::Start);
                                Ok(())
                            } else {
                                Err(
                                    ParseError::UnexpectedLine {
                                        line: line.to_owned(),
                                        state: StateKind::Hdr,
                                    },
                                )
                            }
                        },
                    }
                }
            },
        }
    }
}

/// The views of a list of caller-supplied lines.
pub open spec fn line_views(lines: Seq<String>) -> Seq<Seq<char>> {
    lines.map_values(|l: String| l@)
}

/// Remove one trailing newline character, if any.
fn strip_newline_exec(line: &str) -> (r: &str)
    ensures
        r@ == strip_newline(line@),
{
    let n = line.unicode_len();
    if n > 0 && line.get_char(n - 1) == '\n' {
        let r = line.substring_char(0, n - 1);
        proof {
            assert(r@ =~= line@.drop_last());
        }
        r
    } else {
        line
    }
}

/// A type interpreting a diff and extracting relevant information.
pub struct Parser {
    state: State,
    diffs: Vec<(File, File)>,
}

/// The mathematical value of a `Parser`: the machine's state and the
/// descriptor pairs accumulated so far, in input order.
pub ghost struct ParserView {
    pub state: MachineState,
    pub diffs: Seq<(FileView, FileView)>,
}

impl View for Parser {
    type V = ParserView;

    closed spec fn view(&self) -> ParserView {
        ParserView { state: self.state@, diffs: pairs_view(self.diffs@) }
    }
}

impl Parser {
    /// Create a new `Parser` object in its initial state.
    pub fn new() -> (p: Parser)
        ensures
            p@.state == MachineState::Start,
            p@.diffs == Seq::<(FileView, FileView)>::empty(),
    {
        let p = Parser { state: State::Start, diffs: Vec::new() };
        proof {
            assert(p@.diffs =~= Seq::<(FileView, FileView)>::empty());
        }
        p
    }

    /// Parse a list of lines.
    ///
    /// Each line is stripped of one trailing newline character; a line
    /// left empty is skipped without being classified. The remaining
    /// lines advance the machine one at a time from wherever the parser
    /// stands, appending one descriptor pair per hunk header. The first
    /// line that matches no shape of its state aborts parsing with an
    /// error carrying that line and the state's name; the state and the
    /// pairs gathered up to that line are kept as they were.
    pub fn parse(&mut self, lines: &Vec<String>) -> (r: Result<(), ParseError>)
        ensures
            match machine_run(
                old(self)@.state,
                old(self)@.diffs,
                normalize_lines(line_views(lines@)),
            ) {
                Outcome::Accept { state, diffs } => r is Ok && final(self)@.state == state
                    && final(self)@.diffs == diffs,
                Outcome::Reject { state, diffs, line, overflow } => (r matches Err(e)
                    && error_matches(e, line, state, overflow)) && final(self)@.state == state
                    && final(self)@.diffs == diffs,
            },
    {
        let ghost s0 = self@;
        let ghost all = normalize_lines(line_views(lines@));
        proof {
            assert(line_views(lines@).skip(0) =~= line_views(lines@));
        }
        let n = lines.len();
        let mut idx: usize = 0;
        while idx < n
            invariant
                idx <= n,
                n == lines@.len(),
                s0 == old(self)@,
                all == normalize_lines(line_views(lines@)),
                machine_run(s0.state, s0.diffs, all) == machine_run(
                    self@.state,
                    self@.diffs,
                    normalize_lines(line_views(lines@).skip(idx as int)),
                ),
            decreases n - idx,
        {
            let ghost rest = line_views(lines@).skip(idx as int);
            proof {
                assert(rest[0] == lines@[idx as int]@);
                assert(rest.drop_first() =~= line_views(lines@).skip(idx as int + 1));
            }
            let raw: &String = &lines[idx];
            let line = strip_newline_exec(raw.as_str());
            if line.unicode_len() != 0 {
                let ghost tail = normalize_lines(rest.drop_first());
                proof {
                    assert(normalize_lines(rest) == seq![line@] + tail);
                    assert((seq![line@] + tail)[0] == line@);
                    assert((seq![line@] + tail).drop_first() =~= tail);
                }
                match self.state.parse(&mut self.diffs, line) {
                    Ok(()) => {},
                    Err(e) => {
                        return Err(e);
                    },
                }
            }
            idx = idx + 1;
        }
        proof {
            assert(line_views(lines@).skip(n as int) =~= Seq::<Seq<char>>::empty());
        }
        Ok(())
    }

    /// Retrieve all found diffs.
    pub fn diffs(&self) -> (r: &[(File, File)])
        ensures
            pairs_view(r@) == self@.diffs,
    {
        self.diffs.as_slice()
    }
}

} // verus!
