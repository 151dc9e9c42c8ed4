//! Tests for the diff parser: the line shapes, the state machine's
//! transitions, and the descriptor pairs it accumulates.

use std::ops::Deref as _;
use std::str::FromStr as _;

use git_blamediff::diff::Op;
use git_blamediff::diff::ParseError;
use git_blamediff::diff::Parser;
use git_blamediff::diff::StateKind;

/// Split a diff into the lines its text holds.
fn lines_of(diff: &str) -> Vec<String> {
    diff.split('\n').map(str::to_string).collect()
}

/// Test parsing of a very simple one-line-change diff.
#[test]
fn parse_simple_diff() {
    let diff = r#"
--- main.c
+++ main.c
@@ -6,6 +6,6 @@ int main(int argc, char const* argv[])
     fprintf(stderr, "Too many arguments.\n");
     return -1;
   }
-  printf("Hello world!");
+  printf("Hello world!\n");
   return 0;
 }"#;

    let mut parser = Parser::new();
    let () = parser.parse(&lines_of(diff)).unwrap();

    let diffs = parser.diffs();
    assert_eq!(diffs.len(), 1);

    let (src, dst) = &diffs[0];
    assert_eq!(src.file.deref(), "main.c");
    assert_eq!(src.op, Op::Sub);
    assert_eq!(src.line, 6);
    assert_eq!(src.count, 6);

    assert_eq!(dst.file.deref(), "main.c");
    assert_eq!(dst.op, Op::Add);
    assert_eq!(dst.line, 6);
    assert_eq!(dst.count, 6);
}

/// Test that we can parse a diff emitted by git if a file's trailing
/// newline is added.
#[test]
fn parse_diff_adding_newline_at_end_of_file() {
    let diff = r#"
--- main.c
+++ main.c
@@ -8,4 +8,4 @@ int main(int argc, char const* argv[])
   }
   printf("Hello world!");
   return 0;
-}
\\ No newline at end of file
+}"#;

    let mut parser = Parser::new();
    let () = parser.parse(&lines_of(diff)).unwrap();

    let diffs = parser.diffs();
    assert_eq!(diffs.len(), 1);

    let (src, dst) = &diffs[0];
    assert_eq!(src.file.deref(), "main.c");
    assert_eq!(src.op, Op::Sub);
    assert_eq!(src.line, 8);
    assert_eq!(src.count, 4);

    assert_eq!(dst.file.deref(), "main.c");
    assert_eq!(dst.op, Op::Add);
    assert_eq!(dst.line, 8);
    assert_eq!(dst.count, 4);
}

/// Test that we can parse a diff emitted by git if a file's trailing
/// newline is removed.
#[test]
fn parse_diff_removing_newline_at_end_of_file() {
    let diff = r#"
--- main.c
+++ main.c
@@ -8,4 +8,4 @@ int main(int argc, char const* argv[])
   }
   printf("Hello world!");
   return 0;
-}
+}
\\ No newline at end of file"#;

    let mut parser = Parser::new();
    let () = parser.parse(&lines_of(diff)).unwrap();

    let diffs = parser.diffs();
    assert_eq!(diffs.len(), 1);

    let (src, dst) = &diffs[0];
    assert_eq!(src.file.deref(), "main.c");
    assert_eq!(src.op, Op::Sub);
    assert_eq!(src.line, 8);
    assert_eq!(src.count, 4);

    assert_eq!(dst.file.deref(), "main.c");
    assert_eq!(dst.op, Op::Add);
    assert_eq!(dst.line, 8);
    assert_eq!(dst.count, 4);
}

/// Test that we can parse a diff adding a file with a single line.
#[test]
fn parse_diff_with_added_file_with_single_line() {
    let diff = "\n--- /dev/null\n+++ main.c\n@@ -0,0 +1 @@\n+main.c";

    let mut parser = Parser::new();
    let () = parser.parse(&lines_of(diff)).unwrap();

    let diffs = parser.diffs();
    assert_eq!(diffs.len(), 1);

    let (src, dst) = &diffs[0];
    assert_eq!(src.file.deref(), "/dev/null");
    assert_eq!(src.op, Op::Sub);
    assert_eq!(src.line, 0);
    assert_eq!(src.count, 0);

    assert_eq!(dst.file.deref(), "main.c");
    assert_eq!(dst.op, Op::Add);
    assert_eq!(dst.line, 1);
    assert_eq!(dst.count, 1);
}

/// Test that we can parse a diff removing a file with a single line.
#[test]
fn parse_diff_with_removed_file_with_single_line() {
    let diff = "\n--- main.c\n+++ /dev/null\n@@ -1 +0,0 @@\n-main.c";

    let mut parser = Parser::new();
    let () = parser.parse(&lines_of(diff)).unwrap();

    let diffs = parser.diffs();
    assert_eq!(diffs.len(), 1);

    let (src, dst) = &diffs[0];
    assert_eq!(src.file.deref(), "main.c");
    assert_eq!(src.op, Op::Sub);
    assert_eq!(src.line, 1);
    assert_eq!(src.count, 1);

    assert_eq!(dst.file.deref(), "/dev/null");
    assert_eq!(dst.op, Op::Add);
    assert_eq!(dst.line, 0);
    assert_eq!(dst.count, 0);
}

/// Verify that we can parse a diff containing an empty line.
#[test]
fn parse_diff_with_empty_line() {
    let diff = r#"
--- main.c
+++ main.c
@@ -1,6 +1,6 @@
 #include <stdio.h>
 
-int main(int argc, char const* argv[])
+int main(int argc, char* argv[])
 {
   if (argc > 1) {
     fprintf(stderr, "Too many arguments.\n");"#;

    let mut parser = Parser::new();
    let () = parser.parse(&lines_of(diff)).unwrap();

    let diffs = parser.diffs();
    assert_eq!(diffs.len(), 1);

    let (src, dst) = &diffs[0];
    assert_eq!(src.file.deref(), "main.c");
    assert_eq!(src.op, Op::Sub);
    assert_eq!(src.line, 1);
    assert_eq!(src.count, 6);

    assert_eq!(dst.file.deref(), "main.c");
    assert_eq!(dst.op, Op::Add);
    assert_eq!(dst.line, 1);
    assert_eq!(dst.count, 6);
}

/// A single hunk makes the round trip: every captured value of the hunk
/// header comes back in the one descriptor pair.
#[test]
fn single_hunk_round_trip() {
    let diff = "--- a\n+++ a\n@@ -3,5 +7,2 @@\n context";

    let mut parser = Parser::new();
    parser.parse(&lines_of(diff)).unwrap();

    let diffs = parser.diffs();
    assert_eq!(diffs.len(), 1);

    let (src, dst) = &diffs[0];
    assert_eq!(src.file.deref(), "a");
    assert_eq!(src.op, Op::Sub);
    assert_eq!(src.line, 3);
    assert_eq!(src.count, 5);

    assert_eq!(dst.file.deref(), "a");
    assert_eq!(dst.op, Op::Add);
    assert_eq!(dst.line, 7);
    assert_eq!(dst.count, 2);
}

/// A hunk header that omits a count is equivalent to one that writes
/// `,1`: the two spellings yield identical descriptors.
#[test]
fn default_count_elision() {
    let elided = "--- a\n+++ b\n@@ -0,0 +1 @@";
    let written = "--- a\n+++ b\n@@ -0,0 +1,1 @@";

    let mut p1 = Parser::new();
    p1.parse(&lines_of(elided)).unwrap();
    let mut p2 = Parser::new();
    p2.parse(&lines_of(written)).unwrap();

    let d1 = p1.diffs();
    let d2 = p2.diffs();
    assert_eq!(d1.len(), 1);
    assert_eq!(d2.len(), 1);
    assert_eq!(d1[0].0.line, d2[0].0.line);
    assert_eq!(d1[0].0.count, d2[0].0.count);
    assert_eq!(d1[0].1.line, d2[0].1.line);
    assert_eq!(d1[0].1.count, d2[0].1.count);
    assert_eq!(d1[0].1.count, 1);
    assert_eq!(d1[0].0.line, 0);
    assert_eq!(d1[0].0.count, 0);
    assert_eq!(d1[0].1.line, 1);
}

/// Two hunk headers under one file-pair header produce two pairs sharing
/// the same paths, in the order encountered.
#[test]
fn multi_hunk_single_file() {
    let diff = "--- m.c\n+++ m.c\n@@ -1,2 +1,3 @@\n-x\n+y\n+z\n@@ -9,1 +10,1 @@\n-q\n+r";

    let mut parser = Parser::new();
    parser.parse(&lines_of(diff)).unwrap();

    let diffs = parser.diffs();
    assert_eq!(diffs.len(), 2);

    assert_eq!(diffs[0].0.file.deref(), "m.c");
    assert_eq!(diffs[0].1.file.deref(), "m.c");
    assert_eq!(diffs[0].0.line, 1);
    assert_eq!(diffs[0].1.count, 3);

    assert_eq!(diffs[1].0.file.deref(), "m.c");
    assert_eq!(diffs[1].1.file.deref(), "m.c");
    assert_eq!(diffs[1].0.line, 9);
    assert_eq!(diffs[1].1.line, 10);
}

/// Two file sections separated by a non-diff boundary line: the pairs
/// come grouped by file, in input order, each section's paths staying
/// with its own pairs.
#[test]
fn multi_file_stream() {
    let diff = "--- one.c\n+++ one.c\n@@ -1,2 +1,2 @@\n-a\n+b\ndiff --git x y\n--- two.c\n+++ two.c\n@@ -5,1 +5,2 @@\n-c\n+d\n+e";

    let mut parser = Parser::new();
    parser.parse(&lines_of(diff)).unwrap();

    let diffs = parser.diffs();
    assert_eq!(diffs.len(), 2);

    assert_eq!(diffs[0].0.file.deref(), "one.c");
    assert_eq!(diffs[0].1.file.deref(), "one.c");
    assert_eq!(diffs[0].0.line, 1);

    assert_eq!(diffs[1].0.file.deref(), "two.c");
    assert_eq!(diffs[1].1.file.deref(), "two.c");
    assert_eq!(diffs[1].0.line, 5);
    assert_eq!(diffs[1].1.count, 2);
}

/// A `/dev/null` path passes through unmodified, as any other token, and
/// its side's numbers follow ordinary grammar parsing.
#[test]
fn nonexistent_file_convention() {
    let diff = "--- /dev/null\n+++ fresh.c\n@@ -0,0 +1 @@\n+hello";

    let mut parser = Parser::new();
    parser.parse(&lines_of(diff)).unwrap();

    let diffs = parser.diffs();
    assert_eq!(diffs.len(), 1);
    assert_eq!(diffs[0].0.file.deref(), "/dev/null");
    assert_eq!(diffs[0].0.op, Op::Sub);
    assert_eq!(diffs[0].0.line, 0);
    assert_eq!(diffs[0].0.count, 0);
    assert_eq!(diffs[0].1.file.deref(), "fresh.c");
    assert_eq!(diffs[0].1.op, Op::Add);
    assert_eq!(diffs[0].1.line, 1);
    assert_eq!(diffs[0].1.count, 1);
}

/// A source header not immediately followed by a destination header is a
/// fatal error reporting the offending line and the state.
#[test]
fn rejection_missing_dst_header() {
    let diff = "--- main.c\nnot a destination header";

    let mut parser = Parser::new();
    let err = parser.parse(&lines_of(diff)).unwrap_err();
    match err {
        ParseError::UnexpectedLine { line, state } => {
            assert_eq!(line, "not a destination header");
            assert_eq!(state, StateKind::Src);
        },
        other => panic!("wrong error: {:?}", other),
    }
    assert_eq!(parser.diffs().len(), 0);
}

/// A destination header not immediately followed by a hunk header is a
/// fatal error too.
#[test]
fn rejection_missing_hunk_header() {
    let diff = "--- main.c\n+++ main.c\nwhere is the hunk";

    let mut parser = Parser::new();
    let err = parser.parse(&lines_of(diff)).unwrap_err();
    match err {
        ParseError::UnexpectedLine { line, state } => {
            assert_eq!(line, "where is the hunk");
            assert_eq!(state, StateKind::Dst);
        },
        other => panic!("wrong error: {:?}", other),
    }
}

/// A stream with no recognisable header lines at all yields zero pairs
/// and no error when every line matches the non-diff shape.
#[test]
fn preamble_only_stream() {
    let diff = "commit 0123abcd\nAuthor: somebody\ndiff --git a b\nindex 12..34";

    let mut parser = Parser::new();
    parser.parse(&lines_of(diff)).unwrap();
    assert_eq!(parser.diffs().len(), 0);
}

/// A hunk header whose numeral cannot fit the machine's word is a fatal
/// error carrying the offending line.
#[test]
fn rejection_numeral_too_large() {
    let diff = "--- a\n+++ a\n@@ -99999999999999999999999999 +1 @@";

    let mut parser = Parser::new();
    let err = parser.parse(&lines_of(diff)).unwrap_err();
    match err {
        ParseError::NumberTooLarge { line } => {
            assert_eq!(line, "@@ -99999999999999999999999999 +1 @@");
        },
        other => panic!("wrong error: {:?}", other),
    }
}

/// Feeding the identical line sequence to two fresh parsers yields
/// identical output sequences.
#[test]
fn idempotent_reparse() {
    let diff = "--- a.c\n+++ b.c\n@@ -1,2 +3,4 @@\n-x\n+y\nboundary\n--- c.c\n+++ d.c\n@@ -5 +6,7 @@\n+z";

    let mut p1 = Parser::new();
    p1.parse(&lines_of(diff)).unwrap();
    let mut p2 = Parser::new();
    p2.parse(&lines_of(diff)).unwrap();

    let d1 = p1.diffs();
    let d2 = p2.diffs();
    assert_eq!(d1.len(), d2.len());
    let mut i: usize = 0;
    while i < d1.len() {
        assert_eq!(d1[i].0.file, d2[i].0.file);
        assert_eq!(d1[i].0.op, d2[i].0.op);
        assert_eq!(d1[i].0.line, d2[i].0.line);
        assert_eq!(d1[i].0.count, d2[i].0.count);
        assert_eq!(d1[i].1.file, d2[i].1.file);
        assert_eq!(d1[i].1.op, d2[i].1.op);
        assert_eq!(d1[i].1.line, d2[i].1.line);
        assert_eq!(d1[i].1.count, d2[i].1.count);
        i += 1;
    }
}

/// The edit direction is parsed from the header characters, not
/// hard-coded: the grammar stays the single source of truth.
#[test]
fn op_parsed_from_header() {
    assert_eq!(Op::from_str("+"), Ok(Op::Add));
    assert_eq!(Op::from_str("-"), Ok(Op::Sub));
    assert_eq!(Op::from_str("*"), Err(()));
    assert_eq!(Op::from_str("++"), Err(()));
}

/// Header paths keep everything up to the first whitespace: a tab or a
/// trailing annotation after the path is not part of it.
#[test]
fn header_path_is_first_token() {
    let diff = "--- a/old.c\t2024-01-01\n+++ b/new.c\n@@ -1 +1 @@\n-x\n+y";

    let mut parser = Parser::new();
    parser.parse(&lines_of(diff)).unwrap();

    let diffs = parser.diffs();
    assert_eq!(diffs.len(), 1);
    assert_eq!(diffs[0].0.file.deref(), "a/old.c");
    assert_eq!(diffs[0].1.file.deref(), "b/new.c");
}

/// A line starting with `-` that is not a source header matches no shape
/// in the start state: the error names the line and the state.
#[test]
fn start_state_rejects_malformed_dash_line() {
    let mut parser = Parser::new();
    let err = parser.parse(&lines_of("-x")).unwrap_err();
    match err {
        ParseError::UnexpectedLine { line, state } => {
            assert_eq!(line, "-x");
            assert_eq!(state, StateKind::Start);
        },
        other => panic!("wrong error: {:?}", other),
    }
}

/// A source-header marker with no path token after it is not a source
/// header, and matches no other shape in the start state either.
#[test]
fn start_state_rejects_marker_without_path() {
    let mut parser = Parser::new();
    let err = parser.parse(&lines_of("--- \t ")).unwrap_err();
    match err {
        ParseError::UnexpectedLine { line, state } => {
            assert_eq!(line, "--- \t ");
            assert_eq!(state, StateKind::Start);
        },
        other => panic!("wrong error: {:?}", other),
    }
}

/// A malformed `@@` line inside a hunk matches the non-diff shape and
/// closes the file section: the line is consumed as the boundary and the
/// next section parses from the start state.
#[test]
fn malformed_hunk_header_closes_section() {
    let diff = "--- a\n+++ a\n@@ -1 +1 @@\n-x\n@@ bogus\n--- b\n+++ b\n@@ -2 +2 @@\n+y";

    let mut parser = Parser::new();
    parser.parse(&lines_of(diff)).unwrap();

    let diffs = parser.diffs();
    assert_eq!(diffs.len(), 2);
    assert_eq!(diffs[0].0.file.deref(), "a");
    assert_eq!(diffs[0].0.line, 1);
    assert_eq!(diffs[1].0.file.deref(), "b");
    assert_eq!(diffs[1].0.line, 2);
}

/// A backslash-led continuation line is a body line inside a hunk and a
/// non-diff line elsewhere: in the start state it is discarded silently.
#[test]
fn backslash_line_is_preamble_at_start() {
    let diff = "\\ stray continuation\n--- a\n+++ a\n@@ -1 +1 @@\n-x";

    let mut parser = Parser::new();
    parser.parse(&lines_of(diff)).unwrap();
    assert_eq!(parser.diffs().len(), 1);
}

/// Parsing may continue across calls: lines fed one at a time accumulate
/// the same descriptors as one batch.
#[test]
fn incremental_feeding_matches_batch() {
    let diff = "--- a\n+++ a\n@@ -4,2 +4,3 @@\n-x\n+y";

    let mut batch = Parser::new();
    batch.parse(&lines_of(diff)).unwrap();

    let mut incremental = Parser::new();
    for line in lines_of(diff) {
        incremental.parse(&vec![line]).unwrap();
    }

    let b = batch.diffs();
    let i = incremental.diffs();
    assert_eq!(b.len(), 1);
    assert_eq!(i.len(), 1);
    assert_eq!(b[0].0.file, i[0].0.file);
    assert_eq!(b[0].0.line, i[0].0.line);
    assert_eq!(b[0].0.count, i[0].0.count);
    assert_eq!(b[0].1.line, i[0].1.line);
    assert_eq!(b[0].1.count, i[0].1.count);
}
