use dotenvy::chars::ByteClass;
use dotenvy::scan::{scan_run, scan_trim_end};
use dotenvy::splitter::{logical_line_end, parse_state, ParseState};

#[test]
fn state_before_a_value() {
    assert_eq!(parse_state(b""), ParseState::Start);
    assert_eq!(parse_state(b"   "), ParseState::Start);
    assert_eq!(parse_state(b"KEY"), ParseState::Start);
    assert_eq!(parse_state(b"export KEY "), ParseState::Start);
    assert_eq!(parse_state(b"# comment"), ParseState::Start);
}

#[test]
fn state_inside_a_value() {
    assert_eq!(parse_state(b"KEY="), ParseState::InUnquotedValue);
    assert_eq!(parse_state(b"KEY=val"), ParseState::InUnquotedValue);
    assert_eq!(parse_state(b"KEY='val"), ParseState::InSingleQuoted);
    assert_eq!(parse_state(b"KEY='it\\'s"), ParseState::InSingleQuoted);
    assert_eq!(parse_state(b"KEY=\"val"), ParseState::InDoubleQuoted);
    assert_eq!(parse_state(b"KEY=\"a\\\"b"), ParseState::InDoubleQuoted);
}

#[test]
fn state_awaiting_continuation() {
    assert_eq!(parse_state(b"KEY=\"line1\n"), ParseState::AwaitingContinuation);
    assert_eq!(parse_state(b"KEY=\"line1\nline2"), ParseState::AwaitingContinuation);
    assert_eq!(parse_state(b"KEY=\"line1\nline2\n\n"), ParseState::AwaitingContinuation);
}

#[test]
fn state_behind_a_statement() {
    assert_eq!(parse_state(b"\n"), ParseState::Done);
    assert_eq!(parse_state(b"# comment\n"), ParseState::Done);
    assert_eq!(parse_state(b"KEY\n"), ParseState::Done);
    assert_eq!(parse_state(b"KEY=val\n"), ParseState::Done);
    assert_eq!(parse_state(b"KEY='val'"), ParseState::Done);
    assert_eq!(parse_state(b"KEY='val\n"), ParseState::Done);
    assert_eq!(parse_state(b"KEY=\"val\""), ParseState::Done);
    assert_eq!(parse_state(b"KEY=\"line1\nline2\""), ParseState::Done);
    assert_eq!(parse_state(b"KEY=\"bad \\q"), ParseState::Done);
}

#[test]
fn logical_lines_of_a_text() {
    let text = b"A=1\n# c\nB=\"x\ny\" trailing\nC='z\nD=2";
    let mut starts = vec![0usize];
    loop {
        let next = logical_line_end(text, *starts.last().unwrap());
        if next >= text.len() {
            assert_eq!(next, text.len());
            break;
        }
        starts.push(next);
    }
    assert_eq!(starts, vec![0, 4, 8, 25, 30]);
    assert_eq!(logical_line_end(text, text.len()), text.len());
}

#[test]
fn runs_of_bytes() {
    let text = b"  \tKEY_1 = v  \nnext";
    assert_eq!(scan_run(text, 0, text.len(), ByteClass::Blank), 3);
    assert_eq!(scan_run(text, 3, text.len(), ByteClass::Ident), 8);
    assert_eq!(scan_run(text, 3, 5, ByteClass::Ident), 5);
    assert_eq!(scan_run(text, 0, text.len(), ByteClass::Text), 14);
    assert_eq!(scan_run(text, 15, text.len(), ByteClass::Text), text.len());
    assert_eq!(scan_trim_end(text, 11, 14), 12);
    assert_eq!(scan_trim_end(text, 0, 3), 0);
    assert!(ByteClass::Ident.contains(b'_'));
    assert!(!ByteClass::Ident.contains(b'-'));
    assert!(ByteClass::Blank.contains(b'\r'));
    assert!(!ByteClass::Blank.contains(b'\n'));
}
