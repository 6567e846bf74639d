//! The line splitter: where a logical line ends, and whether the text read
//! so far is a whole one.
//!
//! A reader that takes its text one physical line at a time asks for the
//! state after each line, and reads on while a double-quoted value awaits
//! its continuation.

use vstd::prelude::*;
use crate::chars::{ByteClass, DOUBLE_QUOTE, SINGLE_QUOTE};
use crate::env::Env;
use crate::errors::ParseErrorKind;
use crate::grammar::{
    Expansion, Head, Quoting, expand, head, overlay, quoting_at, statement_end,
};
use crate::independence::lemma_statement_alike;
use crate::parse::{expand_value, parse_head, parse_statement};
use crate::scan::{line_end, scan_run};

verus! {

/// Where the parser stands in a logical line.
#[derive(Clone, Copy, Debug, PartialEq, Eq, Structural)]
pub enum ParseState {
    /// Before a value: nothing was read, or the key and its `=` are not
    /// complete.
    Start,
    /// In a bare value, which the end of the line will end.
    InUnquotedValue,
    /// In a single-quoted value that is not closed.
    InSingleQuoted,
    /// In a double-quoted value that is not closed, on the line where it
    /// began.
    InDoubleQuoted,
    /// In a double-quoted value that is not closed, behind the end of a
    /// line: the statement goes on with the next physical line.
    AwaitingContinuation,
    /// Behind the statement: its line has ended or its value is closed, or
    /// it is malformed beyond repair.
    Done,
}

/// The state after `t` was read from the beginning of a logical line.
pub open spec fn state_after(t: Seq<u8>) -> ParseState {
    let eol = line_end(t, 0);
    let ended = eol < t.len();
    let look = Map::<Seq<u8>, Seq<u8>>::empty();
    match head(t, 0, eol) {
        Head::Value { key_start, key_end, at } => match quoting_at(t, at, eol) {
            Quoting::Bare => if ended {
                ParseState::Done
            } else {
                ParseState::InUnquotedValue
            },
            Quoting::Single => if ended || expand(t, at + 1, eol, Quoting::Single, look) is Done {
                ParseState::Done
            } else {
                ParseState::InSingleQuoted
            },
            Quoting::Double => if expand(t, at + 1, t.len() as int, Quoting::Double, look)
                != Expansion::Bad(ParseErrorKind::UnterminatedQuote) {
                ParseState::Done
            } else if ended {
                ParseState::AwaitingContinuation
            } else {
                ParseState::InDoubleQuoted
            },
        },
        _ => if ended {
            ParseState::Done
        } else {
            ParseState::Start
        },
    }
}

/// Tells where the parser stands after `text`, read from the beginning of a
/// logical line.
pub fn parse_state(text: &[u8]) -> (r: ParseState)
    ensures
        r == state_after(text@),
{
    let len = text.len();
    let eol = scan_run(text, 0, len, ByteClass::Text);
    let ended = eol < len;
    let none = Env::new();
    proof {
        assert(overlay(none@, none@) =~= Map::<Seq<u8>, Seq<u8>>::empty());
    }
    match parse_head(text, 0, eol) {
        Ok(Some((_, _, at))) => {
            if at < eol && text[at] == SINGLE_QUOTE {
                if ended {
                    ParseState::Done
                } else {
                    match expand_value(text, at + 1, eol, Quoting::Single, &none, &none) {
                        Ok(_) => ParseState::Done,
                        Err(_) => ParseState::InSingleQuoted,
                    }
                }
            } else if at < eol && text[at] == DOUBLE_QUOTE {
                match expand_value(text, at + 1, len, Quoting::Double, &none, &none) {
                    Err(ParseErrorKind::UnterminatedQuote) => if ended {
                        ParseState::AwaitingContinuation
                    } else {
                        ParseState::InDoubleQuoted
                    },
                    _ => ParseState::Done,
                }
            } else if ended {
                ParseState::Done
            } else {
                ParseState::InUnquotedValue
            }
        },
        _ => if ended {
            ParseState::Done
        } else {
            ParseState::Start
        },
    }
}

/// Finds where the logical line that begins at `start` ends, which is where
/// the next one begins: behind the line feed of its last physical line, or
/// at the end of the text. The values of the environment have no part in it.
pub fn logical_line_end(buf: &[u8], start: usize) -> (r: usize)
    requires
        start <= buf@.len(),
    ensures
        forall|look: Map<Seq<u8>, Seq<u8>>| r == #[trigger] statement_end(buf@, start as int, look),
        start <= r <= buf@.len(),
        start < buf@.len() ==> start < r,
{
    let none = Env::new();
    let next = parse_statement(buf, start, &none, &none).1;
    proof {
        assert forall|look: Map<Seq<u8>, Seq<u8>>| next == #[trigger] statement_end(
            buf@,
            start as int,
            look,
        ) by {
            lemma_statement_alike(buf@, start as int, overlay(none@, none@), look);
        }
    }
    next
}

} // verus!
