//! The entry parser: reads one statement of the configuration text.

use vstd::prelude::*;
use vstd::slice::slice_subrange;
use crate::bytes::copy_range;
use crate::chars::{
    BACKSLASH, ByteClass, CLOSE_BRACE, DOLLAR, DOUBLE_QUOTE, EQUALS, HASH, NEWLINE, OPEN_BRACE,
    SINGLE_QUOTE,
};
use crate::env::{Env, ParsedEntry};
use crate::errors::ParseErrorKind;
use crate::grammar::{
    Expansion, Head, Outcome, Quoting, closes, comment_start, emit, escape, expand, export_word,
    has_export, head, is_reference, name_end, name_start, overlay, reference_end,
    reference_name, resolve, statement, statement_end,
};
use crate::scan::{scan_run, scan_trim_end};

verus! {

/// What one logical line holds.
#[derive(Clone, Debug, PartialEq, Eq)]
pub enum ParsedLine {
    /// Nothing: the line is empty or a comment.
    EmptyOrComment,
    /// A key and its value.
    Entry(ParsedEntry),
    /// The line is malformed; the number is that of the line.
    ParseError(ParseErrorKind, usize),
}

impl View for ParsedLine {
    type V = Outcome;

    open spec fn view(&self) -> Outcome {
        match self {
            ParsedLine::EmptyOrComment => Outcome::Blank,
            ParsedLine::Entry(entry) => Outcome::Pair { key: entry.key@, value: entry.value@ },
            ParsedLine::ParseError(kind, _) => Outcome::Bad(*kind),
        }
    }
}

/// Looks `name` up in `defs`, and in `env` where `defs` does not hold it.
pub fn lookup<'a>(defs: &'a Env, env: &'a Env, name: &[u8]) -> (r: Option<&'a Vec<u8>>)
    ensures
        match r {
            Some(v) => overlay(env@, defs@).contains_key(name@) && v@ == overlay(
                env@,
                defs@,
            )[name@],
            None => !overlay(env@, defs@).contains_key(name@),
        },
{
    match defs.get(name) {
        Some(v) => Some(v),
        None => env.get(name),
    }
}

/// Tells whether the keyword `export` stands at `a`, with a blank behind it.
fn export_at(buf: &[u8], a: usize, end: usize) -> (r: bool)
    requires
        a <= end <= buf@.len(),
    ensures
        r == has_export(buf@, a as int, end as int),
{
    if end - a <= 6 {
        return false;
    }
    let word = buf[a] == 0x65 && buf[a + 1] == 0x78 && buf[a + 2] == 0x70 && buf[a + 3] == 0x6F
        && buf[a + 4] == 0x72 && buf[a + 5] == 0x74;
    proof {
        let sub = buf@.subrange(a as int, a + 6);
        assert(sub[0] == buf@[a as int]);
        assert(sub[1] == buf@[a + 1]);
        assert(sub[2] == buf@[a + 2]);
        assert(sub[3] == buf@[a + 3]);
        assert(sub[4] == buf@[a + 4]);
        assert(sub[5] == buf@[a + 5]);
        if word {
            assert(sub =~= export_word());
        }
    }
    word && ByteClass::Blank.contains(buf[a + 6])
}

/// Reads the statement at `start` up to its value: `Ok(None)` for a blank
/// line or a comment, else the bounds of the key and the start of the value.
pub fn parse_head(buf: &[u8], start: usize, end: usize) -> (r: Result<
    Option<(usize, usize, usize)>,
    ParseErrorKind,
>)
    requires
        start <= end <= buf@.len(),
    ensures
        match head(buf@, start as int, end as int) {
            Head::Blank => r == Ok::<Option<(usize, usize, usize)>, ParseErrorKind>(None),
            Head::Bad(kind) => r == Err::<Option<(usize, usize, usize)>, ParseErrorKind>(kind),
            Head::Value { key_start, key_end, at } => r == Ok::<
                Option<(usize, usize, usize)>,
                ParseErrorKind,
            >(Some((key_start as usize, key_end as usize, at as usize))) && start <= key_start
                < key_end < at <= end,
        },
{
    let a = scan_run(buf, start, end, ByteClass::Blank);
    if a >= end || buf[a] == HASH {
        return Ok(None);
    }
    let k = if export_at(buf, a, end) {
        scan_run(buf, a + 7, end, ByteClass::Blank)
    } else {
        a
    };
    let ke = scan_run(buf, k, end, ByteClass::Ident);
    if ke == k {
        return Err(ParseErrorKind::InvalidKey);
    }
    let e = scan_run(buf, ke, end, ByteClass::Blank);
    if e >= end || buf[e] != EQUALS {
        return Err(ParseErrorKind::MissingEquals);
    }
    let at = scan_run(buf, e + 1, end, ByteClass::Blank);
    Ok(Some((k, ke, at)))
}

/// Reads the reference that may stand at `i`: the bounds of its name and the
/// position behind it, or `None` where the `$` at `i` starts no reference.
fn parse_reference(buf: &[u8], i: usize, end: usize) -> (r: Option<(usize, usize, usize)>)
    requires
        i < end <= buf@.len(),
        buf@[i as int] == DOLLAR,
    ensures
        match r {
            Some((lo, hi, next)) => {
                &&& is_reference(buf@, i as int, end as int)
                &&& lo == name_start(buf@, i as int, end as int)
                &&& hi == name_end(buf@, i as int, end as int)
                &&& next == reference_end(buf@, i as int, end as int)
                &&& i < lo < hi <= next <= end
            },
            None => !is_reference(buf@, i as int, end as int),
        },
{
    let braced = end - i > 1 && buf[i + 1] == OPEN_BRACE;
    let lo = if braced {
        i + 2
    } else {
        i + 1
    };
    let hi = scan_run(buf, lo, end, ByteClass::Ident);
    if hi == lo {
        None
    } else if braced {
        if hi < end && buf[hi] == CLOSE_BRACE {
            Some((lo, hi, hi + 1))
        } else {
            None
        }
    } else {
        Some((lo, hi, hi))
    }
}

/// The byte that a backslash before `b` stands for, if the pair is an escape.
fn escape_of(quoting: Quoting, b: u8) -> (r: Option<u8>)
    ensures
        r == escape(quoting, b),
{
    match quoting {
        Quoting::Single => if b == SINGLE_QUOTE {
            Some(b)
        } else {
            None
        },
        Quoting::Double => if b == 0x6E {
            Some(NEWLINE)
        } else if b == 0x74 {
            Some(0x09u8)
        } else if b == DOUBLE_QUOTE || b == BACKSLASH || b == DOLLAR {
            Some(b)
        } else {
            None
        },
        Quoting::Bare => if b == HASH || b == BACKSLASH || b == DOLLAR {
            Some(b)
        } else {
            None
        },
    }
}

/// Tells whether `b` closes a value.
fn closes_value(quoting: Quoting, b: u8) -> (r: bool)
    ensures
        r == closes(quoting, b),
{
    match quoting {
        Quoting::Single => b == SINGLE_QUOTE,
        Quoting::Double => b == DOUBLE_QUOTE,
        Quoting::Bare => false,
    }
}

/// Putting two prefixes before a value one after the other is putting their
/// concatenation before it.
proof fn lemma_emit_twice(a: Seq<u8>, b: Seq<u8>, e: Expansion)
    ensures
        emit(a, emit(b, e)) == emit(a + b, e),
{
    match e {
        Expansion::Done { value, stop } => {
            assert(a + (b + value) =~= (a + b) + value);
        },
        Expansion::Bad(kind) => {},
    }
}

/// Reads a value from `i` on, in text that ends at `end`: the value and the
/// position at which reading stopped.
pub fn expand_value(
    buf: &[u8],
    start: usize,
    end: usize,
    quoting: Quoting,
    defs: &Env,
    env: &Env,
) -> (r: Result<(Vec<u8>, usize), ParseErrorKind>)
    requires
        start <= end <= buf@.len(),
    ensures
        match expand(buf@, start as int, end as int, quoting, overlay(env@, defs@)) {
            Expansion::Done { value, stop } => r matches Ok((v, p)) && v@ == value && p == stop
                && start <= stop <= end && (quoting != Quoting::Bare ==> stop < end),
            Expansion::Bad(kind) => r == Err::<(Vec<u8>, usize), ParseErrorKind>(kind),
        },
{
    let ghost s = buf@;
    let ghost look = overlay(env@, defs@);
    let ghost whole = expand(s, start as int, end as int, quoting, look);
    let mut out: Vec<u8> = Vec::new();
    let mut i: usize = start;
    proof {
        lemma_emit_twice(Seq::empty(), Seq::empty(), whole);
        assert(out@ + Seq::<u8>::empty() =~= out@);
        match whole {
            Expansion::Done { value, stop } => {
                assert(Seq::<u8>::empty() + value =~= value);
            },
            Expansion::Bad(kind) => {},
        }
    }
    loop
        invariant
            s == buf@,
            look == overlay(env@, defs@),
            whole == expand(s, start as int, end as int, quoting, look),
            start <= i <= end <= s.len(),
            whole == emit(out@, expand(s, i as int, end as int, quoting, look)),
        decreases end - i,
    {
        let ghost rest = expand(s, i as int, end as int, quoting, look);
        if i >= end {
            proof {
                assert(out@ + Seq::<u8>::empty() =~= out@);
            }
            return match quoting {
                Quoting::Bare => Ok((out, i)),
                _ => Err(ParseErrorKind::UnterminatedQuote),
            };
        }
        let b = buf[i];
        if closes_value(quoting, b) {
            proof {
                assert(out@ + Seq::<u8>::empty() =~= out@);
            }
            return Ok((out, i));
        }
        let ghost before = out@;
        if b == BACKSLASH {
            let escaped = if end - i > 1 {
                escape_of(quoting, buf[i + 1])
            } else {
                None
            };
            match escaped {
                Some(e) => {
                    out.push(e);
                    proof {
                        lemma_emit_twice(
                            before,
                            seq![e],
                            expand(s, i + 2, end as int, quoting, look),
                        );
                        assert(before + seq![e] =~= out@);
                    }
                    i += 2;
                },
                None => {
                    match quoting {
                        Quoting::Single => {
                            out.push(b);
                            proof {
                                lemma_emit_twice(
                                    before,
                                    seq![b],
                                    expand(s, i + 1, end as int, quoting, look),
                                );
                                assert(before + seq![b] =~= out@);
                            }
                            i += 1;
                        },
                        Quoting::Double => {
                            if end - i > 1 {
                                return Err(ParseErrorKind::BadEscape);
                            } else {
                                return Err(ParseErrorKind::UnterminatedQuote);
                            }
                        },
                        Quoting::Bare => {
                            return Err(ParseErrorKind::BadEscape);
                        },
                    }
                },
            }
        } else {
            let reference = if b == DOLLAR {
                match quoting {
                    Quoting::Single => None,
                    _ => parse_reference(buf, i, end),
                }
            } else {
                None
            };
            match reference {
                Some((lo, hi, next)) => {
                    let name = slice_subrange(buf, lo, hi);
                    let ghost found = resolve(look, reference_name(s, i as int, end as int));
                    match lookup(defs, env, name) {
                        Some(v) => {
                            out.extend_from_slice(v.as_slice());
                        },
                        None => {
                            proof {
                                assert(before + Seq::<u8>::empty() =~= before);
                            }
                        },
                    }
                    proof {
                        assert(name@ == reference_name(s, i as int, end as int));
                        assert(out@ == before + found);
                        lemma_emit_twice(
                            before,
                            found,
                            expand(s, next as int, end as int, quoting, look),
                        );
                    }
                    i = next;
                },
                None => {
                    out.push(b);
                    proof {
                        lemma_emit_twice(
                            before,
                            seq![b],
                            expand(s, i + 1, end as int, quoting, look),
                        );
                        assert(before + seq![b] =~= out@);
                    }
                    i += 1;
                },
            }
        }
    }
}

/// Finds where the comment behind a bare value starts.
pub fn find_comment(buf: &[u8], start: usize, end: usize) -> (r: usize)
    requires
        start <= end <= buf@.len(),
    ensures
        r == comment_start(buf@, start as int, end as int),
        start <= r <= end,
{
    let mut i: usize = start;
    while i < end && buf[i] != HASH
        invariant
            start <= i <= end <= buf@.len(),
            comment_start(buf@, start as int, end as int) == comment_start(
                buf@,
                i as int,
                end as int,
            ),
        decreases end - i,
    {
        if buf[i] == BACKSLASH && end - i > 1 {
            i += 2;
        } else {
            i += 1;
        }
    }
    i
}

/// Whether `r` is what `outcome` says.
pub open spec fn says(outcome: Outcome, r: Result<Option<ParsedEntry>, ParseErrorKind>) -> bool {
    match outcome {
        Outcome::Blank => r == Ok::<Option<ParsedEntry>, ParseErrorKind>(None),
        Outcome::Pair { key, value } => r matches Ok(Some(entry)) && entry@ == (key, value),
        Outcome::Bad(kind) => r == Err::<Option<ParsedEntry>, ParseErrorKind>(kind),
    }
}

/// Reads the statement that begins at `start`: what it says, with `Ok(None)`
/// for a blank line or a comment, and where the next statement begins.
/// References see the values of `defs`, and those of `env` for the keys that
/// `defs` does not hold.
pub fn parse_statement(buf: &[u8], start: usize, defs: &Env, env: &Env) -> (r: (
    Result<Option<ParsedEntry>, ParseErrorKind>,
    usize,
))
    requires
        start <= buf@.len(),
    ensures
        says(statement(buf@, start as int, overlay(env@, defs@)), r.0),
        r.1 == statement_end(buf@, start as int, overlay(env@, defs@)),
        start <= r.1 <= buf@.len(),
        start < buf@.len() ==> start < r.1,
{
    let len = buf.len();
    let eol = scan_run(buf, start, len, ByteClass::Text);
    let next = if eol < len {
        eol + 1
    } else {
        eol
    };
    match parse_head(buf, start, eol) {
        Ok(None) => (Ok(None), next),
        Err(kind) => (Err(kind), next),
        Ok(Some((key_lo, key_hi, at))) => {
            let quoting = if at < eol && buf[at] == SINGLE_QUOTE {
                Quoting::Single
            } else if at < eol && buf[at] == DOUBLE_QUOTE {
                Quoting::Double
            } else {
                Quoting::Bare
            };
            let expanded = match quoting {
                Quoting::Single => expand_value(buf, at + 1, eol, quoting, defs, env),
                Quoting::Double => expand_value(buf, at + 1, len, quoting, defs, env),
                Quoting::Bare => {
                    let hash = find_comment(buf, at, eol);
                    let cut = scan_trim_end(buf, at, hash);
                    expand_value(buf, at, cut, quoting, defs, env)
                },
            };
            match expanded {
                Err(kind) => (Err(kind), next),
                Ok((value, stop)) => {
                    let key = copy_range(buf, key_lo, key_hi);
                    let entry = Ok(Some(ParsedEntry { key, value }));
                    match quoting {
                        Quoting::Double => {
                            let close_eol = scan_run(buf, stop + 1, len, ByteClass::Text);
                            let after = if close_eol < len {
                                close_eol + 1
                            } else {
                                close_eol
                            };
                            (entry, after)
                        },
                        _ => (entry, next),
                    }
                },
            }
        },
    }
}

/// Reads `line` as one statement; `number` is the number of the line, which
/// a failure carries. A line feed in `line` ends the statement unless it
/// stands inside a double-quoted value.
pub fn parse_line(line: &[u8], number: usize, defs: &Env, env: &Env) -> (r: ParsedLine)
    ensures
        r@ == statement(line@, 0, overlay(env@, defs@)),
        r matches ParsedLine::ParseError(_, n) ==> n == number,
{
    match parse_statement(line, 0, defs, env).0 {
        Ok(None) => ParsedLine::EmptyOrComment,
        Ok(Some(entry)) => ParsedLine::Entry(entry),
        Err(kind) => ParsedLine::ParseError(kind, number),
    }
}

} // verus!
