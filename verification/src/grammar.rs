//! The grammar of the configuration text, as functions on byte sequences.
//!
//! A statement is one logical line: blanks, an optional `export` keyword, a
//! key, `=`, and a value that is bare, single-quoted or double-quoted. Only a
//! double-quoted value may run over several physical lines.

use vstd::prelude::*;
use crate::chars::{
    BACKSLASH, ByteClass, CLOSE_BRACE, DOLLAR, DOUBLE_QUOTE, EQUALS, HASH, NEWLINE, OPEN_BRACE,
    SINGLE_QUOTE, is_blank,
};
use crate::errors::ParseErrorKind;
use crate::scan::{after_line, ident_end, lemma_run_end, line_end, skip_blanks, trim_end};

verus! {

/// How a value is written.
#[derive(Clone, Copy, Debug, PartialEq, Eq, Structural)]
pub enum Quoting {
    /// Not quoted: escapes and references are processed, a `#` starts a
    /// comment, trailing blanks are dropped.
    Bare,
    /// Between `'`: taken literally.
    Single,
    /// Between `"`: escapes and references are processed.
    Double,
}

/// The result of reading a value.
pub enum Expansion {
    /// The value, and the position at which reading stopped: that of the
    /// closing quote, or the end of a bare value.
    Done { value: Seq<u8>, stop: int },
    /// The value is malformed.
    Bad(ParseErrorKind),
}

/// The result of reading a statement up to its value.
pub enum Head {
    /// Nothing but blanks, or a comment.
    Blank,
    /// No key, or no `=` behind it.
    Bad(ParseErrorKind),
    /// The key is `s[key_start..key_end]` and the value begins at `at`.
    Value { key_start: int, key_end: int, at: int },
}

/// What a statement says.
pub enum Outcome {
    /// Nothing: an empty line or a comment.
    Blank,
    /// A key and its value.
    Pair { key: Seq<u8>, value: Seq<u8> },
    /// The statement is malformed.
    Bad(ParseErrorKind),
}

/// The keyword that may stand before a key.
pub open spec fn export_word() -> Seq<u8> {
    seq![0x65u8, 0x78u8, 0x70u8, 0x6Fu8, 0x72u8, 0x74u8]
}

/// Whether the keyword stands at `a`, with at least one blank behind it.
pub open spec fn has_export(s: Seq<u8>, a: int, end: int) -> bool {
    &&& 0 <= a
    &&& a + 6 < end <= s.len()
    &&& s.subrange(a, a + 6) == export_word()
    &&& is_blank(s[a + 6])
}

/// Where the key of the statement at `start` begins: behind the leading
/// blanks, and behind the keyword and its blanks where it is there.
pub open spec fn key_start(s: Seq<u8>, start: int, end: int) -> int {
    let a = skip_blanks(s, start, end);
    if has_export(s, a, end) {
        skip_blanks(s, a + 7, end)
    } else {
        a
    }
}

/// Reads the statement at `start` up to its value, on the physical line that
/// ends at `end`.
pub open spec fn head(s: Seq<u8>, start: int, end: int) -> Head {
    let a = skip_blanks(s, start, end);
    let k = key_start(s, start, end);
    let ke = ident_end(s, k, end);
    let e = skip_blanks(s, ke, end);
    if a >= end || s[a] == HASH {
        Head::Blank
    } else if ke == k {
        Head::Bad(ParseErrorKind::InvalidKey)
    } else if e >= end || s[e] != EQUALS {
        Head::Bad(ParseErrorKind::MissingEquals)
    } else {
        Head::Value { key_start: k, key_end: ke, at: skip_blanks(s, e + 1, end) }
    }
}

/// Whether the `$` at `i` is followed by `{`.
pub open spec fn is_braced(s: Seq<u8>, i: int, end: int) -> bool {
    0 <= i && i + 1 < end <= s.len() && s[i + 1] == OPEN_BRACE
}

/// Where the name of the reference at `i` begins.
pub open spec fn name_start(s: Seq<u8>, i: int, end: int) -> int {
    if is_braced(s, i, end) {
        i + 2
    } else {
        i + 1
    }
}

/// Where the name of the reference at `i` ends.
pub open spec fn name_end(s: Seq<u8>, i: int, end: int) -> int {
    ident_end(s, name_start(s, i, end), end)
}

/// Whether a reference stands at `i`: `$NAME` or `${NAME}`, with a name that
/// is not empty. A `$` that starts neither is an ordinary byte.
pub open spec fn is_reference(s: Seq<u8>, i: int, end: int) -> bool {
    &&& 0 <= i < end <= s.len()
    &&& s[i] == DOLLAR
    &&& name_start(s, i, end) < name_end(s, i, end)
    &&& is_braced(s, i, end) ==> name_end(s, i, end) < end && s[name_end(s, i, end)]
        == CLOSE_BRACE
}

/// The position behind the reference at `i`.
pub open spec fn reference_end(s: Seq<u8>, i: int, end: int) -> int {
    if is_braced(s, i, end) {
        name_end(s, i, end) + 1
    } else {
        name_end(s, i, end)
    }
}

/// The name of the reference at `i`.
pub open spec fn reference_name(s: Seq<u8>, i: int, end: int) -> Seq<u8> {
    s.subrange(name_start(s, i, end), name_end(s, i, end))
}

/// What a reference to `name` stands for: its value, or nothing where it has
/// none.
pub open spec fn resolve(look: Map<Seq<u8>, Seq<u8>>, name: Seq<u8>) -> Seq<u8> {
    if look.contains_key(name) {
        look[name]
    } else {
        Seq::empty()
    }
}

/// The values that references see: those of `defs`, and those of `env` for
/// the keys that `defs` does not hold.
pub open spec fn overlay(env: Map<Seq<u8>, Seq<u8>>, defs: Map<Seq<u8>, Seq<u8>>) -> Map<
    Seq<u8>,
    Seq<u8>,
> {
    Map::new(
        |k: Seq<u8>| defs.contains_key(k) || env.contains_key(k),
        |k: Seq<u8>|
            if defs.contains_key(k) {
                defs[k]
            } else {
                env[k]
            },
    )
}

/// The byte that a backslash before `b` stands for, if the pair is an
/// escape. In a single-quoted value only the quote can be escaped; in a
/// double-quoted value `\n`, `\t`, `\"`, `\\` and `\$` are escapes; in a bare
/// value `\#`, `\\` and `\$` are.
pub open spec fn escape(quoting: Quoting, b: u8) -> Option<u8> {
    match quoting {
        Quoting::Single => if b == SINGLE_QUOTE {
            Some(b)
        } else {
            None
        },
        Quoting::Double => if b == 0x6E {
            Some(NEWLINE)
        } else if b == 0x74 {
            Some(0x09u8)
        } else if b == DOUBLE_QUOTE || b == BACKSLASH || b == DOLLAR {
            Some(b)
        } else {
            None
        },
        Quoting::Bare => if b == HASH || b == BACKSLASH || b == DOLLAR {
            Some(b)
        } else {
            None
        },
    }
}

/// Whether `b` closes a value.
pub open spec fn closes(quoting: Quoting, b: u8) -> bool {
    match quoting {
        Quoting::Single => b == SINGLE_QUOTE,
        Quoting::Double => b == DOUBLE_QUOTE,
        Quoting::Bare => false,
    }
}

/// `e` with `prefix` before its value.
pub open spec fn emit(prefix: Seq<u8>, e: Expansion) -> Expansion {
    match e {
        Expansion::Done { value, stop } => Expansion::Done { value: prefix + value, stop },
        Expansion::Bad(kind) => Expansion::Bad(kind),
    }
}

/// Reads a value from `i` on, in text that ends at `end`.
///
/// A quoted value ends at its closing quote and is unterminated where the
/// text ends first; a bare value ends with the text. A backslash and the byte
/// behind it stand for one byte where they are an escape. Where they are not,
/// a single-quoted value keeps the backslash as it is and the other two are
/// malformed. A reference stands for what `look` holds under its name, and
/// what it stands for is not read again. Every other byte stands for itself.
pub open spec fn expand(
    s: Seq<u8>,
    i: int,
    end: int,
    quoting: Quoting,
    look: Map<Seq<u8>, Seq<u8>>,
) -> Expansion
    decreases end - i,
    via expand_decreases
{
    if !(0 <= i < end <= s.len()) {
        if quoting == Quoting::Bare {
            Expansion::Done { value: Seq::empty(), stop: i }
        } else {
            Expansion::Bad(ParseErrorKind::UnterminatedQuote)
        }
    } else if closes(quoting, s[i]) {
        Expansion::Done { value: Seq::empty(), stop: i }
    } else if s[i] == BACKSLASH {
        if i + 1 < end && escape(quoting, s[i + 1]) is Some {
            emit(seq![escape(quoting, s[i + 1])->0], expand(s, i + 2, end, quoting, look))
        } else if quoting == Quoting::Single {
            emit(seq![s[i]], expand(s, i + 1, end, quoting, look))
        } else if quoting == Quoting::Double && i + 1 >= end {
            Expansion::Bad(ParseErrorKind::UnterminatedQuote)
        } else {
            Expansion::Bad(ParseErrorKind::BadEscape)
        }
    } else if quoting != Quoting::Single && is_reference(s, i, end) {
        emit(
            resolve(look, reference_name(s, i, end)),
            expand(s, reference_end(s, i, end), end, quoting, look),
        )
    } else {
        emit(seq![s[i]], expand(s, i + 1, end, quoting, look))
    }
}

#[via_fn]
proof fn expand_decreases(
    s: Seq<u8>,
    i: int,
    end: int,
    quoting: Quoting,
    look: Map<Seq<u8>, Seq<u8>>,
) {
    if 0 <= i < end <= s.len() && is_reference(s, i, end) {
        lemma_run_end(s, name_start(s, i, end), end, ByteClass::Ident);
    }
}

/// Where the comment behind a bare value starts: at the first `#` that no
/// backslash stands before, or at `end`.
pub open spec fn comment_start(s: Seq<u8>, i: int, end: int) -> int
    decreases end - i,
{
    if !(0 <= i < end <= s.len()) {
        i
    } else if s[i] == HASH {
        i
    } else if s[i] == BACKSLASH && i + 1 < end {
        comment_start(s, i + 2, end)
    } else {
        comment_start(s, i + 1, end)
    }
}

/// How the value that begins at `at` is written.
pub open spec fn quoting_at(s: Seq<u8>, at: int, eol: int) -> Quoting {
    if 0 <= at < eol <= s.len() && s[at] == SINGLE_QUOTE {
        Quoting::Single
    } else if 0 <= at < eol <= s.len() && s[at] == DOUBLE_QUOTE {
        Quoting::Double
    } else {
        Quoting::Bare
    }
}

/// Reads the value that begins at `at`, on the physical line that ends at
/// `eol`. A single-quoted value must close on that line; a double-quoted one
/// may close on a later line; a bare one ends before its comment and its
/// trailing blanks.
pub open spec fn value_at(s: Seq<u8>, at: int, eol: int, look: Map<Seq<u8>, Seq<u8>>) -> Expansion {
    match quoting_at(s, at, eol) {
        Quoting::Single => expand(s, at + 1, eol, Quoting::Single, look),
        Quoting::Double => expand(s, at + 1, s.len() as int, Quoting::Double, look),
        Quoting::Bare => expand(
            s,
            at,
            trim_end(s, at, comment_start(s, at, eol)),
            Quoting::Bare,
            look,
        ),
    }
}

/// What the statement that begins at `start` says. What stands behind a
/// closing quote on its line is not read.
pub open spec fn statement(s: Seq<u8>, start: int, look: Map<Seq<u8>, Seq<u8>>) -> Outcome {
    let eol = line_end(s, start);
    match head(s, start, eol) {
        Head::Blank => Outcome::Blank,
        Head::Bad(kind) => Outcome::Bad(kind),
        Head::Value { key_start, key_end, at } => match value_at(s, at, eol, look) {
            Expansion::Done { value, stop } => Outcome::Pair {
                key: s.subrange(key_start, key_end),
                value,
            },
            Expansion::Bad(kind) => Outcome::Bad(kind),
        },
    }
}

/// Where the statement behind the one at `start` begins: behind the physical
/// line on which this one ends, which for a double-quoted value is the line
/// of its closing quote.
pub open spec fn statement_end(s: Seq<u8>, start: int, look: Map<Seq<u8>, Seq<u8>>) -> int {
    let eol = line_end(s, start);
    match head(s, start, eol) {
        Head::Value { key_start, key_end, at } => match value_at(s, at, eol, look) {
            Expansion::Done { value, stop } => if quoting_at(s, at, eol) == Quoting::Double {
                after_line(s, line_end(s, stop + 1))
            } else {
                after_line(s, eol)
            },
            Expansion::Bad(kind) => after_line(s, eol),
        },
        _ => after_line(s, eol),
    }
}

/// The positions that the head of a statement names are in order.
pub proof fn lemma_head(s: Seq<u8>, start: int, end: int)
    requires
        0 <= start <= end <= s.len(),
    ensures
        match head(s, start, end) {
            Head::Value { key_start, key_end, at } => start <= key_start < key_end < at <= end,
            _ => true,
        },
{
    let a = skip_blanks(s, start, end);
    lemma_run_end(s, start, end, ByteClass::Blank);
    if has_export(s, a, end) {
        lemma_run_end(s, a + 7, end, ByteClass::Blank);
    }
    let k = key_start(s, start, end);
    lemma_run_end(s, k, end, ByteClass::Ident);
    let ke = ident_end(s, k, end);
    lemma_run_end(s, ke, end, ByteClass::Blank);
    let e = skip_blanks(s, ke, end);
    if e < end {
        lemma_run_end(s, e + 1, end, ByteClass::Blank);
    }
}

/// Reading stops between where it began and the end of the text, and a
/// quoted value stops before the end, at its closing quote.
pub proof fn lemma_expand_stop(
    s: Seq<u8>,
    i: int,
    end: int,
    quoting: Quoting,
    look: Map<Seq<u8>, Seq<u8>>,
)
    requires
        0 <= i <= end <= s.len(),
    ensures
        match expand(s, i, end, quoting, look) {
            Expansion::Done { value, stop } => i <= stop <= end && (quoting != Quoting::Bare
                ==> stop < end && closes(quoting, s[stop])),
            Expansion::Bad(kind) => true,
        },
    decreases end - i,
{
    if i < end && !closes(quoting, s[i]) {
        if s[i] == BACKSLASH {
            if i + 1 < end && escape(quoting, s[i + 1]) is Some {
                lemma_expand_stop(s, i + 2, end, quoting, look);
            } else if quoting == Quoting::Single {
                lemma_expand_stop(s, i + 1, end, quoting, look);
            }
        } else if quoting != Quoting::Single && is_reference(s, i, end) {
            lemma_run_end(s, name_start(s, i, end), end, ByteClass::Ident);
            lemma_expand_stop(s, reference_end(s, i, end), end, quoting, look);
        } else {
            lemma_expand_stop(s, i + 1, end, quoting, look);
        }
    }
}

/// The comment starts between the start of the value and the end of the
/// line.
pub proof fn lemma_comment_start(s: Seq<u8>, i: int, end: int)
    requires
        0 <= i <= end <= s.len(),
    ensures
        i <= comment_start(s, i, end) <= end,
    decreases end - i,
{
    if i < end && s[i] != HASH {
        if s[i] == BACKSLASH && i + 1 < end {
            lemma_comment_start(s, i + 2, end);
        } else {
            lemma_comment_start(s, i + 1, end);
        }
    }
}

/// The closing quote of a double-quoted value lies within the text.
pub proof fn lemma_double_stop(s: Seq<u8>, start: int, look: Map<Seq<u8>, Seq<u8>>)
    requires
        0 <= start < s.len(),
    ensures
        match head(s, start, line_end(s, start)) {
            Head::Value { key_start, key_end, at } => match value_at(
                s,
                at,
                line_end(s, start),
                look,
            ) {
                Expansion::Done { value, stop } => quoting_at(s, at, line_end(s, start))
                    == Quoting::Double ==> start < stop < s.len(),
                Expansion::Bad(kind) => true,
            },
            _ => true,
        },
{
    let eol = line_end(s, start);
    lemma_run_end(s, start, s.len() as int, ByteClass::Text);
    lemma_head(s, start, eol);
    match head(s, start, eol) {
        Head::Value { key_start, key_end, at } => {
            if quoting_at(s, at, eol) == Quoting::Double {
                lemma_expand_stop(s, at + 1, s.len() as int, Quoting::Double, look);
            }
        },
        _ => {},
    }
}

} // verus!
