//! The grammar is local: what a stretch of text says depends on that stretch
//! alone, not on where in the text it stands.

use vstd::prelude::*;
use crate::chars::{BACKSLASH, ByteClass, HASH, NEWLINE, is_blank};
use crate::errors::{Error, ParseErrorKind};
use crate::grammar::{
    Expansion, Head, Outcome, Quoting, closes, comment_start, escape, expand, has_export, head,
    is_braced, is_reference, key_start, lemma_comment_start, lemma_expand_stop, lemma_head,
    name_end, name_start, overlay, quoting_at, reference_end, reference_name, statement,
    statement_end,
};
use crate::iter::{
    Reading, lemma_next_stop, lemma_statement_end, line_number, newlines, next_stop, read_from,
};
use crate::scan::{
    after_line, ident_end, lemma_run_end, lemma_run_end_is, lemma_trim_end, line_end, run_end,
    skip_blanks, trim_end,
};

verus! {

/// Whether `t` holds, `d` places further on, what `s` holds between `i` and
/// `end`.
pub open spec fn same_window(s: Seq<u8>, t: Seq<u8>, d: int, i: int, end: int) -> bool {
    &&& 0 <= i <= end <= s.len()
    &&& 0 <= i + d
    &&& end + d <= t.len()
    &&& forall|j: int| i <= j < end ==> #[trigger] s[j] == t[j + d]
}

/// A reading of a value, `d` places further on.
pub open spec fn moved(e: Expansion, d: int) -> Expansion {
    match e {
        Expansion::Done { value, stop } => Expansion::Done { value, stop: stop + d },
        Expansion::Bad(kind) => Expansion::Bad(kind),
    }
}

/// The head of a statement, `d` places further on.
pub open spec fn moved_head(h: Head, d: int) -> Head {
    match h {
        Head::Value { key_start, key_end, at } => Head::Value {
            key_start: key_start + d,
            key_end: key_end + d,
            at: at + d,
        },
        other => other,
    }
}

/// A window within a window.
pub proof fn lemma_narrower(s: Seq<u8>, t: Seq<u8>, d: int, i: int, end: int, a: int, b: int)
    requires
        same_window(s, t, d, i, end),
        i <= a <= b <= end,
    ensures
        same_window(s, t, d, a, b),
{
}

/// A run in a window is the run in the text it was taken from.
pub proof fn lemma_run_end_local(
    s: Seq<u8>,
    t: Seq<u8>,
    d: int,
    i: int,
    end: int,
    class: ByteClass,
)
    requires
        same_window(s, t, d, i, end),
    ensures
        run_end(t, i + d, end + d, class) == run_end(s, i, end, class) + d,
    decreases end - i,
{
    if i < end {
        assert(s[i] == t[i + d]);
        if class.has(s[i]) {
            lemma_run_end_local(s, t, d, i + 1, end, class);
        }
    }
}

/// Trimming in a window is trimming in the text it was taken from.
pub proof fn lemma_trim_end_local(s: Seq<u8>, t: Seq<u8>, d: int, lo: int, hi: int)
    requires
        same_window(s, t, d, lo, hi),
    ensures
        trim_end(t, lo + d, hi + d) == trim_end(s, lo, hi) + d,
    decreases hi - lo,
{
    if lo < hi {
        assert(s[hi - 1] == t[hi - 1 + d]);
        if is_blank(s[hi - 1]) {
            lemma_trim_end_local(s, t, d, lo, hi - 1);
        }
    }
}

/// The comment in a window starts where it starts in the text the window
/// was taken from.
pub proof fn lemma_comment_start_local(s: Seq<u8>, t: Seq<u8>, d: int, i: int, end: int)
    requires
        same_window(s, t, d, i, end),
    ensures
        comment_start(t, i + d, end + d) == comment_start(s, i, end) + d,
    decreases end - i,
{
    if i < end {
        assert(s[i] == t[i + d]);
        if s[i] != HASH {
            if s[i] == BACKSLASH && i + 1 < end {
                lemma_comment_start_local(s, t, d, i + 2, end);
            } else {
                lemma_comment_start_local(s, t, d, i + 1, end);
            }
        }
    }
}

/// A reference in a window is the reference in the text it was taken from.
pub proof fn lemma_reference_local(s: Seq<u8>, t: Seq<u8>, d: int, i: int, end: int)
    requires
        same_window(s, t, d, i, end),
        i < end,
    ensures
        is_reference(t, i + d, end + d) == is_reference(s, i, end),
        name_start(t, i + d, end + d) == name_start(s, i, end) + d,
        name_end(t, i + d, end + d) == name_end(s, i, end) + d,
        reference_end(t, i + d, end + d) == reference_end(s, i, end) + d,
        i < name_start(s, i, end) <= name_end(s, i, end) <= end,
        is_reference(s, i, end) ==> reference_name(t, i + d, end + d) == reference_name(s, i, end),
{
    assert(s[i] == t[i + d]);
    if i + 1 < end {
        assert(s[i + 1] == t[i + 1 + d]);
    }
    assert(is_braced(t, i + d, end + d) == is_braced(s, i, end));
    let lo = name_start(s, i, end);
    lemma_run_end(s, lo, end, ByteClass::Ident);
    lemma_run_end_local(s, t, d, lo, end, ByteClass::Ident);
    let hi = name_end(s, i, end);
    if hi < end {
        assert(s[hi] == t[hi + d]);
    }
    if is_reference(s, i, end) {
        assert(t.subrange(lo + d, hi + d) =~= s.subrange(lo, hi)) by {
            assert forall|j: int| 0 <= j < hi - lo implies #[trigger] t.subrange(lo + d, hi + d)[j]
                == s.subrange(lo, hi)[j] by {
                assert(s[lo + j] == t[lo + j + d]);
            }
        }
    }
}

/// A value in a window is the value in the text it was taken from.
pub proof fn lemma_expand_local(
    s: Seq<u8>,
    t: Seq<u8>,
    d: int,
    i: int,
    end: int,
    quoting: Quoting,
    look: Map<Seq<u8>, Seq<u8>>,
)
    requires
        same_window(s, t, d, i, end),
    ensures
        expand(t, i + d, end + d, quoting, look) == moved(expand(s, i, end, quoting, look), d),
    decreases end - i,
{
    if i < end {
        assert(s[i] == t[i + d]);
        if !closes(quoting, s[i]) {
            if s[i] == BACKSLASH {
                if i + 1 < end {
                    assert(s[i + 1] == t[i + 1 + d]);
                }
                if i + 1 < end && escape(quoting, s[i + 1]) is Some {
                    lemma_expand_local(s, t, d, i + 2, end, quoting, look);
                } else if quoting == Quoting::Single {
                    lemma_expand_local(s, t, d, i + 1, end, quoting, look);
                }
            } else {
                lemma_reference_local(s, t, d, i, end);
                if quoting != Quoting::Single && is_reference(s, i, end) {
                    lemma_expand_local(s, t, d, reference_end(s, i, end), end, quoting, look);
                } else {
                    lemma_expand_local(s, t, d, i + 1, end, quoting, look);
                }
            }
        }
    }
}

/// The head of a statement in a window is its head in the text the window
/// was taken from.
pub proof fn lemma_head_local(s: Seq<u8>, t: Seq<u8>, d: int, start: int, end: int)
    requires
        same_window(s, t, d, start, end),
    ensures
        head(t, start + d, end + d) == moved_head(head(s, start, end), d),
{
    let a = skip_blanks(s, start, end);
    lemma_run_end(s, start, end, ByteClass::Blank);
    lemma_run_end_local(s, t, d, start, end, ByteClass::Blank);
    if a < end {
        assert(s[a] == t[a + d]);
    }
    if a + 6 < end {
        assert(s[a + 6] == t[a + 6 + d]);
        assert(t.subrange(a + d, a + d + 6) =~= s.subrange(a, a + 6)) by {
            assert forall|j: int| 0 <= j < 6 implies #[trigger] t.subrange(a + d, a + d + 6)[j]
                == s.subrange(a, a + 6)[j] by {
                assert(s[a + j] == t[a + j + d]);
            }
        }
        lemma_run_end(s, a + 7, end, ByteClass::Blank);
        lemma_run_end_local(s, t, d, a + 7, end, ByteClass::Blank);
    }
    assert(has_export(t, a + d, end + d) == has_export(s, a, end));
    let k = key_start(s, start, end);
    assert(key_start(t, start + d, end + d) == k + d);
    lemma_run_end(s, k, end, ByteClass::Ident);
    lemma_run_end_local(s, t, d, k, end, ByteClass::Ident);
    let ke = ident_end(s, k, end);
    lemma_run_end(s, ke, end, ByteClass::Blank);
    lemma_run_end_local(s, t, d, ke, end, ByteClass::Blank);
    let e = skip_blanks(s, ke, end);
    if e < end {
        assert(s[e] == t[e + d]);
        lemma_run_end_local(s, t, d, e + 1, end, ByteClass::Blank);
    }
}

/// A quoted value in which nothing closes and no backslash stands runs out
/// of text.
pub proof fn lemma_expand_runs_out(
    s: Seq<u8>,
    i: int,
    end: int,
    quoting: Quoting,
    look: Map<Seq<u8>, Seq<u8>>,
)
    requires
        0 <= i <= end <= s.len(),
        quoting != Quoting::Bare,
        forall|j: int| i <= j < end ==> !closes(quoting, #[trigger] s[j]) && s[j] != BACKSLASH,
    ensures
        expand(s, i, end, quoting, look) == Expansion::Bad(ParseErrorKind::UnterminatedQuote),
    decreases end - i,
{
    if i < end {
        assert(!closes(quoting, s[i]) && s[i] != BACKSLASH);
        if quoting != Quoting::Single && is_reference(s, i, end) {
            lemma_run_end(s, name_start(s, i, end), end, ByteClass::Ident);
            lemma_expand_runs_out(s, reference_end(s, i, end), end, quoting, look);
        } else {
            lemma_expand_runs_out(s, i + 1, end, quoting, look);
        }
    }
}

/// A quoted value that is closed, or malformed by an escape, stays what it
/// is when the text goes on behind it.
pub proof fn lemma_expand_extends(
    s: Seq<u8>,
    t: Seq<u8>,
    i: int,
    end: int,
    further: int,
    quoting: Quoting,
    look: Map<Seq<u8>, Seq<u8>>,
)
    requires
        same_window(s, t, 0, i, end),
        end <= further <= t.len(),
        quoting != Quoting::Bare,
        expand(s, i, end, quoting, look) != Expansion::Bad(ParseErrorKind::UnterminatedQuote),
    ensures
        expand(t, i, further, quoting, look) == expand(s, i, end, quoting, look),
    decreases end - i,
{
    if i < end {
        assert(s[i] == t[i + 0]);
        if !closes(quoting, s[i]) {
            if i + 1 < end {
                assert(s[i + 1] == t[i + 1 + 0]);
            }
            if s[i] == BACKSLASH {
                if i + 1 < end && escape(quoting, s[i + 1]) is Some {
                    lemma_expand_extends(s, t, i + 2, end, further, quoting, look);
                } else if quoting == Quoting::Single {
                    lemma_expand_extends(s, t, i + 1, end, further, quoting, look);
                }
            } else {
                let lo = name_start(s, i, end);
                let hi = name_end(s, i, end);
                if i + 1 < end {
                    lemma_run_end(s, lo, end, ByteClass::Ident);
                }
                if i + 1 == end || hi == end {
                    // The name, or the `$` itself, touches the end of the
                    // shorter text, which then runs out.
                    assert forall|j: int| i + 1 <= j < end implies !closes(quoting, #[trigger] s[j])
                        && s[j] != BACKSLASH by {
                        if j >= lo {
                            assert(ByteClass::Ident.has(s[j]));
                        }
                    }
                    lemma_expand_runs_out(s, i + 1, end, quoting, look);
                    if quoting != Quoting::Single && is_reference(s, i, end) {
                        lemma_expand_runs_out(s, end, end, quoting, look);
                    }
                } else {
                    assert(name_start(t, i, further) == lo);
                    assert forall|k: int| lo <= k < hi implies ByteClass::Ident.has(
                        #[trigger] t[k],
                    ) by {
                        assert(s[k] == t[k + 0]);
                        assert(ByteClass::Ident.has(s[k]));
                    }
                    assert(s[hi] == t[hi + 0]);
                    lemma_run_end_is(t, lo, hi, further, ByteClass::Ident);
                    assert(t.subrange(lo, hi) =~= s.subrange(lo, hi)) by {
                        assert forall|j: int| 0 <= j < hi - lo implies #[trigger] t.subrange(
                            lo,
                            hi,
                        )[j] == s.subrange(lo, hi)[j] by {
                            assert(s[lo + j] == t[lo + j + 0]);
                        }
                    }
                    if quoting != Quoting::Single && is_reference(s, i, end) {
                        lemma_expand_extends(
                            s,
                            t,
                            reference_end(s, i, end),
                            end,
                            further,
                            quoting,
                            look,
                        );
                    } else {
                        lemma_expand_extends(s, t, i + 1, end, further, quoting, look);
                    }
                }
            }
        }
    }
}

/// A statement says the same wherever it stands: what the statement at
/// `start + d` in `t` says is what the statement at `start` in `s` says,
/// where `t` holds from `d` on what `s` holds.
pub proof fn lemma_statement_local(
    s: Seq<u8>,
    t: Seq<u8>,
    d: int,
    start: int,
    look: Map<Seq<u8>, Seq<u8>>,
)
    requires
        same_window(s, t, d, start, s.len() as int),
        s.len() + d == t.len(),
    ensures
        statement(t, start + d, look) == statement(s, start, look),
        statement_end(t, start + d, look) == statement_end(s, start, look) + d,
{
    let len = s.len() as int;
    let eol = line_end(s, start);
    lemma_run_end(s, start, len, ByteClass::Text);
    lemma_run_end_local(s, t, d, start, len, ByteClass::Text);
    lemma_head_local(s, t, d, start, eol);
    lemma_head(s, start, eol);
    match head(s, start, eol) {
        Head::Value { key_start, key_end, at } => {
            assert(t.subrange(key_start + d, key_end + d) =~= s.subrange(key_start, key_end)) by {
                assert forall|j: int| 0 <= j < key_end - key_start implies #[trigger] t.subrange(
                    key_start + d,
                    key_end + d,
                )[j] == s.subrange(key_start, key_end)[j] by {
                    assert(s[key_start + j] == t[key_start + j + d]);
                }
            }
            if at < eol {
                assert(s[at] == t[at + d]);
            }
            assert(quoting_at(t, at + d, eol + d) == quoting_at(s, at, eol));
            match quoting_at(s, at, eol) {
                Quoting::Single => {
                    lemma_expand_local(s, t, d, at + 1, eol, Quoting::Single, look);
                },
                Quoting::Double => {
                    lemma_expand_local(s, t, d, at + 1, len, Quoting::Double, look);
                    lemma_expand_stop(s, at + 1, len, Quoting::Double, look);
                    match expand(s, at + 1, len, Quoting::Double, look) {
                        Expansion::Done { value, stop } => {
                            lemma_run_end_local(s, t, d, stop + 1, len, ByteClass::Text);
                        },
                        Expansion::Bad(kind) => {},
                    }
                },
                Quoting::Bare => {
                    let hash = comment_start(s, at, eol);
                    lemma_comment_start(s, at, eol);
                    lemma_comment_start_local(s, t, d, at, eol);
                    lemma_trim_end(s, at, hash);
                    lemma_trim_end_local(s, t, d, at, hash);
                    lemma_expand_local(s, t, d, at, trim_end(s, at, hash), Quoting::Bare, look);
                },
            }
        },
        _ => {},
    }
}

/// The first physical line of a text, as a text of its own.
pub open spec fn first_line(t: Seq<u8>) -> Seq<u8> {
    t.subrange(0, line_end(t, 0))
}

/// The text behind the first physical line, as a text of its own.
pub open spec fn later_lines(t: Seq<u8>) -> Seq<u8> {
    t.subrange(after_line(t, line_end(t, 0)), t.len() as int)
}

/// A statement that is whole on the first line of a text is what that line
/// says by itself, and the next statement begins on the second line. Only a
/// double-quoted value that the line does not close reads on.
pub proof fn lemma_statement_on_first_line(t: Seq<u8>, look: Map<Seq<u8>, Seq<u8>>)
    requires
        statement(first_line(t), 0, look) != Outcome::Bad(ParseErrorKind::UnterminatedQuote),
    ensures
        statement(t, 0, look) == statement(first_line(t), 0, look),
        statement_end(t, 0, look) == after_line(t, line_end(t, 0)),
{
    let s = first_line(t);
    let e = line_end(t, 0);
    let len = t.len() as int;
    lemma_run_end(t, 0, len, ByteClass::Text);
    assert(same_window(s, t, 0, 0, e));
    assert forall|k: int| 0 <= k < e implies ByteClass::Text.has(#[trigger] s[k]) by {
        assert(s[k] == t[k + 0]);
    }
    lemma_run_end_is(s, 0, e, e, ByteClass::Text);
    lemma_head_local(s, t, 0, 0, e);
    lemma_head(s, 0, e);
    match head(s, 0, e) {
        Head::Value { key_start, key_end, at } => {
            assert(t.subrange(key_start, key_end) =~= s.subrange(key_start, key_end));
            if at < e {
                assert(s[at] == t[at + 0]);
            }
            assert(quoting_at(t, at, e) == quoting_at(s, at, e));
            match quoting_at(s, at, e) {
                Quoting::Single => {
                    lemma_expand_local(s, t, 0, at + 1, e, Quoting::Single, look);
                },
                Quoting::Double => {
                    lemma_expand_extends(s, t, at + 1, e, len, Quoting::Double, look);
                    lemma_expand_stop(s, at + 1, e, Quoting::Double, look);
                    match expand(s, at + 1, e, Quoting::Double, look) {
                        Expansion::Done { value, stop } => {
                            lemma_run_end_is(t, stop + 1, e, len, ByteClass::Text);
                        },
                        Expansion::Bad(kind) => {},
                    }
                },
                Quoting::Bare => {
                    let hash = comment_start(s, at, e);
                    lemma_comment_start(s, at, e);
                    lemma_comment_start_local(s, t, 0, at, e);
                    lemma_trim_end(s, at, hash);
                    lemma_trim_end_local(s, t, 0, at, hash);
                    lemma_expand_local(s, t, 0, at, trim_end(s, at, hash), Quoting::Bare, look);
                },
            }
        },
        _ => {},
    }
}

/// A reading whose failure lies `lines` lines further down.
pub open spec fn later(r: Reading, lines: nat) -> Reading {
    Reading {
        entries: r.entries,
        failure: match r.failure {
            Some(Error::Parse { kind, line }) => Some(
                Error::Parse { kind, line: (line + lines) as usize },
            ),
            other => other,
        },
    }
}

/// The text from `d` on, as a text of its own.
pub open spec fn rest_from(t: Seq<u8>, d: int) -> Seq<u8> {
    t.subrange(d, t.len() as int)
}

/// The line feeds of two adjoining stretches add up.
pub proof fn lemma_newlines_add(t: Seq<u8>, a: int, b: int, c: int)
    requires
        0 <= a <= b <= c <= t.len(),
    ensures
        newlines(t, a, c) == newlines(t, a, b) + newlines(t, b, c),
    decreases c - b,
{
    if b < c {
        lemma_newlines_add(t, a, b, c - 1);
    }
}

/// The line feeds of a stretch are those of the stretch taken by itself.
pub proof fn lemma_newlines_local(t: Seq<u8>, d: int, hi: int)
    requires
        0 <= d <= t.len(),
        0 <= hi <= t.len() - d,
    ensures
        newlines(t, d, d + hi) == newlines(rest_from(t, d), 0, hi),
        newlines(t, d, d + hi) <= hi,
    decreases hi,
{
    if hi > 0 {
        lemma_newlines_local(t, d, hi - 1);
        assert(rest_from(t, d)[hi - 1] == t[d + hi - 1]);
    }
}

/// The next statement that is not blank stands where it stands in the rest
/// of the text taken by itself.
pub proof fn lemma_next_stop_local(t: Seq<u8>, d: int, i: int, look: Map<Seq<u8>, Seq<u8>>)
    requires
        0 <= d <= t.len(),
        0 <= i <= t.len() - d,
    ensures
        next_stop(t, d + i, look) == next_stop(rest_from(t, d), i, look) + d,
    decreases t.len() - d - i,
{
    let s = rest_from(t, d);
    if i < s.len() {
        assert(same_window(s, t, d, i, s.len() as int));
        lemma_statement_local(s, t, d, i, look);
        if statement(s, i, look) is Blank {
            lemma_statement_end(s, i, look);
            lemma_next_stop_local(t, d, statement_end(s, i, look), look);
        }
    }
}

/// Reading is local: reading a text from `d + i` on gives what reading its
/// rest from `i` on gives, with the lines before `d` counted on.
pub proof fn lemma_read_local(
    t: Seq<u8>,
    d: int,
    i: int,
    defs: Map<Seq<u8>, Seq<u8>>,
    env: Map<Seq<u8>, Seq<u8>>,
)
    requires
        0 <= d <= t.len() <= usize::MAX,
        0 <= i <= t.len() - d,
    ensures
        read_from(t, d + i, defs, env) == later(
            read_from(rest_from(t, d), i, defs, env),
            newlines(t, 0, d),
        ),
    decreases t.len() - d - i,
{
    let s = rest_from(t, d);
    let look = overlay(env, defs);
    lemma_next_stop_local(t, d, i, look);
    lemma_next_stop(s, i, look);
    let at = next_stop(s, i, look);
    if at < s.len() {
        assert(same_window(s, t, d, at, s.len() as int));
        lemma_statement_local(s, t, d, at, look);
        lemma_statement_end(s, at, look);
        match statement(s, at, look) {
            Outcome::Pair { key, value } => {
                lemma_read_local(t, d, statement_end(s, at, look), defs.insert(key, value), env);
            },
            Outcome::Bad(kind) => {
                lemma_newlines_add(t, 0, d, d + at);
                lemma_newlines_local(t, d, at);
                lemma_newlines_local(t, 0, d);
                lemma_newlines_local(s, 0, at);
            },
            Outcome::Blank => {},
        }
    }
}

/// Reading goes line by line: where the first line of a text holds a whole
/// statement, the text holds what that line says, and then what the later
/// lines hold by themselves, read with what the first line has defined and
/// with their lines counted from 2.
pub proof fn law_read_line_by_line(
    t: Seq<u8>,
    defs: Map<Seq<u8>, Seq<u8>>,
    env: Map<Seq<u8>, Seq<u8>>,
)
    requires
        t.len() <= usize::MAX,
        statement(first_line(t), 0, overlay(env, defs)) != Outcome::Bad(
            ParseErrorKind::UnterminatedQuote,
        ),
    ensures
        read_from(t, 0, defs, env) == match statement(first_line(t), 0, overlay(env, defs)) {
            Outcome::Blank => later(read_from(later_lines(t), 0, defs, env), 1),
            Outcome::Pair { key, value } => (Reading {
                entries: seq![(key, value)] + read_from(
                    later_lines(t),
                    0,
                    defs.insert(key, value),
                    env,
                ).entries,
                failure: later(
                    read_from(later_lines(t), 0, defs.insert(key, value), env),
                    1,
                ).failure,
            }),
            Outcome::Bad(kind) => (Reading {
                entries: Seq::empty(),
                failure: Some(Error::Parse { kind, line: 1 }),
            }),
        },
{
    let look = overlay(env, defs);
    let len = t.len() as int;
    let e = line_end(t, 0);
    let next = after_line(t, e);
    lemma_run_end(t, 0, len, ByteClass::Text);
    lemma_statement_on_first_line(t, look);
    let rest = later_lines(t);
    assert(rest == rest_from(t, next));
    // The lines before the second line: one, unless the text ends first.
    lemma_newlines_add(t, 0, e, next);
    lemma_no_newlines(t, 0, e);
    assert(newlines(t, 0, next) == if e < len {
        1nat
    } else {
        0nat
    }) by {
        reveal_with_fuel(newlines, 2);
    }
    match statement(t, 0, look) {
        Outcome::Blank => {
            lemma_read_local(t, next, 0, defs, env);
            lemma_read_at_end(rest, defs, env);
        },
        Outcome::Pair { key, value } => {
            lemma_read_local(t, next, 0, defs.insert(key, value), env);
            lemma_read_at_end(rest, defs.insert(key, value), env);
        },
        Outcome::Bad(kind) => {
            assert(line_number(t, 0) == 1);
        },
    }
}

/// A stretch of a line holds no line feed.
pub proof fn lemma_no_newlines(t: Seq<u8>, lo: int, hi: int)
    requires
        0 <= lo <= hi <= t.len(),
        forall|j: int| lo <= j < hi ==> t[j] != NEWLINE,
    ensures
        newlines(t, lo, hi) == 0,
    decreases hi - lo,
{
    if lo < hi {
        lemma_no_newlines(t, lo, hi - 1);
    }
}

/// An empty text holds nothing.
pub proof fn lemma_read_at_end(
    s: Seq<u8>,
    defs: Map<Seq<u8>, Seq<u8>>,
    env: Map<Seq<u8>, Seq<u8>>,
)
    ensures
        s.len() == 0 ==> read_from(s, 0, defs, env) == (Reading {
            entries: Seq::empty(),
            failure: None,
        }),
{
}

} // verus!
