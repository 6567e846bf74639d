//! What texts in the plain forms say: a line `KEY=VALUE`, a value between
//! single quotes, a value between double quotes, a value that is a reference,
//! and texts of one or two such lines.

use vstd::prelude::*;
use crate::chars::{
    BACKSLASH, ByteClass, CLOSE_BRACE, DOLLAR, DOUBLE_QUOTE, EQUALS, HASH, NEWLINE, OPEN_BRACE,
    SINGLE_QUOTE, is_blank, is_ident,
};
use crate::grammar::{
    Expansion, Head, Outcome, Quoting, comment_start, emit, expand, has_export, head, is_reference,
    lemma_head, overlay, quoting_at, reference_end, reference_name, resolve, statement,
    statement_end,
};
use crate::iter::{Reading, loaded_env, next_stop, read_from, read_text};
use crate::locality::{
    first_line, later_lines, law_read_line_by_line, lemma_run_end_local, lemma_trim_end_local,
    same_window,
};
use crate::policy::apply_all;
use crate::scan::{
    lemma_run_end, lemma_run_end_is, lemma_trim_end, line_end, run_end, skip_blanks, trim_end,
};

verus! {

/// Whether `key` can stand as a key: it is not empty and holds only letters,
/// digits and underscores.
pub open spec fn is_key(key: Seq<u8>) -> bool {
    key.len() > 0 && forall|i: int| 0 <= i < key.len() ==> is_ident(#[trigger] key[i])
}

/// `raw` without its leading and trailing blanks.
pub open spec fn trimmed(raw: Seq<u8>) -> Seq<u8> {
    let lo = skip_blanks(raw, 0, raw.len() as int);
    raw.subrange(lo, trim_end(raw, lo, raw.len() as int))
}

/// Whether `b` has no meaning of its own in a bare value.
pub open spec fn is_plain(b: u8) -> bool {
    b != SINGLE_QUOTE && b != DOUBLE_QUOTE && b != BACKSLASH && b != HASH && b != DOLLAR && b
        != NEWLINE
}

/// A text that begins with a key and `=` has that key, and its value begins
/// behind the blanks that follow the `=`.
proof fn lemma_head_of_key(t: Seq<u8>, key: Seq<u8>, eol: int)
    requires
        is_key(key),
        key.len() < eol <= t.len(),
        forall|i: int| 0 <= i < key.len() ==> t[i] == key[i],
        t[key.len() as int] == EQUALS,
    ensures
        head(t, 0, eol) == (Head::Value {
            key_start: 0,
            key_end: key.len() as int,
            at: skip_blanks(t, key.len() as int + 1, eol),
        }),
        t.subrange(0, key.len() as int) == key,
{
    let n = key.len() as int;
    assert(is_ident(key[0]));
    lemma_run_end_is(t, 0, 0, eol, ByteClass::Blank);
    if has_export(t, 0, eol) {
        let word = t.subrange(0, 6);
        if n < 6 {
            assert(word[n] == t[n]);
        } else if n > 6 {
            assert(is_ident(key[6]));
        }
    }
    assert forall|k: int| 0 <= k < n implies ByteClass::Ident.has(#[trigger] t[k]) by {
        assert(is_ident(key[k]));
    }
    lemma_run_end_is(t, 0, n, eol, ByteClass::Ident);
    lemma_run_end_is(t, n, n, eol, ByteClass::Blank);
    assert(t.subrange(0, n) =~= key);
}

/// A stretch without a line feed lies on one line.
proof fn lemma_line_end_behind(t: Seq<u8>, upto: int)
    requires
        0 <= upto <= t.len(),
        forall|i: int| 0 <= i < upto ==> t[i] != NEWLINE,
    ensures
        upto <= line_end(t, 0) <= t.len(),
{
    lemma_run_end(t, 0, t.len() as int, ByteClass::Text);
}

/// Where no `#` and no backslash stands, no comment starts.
proof fn lemma_no_comment(t: Seq<u8>, i: int, end: int)
    requires
        0 <= i <= end <= t.len(),
        forall|j: int| i <= j < end ==> t[j] != HASH && t[j] != BACKSLASH,
    ensures
        comment_start(t, i, end) == end,
    decreases end - i,
{
    if i < end {
        lemma_no_comment(t, i + 1, end);
    }
}

/// Bytes that are neither the closing quote, nor a backslash, nor a `$`
/// stand for themselves.
proof fn lemma_expand_literal(
    t: Seq<u8>,
    i: int,
    end: int,
    quoting: Quoting,
    look: Map<Seq<u8>, Seq<u8>>,
)
    requires
        0 <= i <= end <= t.len(),
        quoting == Quoting::Bare || quoting == Quoting::Double,
        forall|j: int| i <= j < end ==> t[j] != BACKSLASH && t[j] != DOLLAR && t[j] != DOUBLE_QUOTE,
    ensures
        expand(t, i, end, quoting, look) == emit(
            t.subrange(i, end),
            expand(t, end, end, quoting, look),
        ),
    decreases end - i,
{
    let tail = expand(t, end, end, quoting, look);
    if i < end {
        lemma_expand_literal(t, i + 1, end, quoting, look);
        assert(!is_reference(t, i, end));
        match tail {
            Expansion::Done { value, stop } => {
                assert(seq![t[i]] + (t.subrange(i + 1, end) + value) =~= t.subrange(i, end)
                    + value);
            },
            Expansion::Bad(kind) => {},
        }
    } else {
        match tail {
            Expansion::Done { value, stop } => {
                assert(t.subrange(i, end) + value =~= value);
            },
            Expansion::Bad(kind) => {},
        }
    }
}

/// A line `KEY=VALUE` whose value holds no quote, no backslash, no `#`, no
/// `$` and no line feed says that the key has the value, without the blanks
/// around it.
pub proof fn law_plain_pair(key: Seq<u8>, raw: Seq<u8>, look: Map<Seq<u8>, Seq<u8>>)
    requires
        is_key(key),
        forall|i: int| 0 <= i < raw.len() ==> is_plain(#[trigger] raw[i]),
    ensures
        statement(key + seq![EQUALS] + raw, 0, look) == (Outcome::Pair {
            key,
            value: trimmed(raw),
        }),
{
    let t = key + seq![EQUALS] + raw;
    let n = key.len() as int;
    let len = t.len() as int;
    let off = n + 1;
    assert forall|i: int| 0 <= i < n implies t[i] == key[i] && t[i] != NEWLINE by {
        assert(is_ident(key[i]));
    }
    assert(t[n] == EQUALS);
    assert forall|j: int| 0 <= j < raw.len() implies t[off + j] == raw[j] by {}
    assert forall|i: int| 0 <= i < len implies t[i] != NEWLINE by {
        if i > n {
            assert(t[off + (i - off)] == raw[i - off]);
            assert(is_plain(raw[i - off]));
        }
    }
    lemma_line_end_behind(t, len);
    lemma_head_of_key(t, key, len);
    assert(same_window(raw, t, off, 0, raw.len() as int)) by {
        assert forall|j: int| 0 <= j < raw.len() implies #[trigger] raw[j] == t[j + off] by {
            assert(t[off + j] == raw[j]);
        }
    }
    lemma_run_end_local(raw, t, off, 0, raw.len() as int, ByteClass::Blank);
    lemma_run_end(raw, 0, raw.len() as int, ByteClass::Blank);
    let lo = skip_blanks(raw, 0, raw.len() as int);
    let at = off + lo;
    assert forall|j: int| at <= j < len implies t[j] != HASH && t[j] != BACKSLASH && t[j] != DOLLAR
        && t[j] != DOUBLE_QUOTE && t[j] != SINGLE_QUOTE by {
        assert(t[off + (j - off)] == raw[j - off]);
        assert(is_plain(raw[j - off]));
    }
    assert(quoting_at(t, at, len) == Quoting::Bare);
    lemma_no_comment(t, at, len);
    lemma_trim_end_local(raw, t, off, lo, raw.len() as int);
    lemma_trim_end(raw, lo, raw.len() as int);
    let hi = trim_end(raw, lo, raw.len() as int);
    let cut = off + hi;
    lemma_expand_literal(t, at, cut, Quoting::Bare, look);
    assert(t.subrange(at, cut) + Seq::<u8>::empty() =~= raw.subrange(lo, hi));
}

/// A value between single quotes is taken byte for byte: where it holds no
/// single quote and no line feed and does not end in a backslash, the line
/// says that the key has exactly that value, whatever `$`, `#` and
/// backslashes it holds.
pub proof fn law_single_quoted_is_literal(
    key: Seq<u8>,
    raw: Seq<u8>,
    look: Map<Seq<u8>, Seq<u8>>,
)
    requires
        is_key(key),
        forall|i: int| 0 <= i < raw.len() ==> raw[i] != SINGLE_QUOTE && raw[i] != NEWLINE,
        raw.len() > 0 ==> raw.last() != BACKSLASH,
    ensures
        statement(key + seq![EQUALS, SINGLE_QUOTE] + raw + seq![SINGLE_QUOTE], 0, look) == (
        Outcome::Pair { key, value: raw }),
{
    let t = key + seq![EQUALS, SINGLE_QUOTE] + raw + seq![SINGLE_QUOTE];
    let n = key.len() as int;
    let len = t.len() as int;
    let off = n + 2;
    assert forall|i: int| 0 <= i < n implies t[i] == key[i] && t[i] != NEWLINE by {
        assert(is_ident(key[i]));
    }
    assert(t[n] == EQUALS);
    assert(t[n + 1] == SINGLE_QUOTE);
    assert(t[len - 1] == SINGLE_QUOTE);
    assert forall|j: int| 0 <= j < raw.len() implies t[off + j] == raw[j] by {}
    assert forall|i: int| 0 <= i < len implies t[i] != NEWLINE by {
        if off <= i < len - 1 {
            assert(t[off + (i - off)] == raw[i - off]);
        }
    }
    lemma_line_end_behind(t, len);
    lemma_head_of_key(t, key, len);
    lemma_run_end_is(t, n + 1, n + 1, len, ByteClass::Blank);
    assert(quoting_at(t, n + 1, len) == Quoting::Single);
    lemma_single_quoted(t, raw, off, 0, look);
    assert(raw.subrange(0, raw.len() as int) =~= raw);
}

/// From any place in a single-quoted value on, what is read is what is
/// written.
proof fn lemma_single_quoted(
    t: Seq<u8>,
    raw: Seq<u8>,
    off: int,
    i: int,
    look: Map<Seq<u8>, Seq<u8>>,
)
    requires
        0 <= off,
        off + raw.len() + 1 == t.len(),
        0 <= i <= raw.len(),
        forall|j: int| 0 <= j < raw.len() ==> t[off + j] == raw[j],
        t[off + raw.len()] == SINGLE_QUOTE,
        forall|j: int| 0 <= j < raw.len() ==> raw[j] != SINGLE_QUOTE,
        raw.len() > 0 ==> raw.last() != BACKSLASH,
    ensures
        expand(t, off + i, t.len() as int, Quoting::Single, look) == (Expansion::Done {
            value: raw.subrange(i, raw.len() as int),
            stop: off + raw.len(),
        }),
    decreases raw.len() - i,
{
    let end = t.len() as int;
    if i < raw.len() {
        assert(t[off + i] == raw[i]);
        lemma_single_quoted(t, raw, off, i + 1, look);
        if i + 1 < raw.len() {
            assert(t[off + (i + 1)] == raw[i + 1]);
        }
        assert(seq![raw[i]] + raw.subrange(i + 1, raw.len() as int) =~= raw.subrange(
            i,
            raw.len() as int,
        ));
    } else {
        assert(raw.subrange(i, raw.len() as int) =~= Seq::<u8>::empty());
    }
}

/// A value between double quotes may run over several lines: where it holds
/// no double quote, no backslash and no `$`, the text is one statement, which
/// says that the key has exactly that value, line feeds included.
pub proof fn law_double_quoted_spans_lines(
    key: Seq<u8>,
    raw: Seq<u8>,
    look: Map<Seq<u8>, Seq<u8>>,
)
    requires
        is_key(key),
        forall|i: int|
            0 <= i < raw.len() ==> raw[i] != DOUBLE_QUOTE && raw[i] != BACKSLASH && raw[i]
                != DOLLAR,
    ensures
        statement(key + seq![EQUALS, DOUBLE_QUOTE] + raw + seq![DOUBLE_QUOTE], 0, look) == (
        Outcome::Pair { key, value: raw }),
        statement_end(key + seq![EQUALS, DOUBLE_QUOTE] + raw + seq![DOUBLE_QUOTE], 0, look) == (
        key + seq![EQUALS, DOUBLE_QUOTE] + raw + seq![DOUBLE_QUOTE]).len(),
{
    let t = key + seq![EQUALS, DOUBLE_QUOTE] + raw + seq![DOUBLE_QUOTE];
    let n = key.len() as int;
    let len = t.len() as int;
    let off = n + 2;
    let close = len - 1;
    assert forall|i: int| 0 <= i < n implies t[i] == key[i] && t[i] != NEWLINE by {
        assert(is_ident(key[i]));
    }
    assert(t[n] == EQUALS);
    assert(t[n + 1] == DOUBLE_QUOTE);
    assert(t[close] == DOUBLE_QUOTE);
    assert forall|j: int| off <= j < close implies t[j] != BACKSLASH && t[j] != DOLLAR && t[j]
        != DOUBLE_QUOTE by {
        assert(t[j] == raw[j - off]);
    }
    lemma_line_end_behind(t, off);
    let eol = line_end(t, 0);
    lemma_head_of_key(t, key, eol);
    lemma_run_end_is(t, n + 1, n + 1, eol, ByteClass::Blank);
    assert(quoting_at(t, n + 1, eol) == Quoting::Double);
    lemma_expand_closed(t, off, close, look);
    assert(t.subrange(off, close) =~= raw);
    lemma_run_end_is(t, len, len, len, ByteClass::Text);
}

/// Literal bytes before a double quote are the value that the quote closes.
proof fn lemma_expand_closed(t: Seq<u8>, i: int, close: int, look: Map<Seq<u8>, Seq<u8>>)
    requires
        0 <= i <= close < t.len(),
        t[close] == DOUBLE_QUOTE,
        forall|j: int|
            i <= j < close ==> t[j] != BACKSLASH && t[j] != DOLLAR && t[j] != DOUBLE_QUOTE,
    ensures
        expand(t, i, t.len() as int, Quoting::Double, look) == (Expansion::Done {
            value: t.subrange(i, close),
            stop: close,
        }),
    decreases close - i,
{
    if i < close {
        lemma_expand_closed(t, i + 1, close, look);
        assert(!is_reference(t, i, t.len() as int));
        assert(seq![t[i]] + t.subrange(i + 1, close) =~= t.subrange(i, close));
    } else {
        assert(t.subrange(i, close) =~= Seq::<u8>::empty());
    }
}

/// A value that is one reference, braced or not, is what the reference
/// stands for: the value that `look` holds under the name, or nothing where
/// it holds none.
pub proof fn law_reference_is_replaced(
    key: Seq<u8>,
    name: Seq<u8>,
    look: Map<Seq<u8>, Seq<u8>>,
)
    requires
        is_key(key),
        is_key(name),
    ensures
        statement(key + seq![EQUALS, DOLLAR, OPEN_BRACE] + name + seq![CLOSE_BRACE], 0, look) == (
        Outcome::Pair { key, value: resolve(look, name) }),
        statement(key + seq![EQUALS, DOLLAR] + name, 0, look) == (Outcome::Pair {
            key,
            value: resolve(look, name),
        }),
{
    lemma_reference(key, name, true, look);
    lemma_reference(key, name, false, look);
}

/// A line whose value is a reference to `name`, braced or not.
pub open spec fn reference_line(key: Seq<u8>, name: Seq<u8>, braced: bool) -> Seq<u8> {
    if braced {
        key + seq![EQUALS, DOLLAR, OPEN_BRACE] + name + seq![CLOSE_BRACE]
    } else {
        key + seq![EQUALS, DOLLAR] + name
    }
}

/// Where the bytes of a line with a reference stand.
proof fn lemma_reference_line(key: Seq<u8>, name: Seq<u8>, braced: bool)
    requires
        is_key(key),
        is_key(name),
    ensures
        ({
            let t = reference_line(key, name, braced);
            let n = key.len() as int;
            let lo = if braced {
                n + 3
            } else {
                n + 2
            };
            let hi = lo + name.len();
            &&& t.len() == if braced {
                hi + 1
            } else {
                hi
            }
            &&& forall|i: int| 0 <= i < n ==> t[i] == key[i]
            &&& t[n] == EQUALS
            &&& t[n + 1] == DOLLAR
            &&& braced ==> t[n + 2] == OPEN_BRACE && t[hi] == CLOSE_BRACE
            &&& forall|j: int| lo <= j < hi ==> t[j] == name[j - lo] && is_ident(t[j])
            &&& forall|i: int|
                0 <= i < t.len() ==> t[i] != NEWLINE && t[i] != HASH && t[i] != BACKSLASH
            &&& !is_blank(t[t.len() - 1])
        }),
{
    let t = reference_line(key, name, braced);
    let n = key.len() as int;
    let lo = if braced {
        n + 3
    } else {
        n + 2
    };
    let hi = lo + name.len();
    assert forall|j: int| lo <= j < hi implies t[j] == name[j - lo] && is_ident(t[j]) by {
        assert(is_ident(name[j - lo]));
    }
    assert forall|i: int| 0 <= i < t.len() implies t[i] != NEWLINE && t[i] != HASH && t[i]
        != BACKSLASH by {
        if i < n {
            assert(is_ident(key[i]));
        } else if lo <= i < hi {
            assert(is_ident(t[i]));
        }
    }
    if !braced {
        assert(is_ident(t[hi - 1]));
    }
}

/// A reference behind a key and `=`, with nothing behind it, is the whole
/// value, and the line is one statement.
proof fn lemma_reference(key: Seq<u8>, name: Seq<u8>, braced: bool, look: Map<Seq<u8>, Seq<u8>>)
    requires
        is_key(key),
        is_key(name),
    ensures
        statement(reference_line(key, name, braced), 0, look) == (Outcome::Pair {
            key,
            value: resolve(look, name),
        }),
        statement_end(reference_line(key, name, braced), 0, look) == reference_line(
            key,
            name,
            braced,
        ).len(),
        forall|i: int|
            0 <= i < reference_line(key, name, braced).len() ==> reference_line(
                key,
                name,
                braced,
            )[i] != NEWLINE,
{
    let t = reference_line(key, name, braced);
    let n = key.len() as int;
    let len = t.len() as int;
    let at = n + 1;
    let lo = if braced {
        n + 3
    } else {
        n + 2
    };
    let hi = lo + name.len();
    lemma_reference_line(key, name, braced);
    lemma_line_end_behind(t, len);
    lemma_head_of_key(t, key, len);
    lemma_run_end_is(t, at, at, len, ByteClass::Blank);
    assert(quoting_at(t, at, len) == Quoting::Bare);
    lemma_no_comment(t, at, len);
    assert(trim_end(t, at, len) == len);
    lemma_reference_value(t, at, lo, hi, name, look);
}

/// A reference that reaches to the end of a bare value is the value.
proof fn lemma_reference_value(
    t: Seq<u8>,
    at: int,
    lo: int,
    hi: int,
    name: Seq<u8>,
    look: Map<Seq<u8>, Seq<u8>>,
)
    requires
        is_key(name),
        0 <= at < lo < hi <= t.len(),
        hi == lo + name.len(),
        t[at] == DOLLAR,
        forall|j: int| lo <= j < hi ==> t[j] == name[j - lo] && is_ident(t[j]),
        lo == at + 1 && hi == t.len() || lo == at + 2 && t[at + 1] == OPEN_BRACE && hi + 1
            == t.len() && t[hi] == CLOSE_BRACE,
    ensures
        expand(t, at, t.len() as int, Quoting::Bare, look) == (Expansion::Done {
            value: resolve(look, name),
            stop: t.len() as int,
        }),
{
    let len = t.len() as int;
    assert(is_ident(name[0]));
    assert(t[lo] == name[0]);
    assert forall|k: int| lo <= k < hi implies ByteClass::Ident.has(#[trigger] t[k]) by {
        assert(is_ident(t[k]));
    }
    lemma_run_end_is(t, lo, hi, len, ByteClass::Ident);
    assert(is_reference(t, at, len));
    assert(reference_end(t, at, len) == len);
    assert(reference_name(t, at, len) =~= name);
    assert(resolve(look, name) + Seq::<u8>::empty() =~= resolve(look, name));
    reveal_with_fuel(expand, 2);
}

/// The key of an entry is never empty and holds only letters, digits and
/// underscores.
pub proof fn law_entry_has_a_key(s: Seq<u8>, start: int, look: Map<Seq<u8>, Seq<u8>>)
    requires
        0 <= start <= s.len(),
    ensures
        statement(s, start, look) matches Outcome::Pair { key, value } ==> is_key(key),
{
    let eol = line_end(s, start);
    lemma_run_end(s, start, s.len() as int, ByteClass::Text);
    lemma_head(s, start, eol);
    match head(s, start, eol) {
        Head::Value { key_start, key_end, at } => {
            lemma_run_end(s, key_start, eol, ByteClass::Ident);
            let key = s.subrange(key_start, key_end);
            assert forall|i: int| 0 <= i < key.len() implies is_ident(#[trigger] key[i]) by {
                assert(ByteClass::Ident.has(s[key_start + i]));
            }
        },
        _ => {},
    }
}

/// A text that is one statement holds one entry.
pub proof fn lemma_read_single(
    t: Seq<u8>,
    defs: Map<Seq<u8>, Seq<u8>>,
    env: Map<Seq<u8>, Seq<u8>>,
)
    requires
        t.len() > 0,
        statement(t, 0, overlay(env, defs)) is Pair,
        statement_end(t, 0, overlay(env, defs)) == t.len(),
    ensures
        read_from(t, 0, defs, env) == (Reading {
            entries: seq![
                (
                    statement(t, 0, overlay(env, defs))->key,
                    statement(t, 0, overlay(env, defs))->value,
                ),
            ],
            failure: None,
        }),
{
    let look = overlay(env, defs);
    let key = statement(t, 0, look)->key;
    let value = statement(t, 0, look)->value;
    assert(next_stop(t, 0, look) == 0);
    reveal_with_fuel(read_from, 2);
    assert(next_stop(t, t.len() as int, overlay(env, defs.insert(key, value))) == t.len());
    assert(seq![(key, value)] + Seq::<(Seq<u8>, Seq<u8>)>::empty() =~= seq![(key, value)]);
}

/// A line `KEY=VALUE` with a plain value is one statement, which ends with
/// the line.
pub proof fn lemma_plain_pair_is_whole(key: Seq<u8>, raw: Seq<u8>, look: Map<Seq<u8>, Seq<u8>>)
    requires
        is_key(key),
        forall|i: int| 0 <= i < raw.len() ==> is_plain(#[trigger] raw[i]),
    ensures
        statement(key + seq![EQUALS] + raw, 0, look) == (Outcome::Pair {
            key,
            value: trimmed(raw),
        }),
        statement_end(key + seq![EQUALS] + raw, 0, look) == (key + seq![EQUALS] + raw).len(),
        forall|i: int|
            0 <= i < (key + seq![EQUALS] + raw).len() ==> (key + seq![EQUALS] + raw)[i]
                != NEWLINE,
        (key + seq![EQUALS] + raw)[0] == key[0],
{
    let t = key + seq![EQUALS] + raw;
    let len = t.len() as int;
    law_plain_pair(key, raw, look);
    assert forall|i: int| 0 <= i < len implies t[i] != NEWLINE by {
        if i < key.len() {
            assert(is_ident(key[i]));
        } else if i > key.len() {
            assert(is_plain(raw[i - key.len() - 1]));
        }
    }
    lemma_line_end_behind(t, len);
}

/// A text that is one line `KEY=VALUE` with a plain value holds one entry.
pub proof fn lemma_read_plain_pair(key: Seq<u8>, raw: Seq<u8>, env: Map<Seq<u8>, Seq<u8>>)
    requires
        is_key(key),
        forall|i: int| 0 <= i < raw.len() ==> is_plain(#[trigger] raw[i]),
    ensures
        read_text(key + seq![EQUALS] + raw, env) == (Reading {
            entries: seq![(key, trimmed(raw))],
            failure: None,
        }),
{
    let t = key + seq![EQUALS] + raw;
    lemma_plain_pair_is_whole(key, raw, overlay(env, Map::empty()));
    assert(is_ident(key[0]));
    lemma_read_single(t, Map::empty(), env);
}

/// Two lines, the second behind the line feed of the first, are a text whose
/// first line is the first and whose later lines are the second.
pub proof fn lemma_two_lines(first: Seq<u8>, second: Seq<u8>)
    requires
        forall|i: int| 0 <= i < first.len() ==> first[i] != NEWLINE,
    ensures
        first_line(first + seq![NEWLINE] + second) == first,
        later_lines(first + seq![NEWLINE] + second) == second,
{
    let t = first + seq![NEWLINE] + second;
    let n = first.len() as int;
    assert forall|k: int| 0 <= k < n implies ByteClass::Text.has(#[trigger] t[k]) by {
        assert(t[k] == first[k]);
    }
    assert(t[n] == NEWLINE);
    lemma_run_end_is(t, 0, n, t.len() as int, ByteClass::Text);
    assert(t.subrange(0, n) =~= first);
    assert(t.subrange(n + 1, t.len() as int) =~= second);
}

/// Duplicates in a text: of two lines that give one key plain values, both
/// are entries, in their order, and the key ends with the value of the
/// second, with or without overriding, unless it was set before and
/// overriding was not asked for.
pub proof fn law_duplicate_in_file(
    key: Seq<u8>,
    a: Seq<u8>,
    b: Seq<u8>,
    env: Map<Seq<u8>, Seq<u8>>,
    override_existing: bool,
)
    requires
        is_key(key),
        forall|i: int| 0 <= i < a.len() ==> is_plain(#[trigger] a[i]),
        forall|i: int| 0 <= i < b.len() ==> is_plain(#[trigger] b[i]),
        key.len() + a.len() + key.len() + b.len() + 3 <= usize::MAX,
    ensures
        read_text(key + seq![EQUALS] + a + seq![NEWLINE] + (key + seq![EQUALS] + b), env) == (
        Reading { entries: seq![(key, trimmed(a)), (key, trimmed(b))], failure: None }),
        override_existing || !env.contains_key(key) ==> loaded_env(
            key + seq![EQUALS] + a + seq![NEWLINE] + (key + seq![EQUALS] + b),
            env,
            override_existing,
        ) == env.insert(key, trimmed(b)),
{
    let first = key + seq![EQUALS] + a;
    let second = key + seq![EQUALS] + b;
    let t = first + seq![NEWLINE] + second;
    let none = Map::<Seq<u8>, Seq<u8>>::empty();
    let defs = none.insert(key, trimmed(a));
    lemma_plain_pair_is_whole(key, a, overlay(env, none));
    lemma_plain_pair_is_whole(key, b, overlay(env, defs));
    lemma_two_lines(first, second);
    assert(is_ident(key[0]));
    assert(t[0] == first[0]);
    law_read_line_by_line(t, none, env);
    lemma_read_single(second, defs, env);
    let entries = seq![(key, trimmed(a)), (key, trimmed(b))];
    assert(seq![(key, trimmed(a))] + seq![(key, trimmed(b))] =~= entries);
    if override_existing || !env.contains_key(key) {
        reveal_with_fuel(apply_all, 3);
        assert(entries.skip(1) =~= seq![(key, trimmed(b))]);
        assert(entries.skip(1).skip(1) =~= Seq::<(Seq<u8>, Seq<u8>)>::empty());
        assert(env.insert(key, trimmed(a)).insert(key, trimmed(b)) =~= env.insert(
            key,
            trimmed(b),
        ));
    }
}

/// Interpolation across lines: where one line gives a key a plain value and
/// the next line's value is a reference to that key, the second entry has
/// the value of the first, whatever the environment holds under the key.
pub proof fn law_reference_sees_earlier_line(
    key: Seq<u8>,
    raw: Seq<u8>,
    other: Seq<u8>,
    env: Map<Seq<u8>, Seq<u8>>,
)
    requires
        is_key(key),
        is_key(other),
        forall|i: int| 0 <= i < raw.len() ==> is_plain(#[trigger] raw[i]),
        key.len() + raw.len() + other.len() + key.len() + 6 <= usize::MAX,
    ensures
        read_text(
            key + seq![EQUALS] + raw + seq![NEWLINE] + (other + seq![EQUALS, DOLLAR, OPEN_BRACE]
                + key + seq![CLOSE_BRACE]),
            env,
        ) == (Reading {
            entries: seq![(key, trimmed(raw)), (other, trimmed(raw))],
            failure: None,
        }),
{
    let first = key + seq![EQUALS] + raw;
    let second = other + seq![EQUALS, DOLLAR, OPEN_BRACE] + key + seq![CLOSE_BRACE];
    let t = first + seq![NEWLINE] + second;
    let none = Map::<Seq<u8>, Seq<u8>>::empty();
    let defs = none.insert(key, trimmed(raw));
    lemma_plain_pair_is_whole(key, raw, overlay(env, none));
    lemma_reference(other, key, true, overlay(env, defs));
    lemma_two_lines(first, second);
    assert(is_ident(key[0]));
    assert(t[0] == first[0]);
    law_read_line_by_line(t, none, env);
    lemma_read_single(second, defs, env);
    assert(seq![(key, trimmed(raw))] + seq![(other, trimmed(raw))] =~= seq![
        (key, trimmed(raw)),
        (other, trimmed(raw)),
    ]);
}

/// Override semantics: where a key is set and the text is one line that
/// gives it a plain value, loading leaves the key as it was, and loading
/// with overriding sets it to the value of the text.
pub proof fn law_override_semantics(key: Seq<u8>, raw: Seq<u8>, env: Map<Seq<u8>, Seq<u8>>)
    requires
        is_key(key),
        forall|i: int| 0 <= i < raw.len() ==> is_plain(#[trigger] raw[i]),
        env.contains_key(key),
    ensures
        loaded_env(key + seq![EQUALS] + raw, env, false) == env,
        loaded_env(key + seq![EQUALS] + raw, env, true) == env.insert(key, trimmed(raw)),
{
    lemma_read_plain_pair(key, raw, env);
    reveal_with_fuel(apply_all, 2);
}

} // verus!
