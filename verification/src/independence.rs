//! What a text says but for its values does not depend on the environment:
//! its keys, their order, and where it is malformed. Loading a text twice is
//! therefore loading it once.

use vstd::prelude::*;
use crate::chars::{BACKSLASH, ByteClass};
use crate::grammar::{
    Expansion, Head, Outcome, Quoting, closes, comment_start, escape, expand, head, is_reference,
    lemma_comment_start, lemma_head, name_start, overlay, quoting_at, reference_end,
    statement, statement_end,
};
use crate::iter::{
    Reading, bom_len, lemma_next_stop, lemma_statement_end, loaded_env, next_stop, read_from,
    read_text,
};
use crate::policy::{apply_all, apply_one, law_existing_value_is_kept, law_keys_stay, same_at};
use crate::scan::{lemma_run_end, lemma_trim_end, line_end, trim_end};

verus! {

/// Whether two readings of a value end alike: at the same place, or in the
/// same failure.
pub open spec fn alike(a: Expansion, b: Expansion) -> bool {
    match (a, b) {
        (Expansion::Done { value: v, stop: p }, Expansion::Done { value: w, stop: q }) => p == q,
        (Expansion::Bad(k), Expansion::Bad(l)) => k == l,
        _ => false,
    }
}

/// Where a value ends, and whether it is malformed, does not depend on what
/// its references stand for.
pub proof fn lemma_expand_alike(
    s: Seq<u8>,
    i: int,
    end: int,
    quoting: Quoting,
    look: Map<Seq<u8>, Seq<u8>>,
    other: Map<Seq<u8>, Seq<u8>>,
)
    requires
        0 <= i <= end <= s.len(),
    ensures
        alike(expand(s, i, end, quoting, look), expand(s, i, end, quoting, other)),
    decreases end - i,
{
    if i < end && !closes(quoting, s[i]) {
        if s[i] == BACKSLASH {
            if i + 1 < end && escape(quoting, s[i + 1]) is Some {
                lemma_expand_alike(s, i + 2, end, quoting, look, other);
            } else if quoting == Quoting::Single {
                lemma_expand_alike(s, i + 1, end, quoting, look, other);
            }
        } else if quoting != Quoting::Single && is_reference(s, i, end) {
            lemma_run_end(s, name_start(s, i, end), end, ByteClass::Ident);
            lemma_expand_alike(s, reference_end(s, i, end), end, quoting, look, other);
        } else {
            lemma_expand_alike(s, i + 1, end, quoting, look, other);
        }
    }
}

/// Whether two statements say the same but for the value: both nothing, or
/// both a pair with the same key, or both the same failure.
pub open spec fn same_key(a: Outcome, b: Outcome) -> bool {
    match (a, b) {
        (Outcome::Blank, Outcome::Blank) => true,
        (Outcome::Pair { key: k, value: v }, Outcome::Pair { key: l, value: w }) => k == l,
        (Outcome::Bad(k), Outcome::Bad(l)) => k == l,
        _ => false,
    }
}

/// What a statement says but for its value, and where it ends, does not
/// depend on what its references stand for.
pub proof fn lemma_statement_alike(
    s: Seq<u8>,
    start: int,
    look: Map<Seq<u8>, Seq<u8>>,
    other: Map<Seq<u8>, Seq<u8>>,
)
    requires
        0 <= start <= s.len(),
    ensures
        same_key(statement(s, start, look), statement(s, start, other)),
        statement_end(s, start, look) == statement_end(s, start, other),
{
    let eol = line_end(s, start);
    lemma_run_end(s, start, s.len() as int, ByteClass::Text);
    lemma_head(s, start, eol);
    match head(s, start, eol) {
        Head::Value { key_start, key_end, at } => {
            match quoting_at(s, at, eol) {
                Quoting::Single => {
                    lemma_expand_alike(s, at + 1, eol, Quoting::Single, look, other);
                },
                Quoting::Double => {
                    lemma_expand_alike(s, at + 1, s.len() as int, Quoting::Double, look, other);
                },
                Quoting::Bare => {
                    let hash = comment_start(s, at, eol);
                    lemma_comment_start(s, at, eol);
                    lemma_trim_end(s, at, hash);
                    lemma_expand_alike(
                        s,
                        at,
                        trim_end(s, at, hash),
                        Quoting::Bare,
                        look,
                        other,
                    );
                },
            }
        },
        _ => {},
    }
}

/// Where the next statement that is not blank stands does not depend on what
/// references stand for.
pub proof fn lemma_next_stop_alike(
    s: Seq<u8>,
    pos: int,
    look: Map<Seq<u8>, Seq<u8>>,
    other: Map<Seq<u8>, Seq<u8>>,
)
    requires
        0 <= pos <= s.len(),
    ensures
        next_stop(s, pos, look) == next_stop(s, pos, other),
    decreases s.len() - pos,
{
    if pos < s.len() {
        lemma_statement_alike(s, pos, look, other);
        if statement(s, pos, look) is Blank {
            lemma_statement_end(s, pos, look);
            lemma_next_stop_alike(s, statement_end(s, pos, look), look, other);
        }
    }
}

/// Whether two readings hold the same keys in the same order and end alike.
pub open spec fn same_keys(a: Reading, b: Reading) -> bool {
    &&& a.entries.len() == b.entries.len()
    &&& forall|i: int| 0 <= i < a.entries.len() ==> a.entries[i].0 == b.entries[i].0
    &&& a.failure == b.failure
}

/// The keys of a text, their order, and the failure at which reading ends do
/// not depend on the environment, nor on what was defined before.
pub proof fn lemma_read_from_alike(
    s: Seq<u8>,
    pos: int,
    defs: Map<Seq<u8>, Seq<u8>>,
    env: Map<Seq<u8>, Seq<u8>>,
    other_defs: Map<Seq<u8>, Seq<u8>>,
    other_env: Map<Seq<u8>, Seq<u8>>,
)
    requires
        0 <= pos <= s.len(),
    ensures
        same_keys(read_from(s, pos, defs, env), read_from(s, pos, other_defs, other_env)),
    decreases s.len() - pos,
{
    let look = overlay(env, defs);
    let other = overlay(other_env, other_defs);
    lemma_next_stop_alike(s, pos, look, other);
    lemma_next_stop(s, pos, look);
    let at = next_stop(s, pos, look);
    if at < s.len() {
        lemma_statement_alike(s, at, look, other);
        lemma_statement_end(s, at, look);
        match (statement(s, at, look), statement(s, at, other)) {
            (Outcome::Pair { key, value }, Outcome::Pair { key: l, value: w }) => {
                let next = statement_end(s, at, look);
                lemma_read_from_alike(
                    s,
                    next,
                    defs.insert(key, value),
                    env,
                    other_defs.insert(l, w),
                    other_env,
                );
                let a = read_from(s, next, defs.insert(key, value), env);
                let b = read_from(s, next, other_defs.insert(l, w), other_env);
                let left = seq![(key, value)] + a.entries;
                let right = seq![(l, w)] + b.entries;
                assert forall|i: int| 0 <= i < left.len() implies left[i].0 == right[i].0 by {
                    if i > 0 {
                        assert(left[i] == a.entries[i - 1]);
                        assert(right[i] == b.entries[i - 1]);
                    }
                }
            },
            _ => {},
        }
    }
}

/// After entries were applied to an environment, each of their keys is set.
pub proof fn lemma_entry_keys_are_set(
    pre: Set<Seq<u8>>,
    env: Map<Seq<u8>, Seq<u8>>,
    entries: Seq<(Seq<u8>, Seq<u8>)>,
    override_existing: bool,
    i: int,
)
    requires
        0 <= i < entries.len(),
        forall|k: Seq<u8>| pre.contains(k) ==> env.contains_key(k),
    ensures
        apply_all(pre, env, entries, override_existing).contains_key(entries[i].0),
    decreases entries.len(),
{
    let next = apply_one(pre, env, entries[0], override_existing);
    let rest = entries.skip(1);
    if i == 0 {
        law_keys_stay(pre, next, rest, override_existing, entries[0].0);
    } else {
        assert(rest[i - 1] == entries[i]);
        lemma_entry_keys_are_set(pre, next, rest, override_existing, i - 1);
    }
}

/// Entries whose keys were all set before loading began change nothing
/// where overriding was not asked for.
pub proof fn lemma_nothing_applies(
    pre: Set<Seq<u8>>,
    env: Map<Seq<u8>, Seq<u8>>,
    entries: Seq<(Seq<u8>, Seq<u8>)>,
)
    requires
        forall|i: int| 0 <= i < entries.len() ==> pre.contains((#[trigger] entries[i]).0),
    ensures
        apply_all(pre, env, entries, false) == env,
    decreases entries.len(),
{
    if entries.len() > 0 {
        let rest = entries.skip(1);
        assert(pre.contains(entries[0].0));
        assert forall|i: int| 0 <= i < rest.len() implies pre.contains((#[trigger] rest[i]).0) by {
            assert(rest[i] == entries[i + 1]);
        }
        lemma_nothing_applies(pre, env, rest);
    }
}

/// Loading without overriding leaves every key that was set before as it
/// was.
pub proof fn law_load_keeps_existing(text: Seq<u8>, env: Map<Seq<u8>, Seq<u8>>, key: Seq<u8>)
    requires
        env.contains_key(key),
    ensures
        same_at(loaded_env(text, env, false), env, key),
{
    law_existing_value_is_kept(env.dom(), env, read_text(text, env).entries, key);
}

/// Idempotence: loading a text a second time without overriding changes
/// nothing, and ends as the first load did.
pub proof fn law_load_twice(text: Seq<u8>, env: Map<Seq<u8>, Seq<u8>>)
    ensures
        loaded_env(text, loaded_env(text, env, false), false) == loaded_env(text, env, false),
        read_text(text, loaded_env(text, env, false)).failure == read_text(text, env).failure,
{
    let first = read_text(text, env);
    let once = loaded_env(text, env, false);
    let second = read_text(text, once);
    lemma_read_from_alike(
        text,
        bom_len(text),
        Map::empty(),
        env,
        Map::empty(),
        once,
    );
    assert forall|i: int| 0 <= i < second.entries.len() implies once.dom().contains(
        (#[trigger] second.entries[i]).0,
    ) by {
        assert(second.entries[i].0 == first.entries[i].0);
        lemma_entry_keys_are_set(env.dom(), env, first.entries, false, i);
    }
    lemma_nothing_applies(once.dom(), once, second.entries);
}

} // verus!
