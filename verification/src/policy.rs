//! The application policy: which parsed entries reach the environment.
//!
//! A key that was set before loading began keeps its value unless overriding
//! was asked for. A key that was not is set by every entry that names it, so
//! that the last such entry decides.

use vstd::prelude::*;
use crate::env::{Env, ParsedEntry};

verus! {

/// Whether an entry with `key` is applied, where `pre` holds the keys that
/// were set before loading began.
pub open spec fn applies(pre: Set<Seq<u8>>, key: Seq<u8>, override_existing: bool) -> bool {
    override_existing || !pre.contains(key)
}

/// The environment after one entry.
pub open spec fn apply_one(
    pre: Set<Seq<u8>>,
    env: Map<Seq<u8>, Seq<u8>>,
    entry: (Seq<u8>, Seq<u8>),
    override_existing: bool,
) -> Map<Seq<u8>, Seq<u8>> {
    if applies(pre, entry.0, override_existing) {
        env.insert(entry.0, entry.1)
    } else {
        env
    }
}

/// The environment after `entries`, taken in their order.
pub open spec fn apply_all(
    pre: Set<Seq<u8>>,
    env: Map<Seq<u8>, Seq<u8>>,
    entries: Seq<(Seq<u8>, Seq<u8>)>,
    override_existing: bool,
) -> Map<Seq<u8>, Seq<u8>>
    decreases entries.len(),
{
    if entries.len() == 0 {
        env
    } else {
        apply_all(
            pre,
            apply_one(pre, env, entries[0], override_existing),
            entries.skip(1),
            override_existing,
        )
    }
}

/// Whether two environments hold the same under `key`: both nothing, or both
/// the same value.
pub open spec fn same_at(a: Map<Seq<u8>, Seq<u8>>, b: Map<Seq<u8>, Seq<u8>>, key: Seq<u8>) -> bool {
    a.contains_key(key) == b.contains_key(key) && (a.contains_key(key) ==> a[key] == b[key])
}

/// A key that was set before loading began keeps its value where overriding
/// was not asked for, whatever the entries are.
pub proof fn law_existing_value_is_kept(
    pre: Set<Seq<u8>>,
    env: Map<Seq<u8>, Seq<u8>>,
    entries: Seq<(Seq<u8>, Seq<u8>)>,
    key: Seq<u8>,
)
    requires
        pre.contains(key),
    ensures
        same_at(apply_all(pre, env, entries, false), env, key),
    decreases entries.len(),
{
    if entries.len() > 0 {
        law_existing_value_is_kept(pre, apply_one(pre, env, entries[0], false), entries.skip(1), key);
    }
}

/// A key that no entry names is left as it was.
pub proof fn law_unnamed_key_is_untouched(
    pre: Set<Seq<u8>>,
    env: Map<Seq<u8>, Seq<u8>>,
    entries: Seq<(Seq<u8>, Seq<u8>)>,
    override_existing: bool,
    key: Seq<u8>,
)
    requires
        forall|j: int| 0 <= j < entries.len() ==> (#[trigger] entries[j]).0 != key,
    ensures
        same_at(apply_all(pre, env, entries, override_existing), env, key),
    decreases entries.len(),
{
    if entries.len() > 0 {
        let rest = entries.skip(1);
        assert forall|j: int| 0 <= j < rest.len() implies (#[trigger] rest[j]).0 != key by {
            assert(rest[j] == entries[j + 1]);
        }
        law_unnamed_key_is_untouched(
            pre,
            apply_one(pre, env, entries[0], override_existing),
            rest,
            override_existing,
            key,
        );
    }
}

/// Of the entries that name a key, the last decides: where the key was not
/// set before loading began, or overriding was asked for, the key ends with
/// the value of the last entry that names it, whether or not overriding was
/// asked for.
pub proof fn law_last_entry_wins(
    pre: Set<Seq<u8>>,
    env: Map<Seq<u8>, Seq<u8>>,
    entries: Seq<(Seq<u8>, Seq<u8>)>,
    override_existing: bool,
    i: int,
)
    requires
        0 <= i < entries.len(),
        forall|j: int| i < j < entries.len() ==> (#[trigger] entries[j]).0 != entries[i].0,
        applies(pre, entries[i].0, override_existing),
    ensures
        apply_all(pre, env, entries, override_existing).contains_key(entries[i].0),
        apply_all(pre, env, entries, override_existing)[entries[i].0] == entries[i].1,
    decreases entries.len(),
{
    let rest = entries.skip(1);
    let next = apply_one(pre, env, entries[0], override_existing);
    if i == 0 {
        assert forall|j: int| 0 <= j < rest.len() implies (#[trigger] rest[j]).0
            != entries[0].0 by {
            assert(rest[j] == entries[j + 1]);
        }
        law_unnamed_key_is_untouched(pre, next, rest, override_existing, entries[0].0);
    } else {
        assert(rest[i - 1] == entries[i]);
        assert forall|j: int| i - 1 < j < rest.len() implies (#[trigger] rest[j]).0 != rest[i
            - 1].0 by {
            assert(rest[j] == entries[j + 1]);
        }
        law_last_entry_wins(pre, next, rest, override_existing, i - 1);
    }
}

/// Loading only adds keys: what was set stays set.
pub proof fn law_keys_stay(
    pre: Set<Seq<u8>>,
    env: Map<Seq<u8>, Seq<u8>>,
    entries: Seq<(Seq<u8>, Seq<u8>)>,
    override_existing: bool,
    key: Seq<u8>,
)
    requires
        env.contains_key(key),
    ensures
        apply_all(pre, env, entries, override_existing).contains_key(key),
    decreases entries.len(),
{
    if entries.len() > 0 {
        law_keys_stay(
            pre,
            apply_one(pre, env, entries[0], override_existing),
            entries.skip(1),
            override_existing,
            key,
        );
    }
}

/// Applies `entry` to `env` under the policy; `pre` is the environment as it
/// was before loading began. Tells whether the entry was applied.
pub fn apply_entry(env: &mut Env, pre: &Env, entry: ParsedEntry, override_existing: bool) -> (r:
    bool)
    ensures
        r == applies(pre@.dom(), entry.key@, override_existing),
        final(env)@ == apply_one(pre@.dom(), old(env)@, entry@, override_existing),
{
    if override_existing || !pre.contains(entry.key.as_slice()) {
        env.set(entry.key, entry.value);
        true
    } else {
        false
    }
}

} // verus!
