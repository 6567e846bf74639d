//! The sequence of entries that a text holds, read one statement at a time.

use vstd::prelude::*;
use crate::chars::{ByteClass, NEWLINE};
use crate::env::{Env, ParsedEntry};
use crate::errors::Error;
use crate::grammar::{
    Expansion, Head, Outcome, Quoting, head, lemma_double_stop, overlay, quoting_at,
    statement, statement_end, value_at,
};
use crate::parse::parse_statement;
use crate::policy::{apply_all, apply_entry};
use crate::scan::{lemma_run_end, line_end};

verus! {

/// What reading a text to its end gives: the entries in their order, up to
/// the first malformed statement if there is one.
pub struct Reading {
    pub entries: Seq<(Seq<u8>, Seq<u8>)>,
    pub failure: Option<Error>,
}

/// The length of the byte-order mark at the start of `s`: 3 where `s` starts
/// with one, else 0.
pub open spec fn bom_len(s: Seq<u8>) -> int {
    if s.len() >= 3 && s[0] == 0xEF && s[1] == 0xBB && s[2] == 0xBF {
        3
    } else {
        0
    }
}

/// The number of line feeds in `s[lo..hi]`.
pub open spec fn newlines(s: Seq<u8>, lo: int, hi: int) -> nat
    decreases hi - lo,
{
    if 0 <= lo < hi <= s.len() {
        newlines(s, lo, hi - 1) + if s[hi - 1] == NEWLINE {
            1nat
        } else {
            0nat
        }
    } else {
        0
    }
}

/// The number of the physical line that holds position `pos`, counted from 1.
pub open spec fn line_number(s: Seq<u8>, pos: int) -> nat {
    newlines(s, 0, pos) + 1
}

/// The statement at `pos` ends behind `pos`.
pub proof fn lemma_statement_end(s: Seq<u8>, pos: int, look: Map<Seq<u8>, Seq<u8>>)
    requires
        0 <= pos < s.len(),
    ensures
        pos < statement_end(s, pos, look) <= s.len(),
{
    let eol = line_end(s, pos);
    lemma_run_end(s, pos, s.len() as int, ByteClass::Text);
    lemma_double_stop(s, pos, look);
    match head(s, pos, eol) {
        Head::Value { key_start, key_end, at } => match value_at(s, at, eol, look) {
            Expansion::Done { value, stop } => {
                if quoting_at(s, at, eol) == Quoting::Double {
                    lemma_run_end(s, stop + 1, s.len() as int, ByteClass::Text);
                }
            },
            Expansion::Bad(kind) => {},
        },
        _ => {},
    }
}

/// The position of the first statement at or behind `pos` that is not blank,
/// or the end of the text.
pub open spec fn next_stop(s: Seq<u8>, pos: int, look: Map<Seq<u8>, Seq<u8>>) -> int
    decreases s.len() - pos,
    via next_stop_decreases
{
    if !(0 <= pos < s.len()) {
        pos
    } else if statement(s, pos, look) is Blank {
        next_stop(s, statement_end(s, pos, look), look)
    } else {
        pos
    }
}

#[via_fn]
proof fn next_stop_decreases(s: Seq<u8>, pos: int, look: Map<Seq<u8>, Seq<u8>>) {
    if 0 <= pos < s.len() {
        lemma_statement_end(s, pos, look);
    }
}

/// The first statement that is not blank lies at or behind `pos`, and within
/// the text where `pos` does.
pub proof fn lemma_next_stop(s: Seq<u8>, pos: int, look: Map<Seq<u8>, Seq<u8>>)
    requires
        0 <= pos <= s.len(),
    ensures
        pos <= next_stop(s, pos, look) <= s.len(),
        next_stop(s, pos, look) < s.len() ==> !(statement(s, next_stop(s, pos, look), look)
            is Blank),
    decreases s.len() - pos,
{
    if pos < s.len() && statement(s, pos, look) is Blank {
        lemma_statement_end(s, pos, look);
        lemma_next_stop(s, statement_end(s, pos, look), look);
    }
}

/// Reads the text from `pos` to its end. `defs` holds what the text has
/// defined before `pos`. A reference sees the last definition of its name
/// before it in the text, and the value that `env` holds where the text has
/// not defined the name yet. Reading ends at the first malformed statement,
/// with its kind and the number of the line on which it begins.
pub open spec fn read_from(
    s: Seq<u8>,
    pos: int,
    defs: Map<Seq<u8>, Seq<u8>>,
    env: Map<Seq<u8>, Seq<u8>>,
) -> Reading
    decreases s.len() - pos,
    via read_from_decreases
{
    let look = overlay(env, defs);
    let at = next_stop(s, pos, look);
    if !(0 <= pos && at < s.len()) {
        Reading { entries: Seq::empty(), failure: None }
    } else {
        match statement(s, at, look) {
            Outcome::Pair { key, value } => {
                let rest = read_from(s, statement_end(s, at, look), defs.insert(key, value), env);
                Reading { entries: seq![(key, value)] + rest.entries, failure: rest.failure }
            },
            Outcome::Bad(kind) => Reading {
                entries: Seq::empty(),
                failure: Some(Error::Parse { kind, line: line_number(s, at) as usize }),
            },
            Outcome::Blank => Reading { entries: Seq::empty(), failure: None },
        }
    }
}

#[via_fn]
proof fn read_from_decreases(
    s: Seq<u8>,
    pos: int,
    defs: Map<Seq<u8>, Seq<u8>>,
    env: Map<Seq<u8>, Seq<u8>>,
) {
    let look = overlay(env, defs);
    if 0 <= pos <= s.len() {
        lemma_next_stop(s, pos, look);
        if next_stop(s, pos, look) < s.len() {
            lemma_statement_end(s, next_stop(s, pos, look), look);
        }
    }
}

/// What a whole text holds: the entries behind its byte-order mark, if it has
/// one.
pub open spec fn read_text(s: Seq<u8>, env: Map<Seq<u8>, Seq<u8>>) -> Reading {
    read_from(s, bom_len(s), Map::empty(), env)
}

/// The environment after `text` was loaded into `env`: its entries applied
/// in their order, up to the first malformed statement.
pub open spec fn loaded_env(
    text: Seq<u8>,
    env: Map<Seq<u8>, Seq<u8>>,
    override_existing: bool,
) -> Map<Seq<u8>, Seq<u8>> {
    apply_all(env.dom(), env, read_text(text, env).entries, override_existing)
}

/// A text and a position in it: the entries from there on, handed out one by
/// one.
#[derive(Debug)]
pub struct Iter {
    buf: Vec<u8>,
    pos: usize,
    defs: Env,
}

impl Iter {
    /// The text.
    pub closed spec fn text(&self) -> Seq<u8> {
        self.buf@
    }

    /// The position of the next statement.
    pub closed spec fn cursor(&self) -> int {
        self.pos as int
    }

    /// What the text has defined before the cursor.
    pub closed spec fn defined(&self) -> Map<Seq<u8>, Seq<u8>> {
        self.defs@
    }

    /// The position of the next statement that is not blank, or the end of
    /// the text, where references fall back on `env`.
    pub open spec fn stop(&self, env: Map<Seq<u8>, Seq<u8>>) -> int {
        next_stop(self.text(), self.cursor(), overlay(env, self.defined()))
    }

    /// What is still to come, where references fall back on `env`.
    pub open spec fn pending(&self, env: Map<Seq<u8>, Seq<u8>>) -> Reading {
        read_from(self.text(), self.cursor(), self.defined(), env)
    }

    /// Starts at the beginning of `buf`, behind its byte-order mark if it has
    /// one.
    pub fn new(buf: Vec<u8>) -> (r: Iter)
        ensures
            r.text() == buf@,
            r.cursor() == bom_len(buf@),
            r.defined() == Map::<Seq<u8>, Seq<u8>>::empty(),
    {
        let pos: usize = if buf.len() >= 3 && buf[0] == 0xEF && buf[1] == 0xBB && buf[2] == 0xBF {
            3
        } else {
            0
        };
        Iter { buf, pos, defs: Env::new() }
    }

    /// The number of the physical line that holds `pos`, counted from 1.
    fn line_of(&self, pos: usize) -> (r: usize)
        requires
            pos < self.buf@.len(),
        ensures
            r == line_number(self.buf@, pos as int),
    {
        let len = self.buf.len();
        let mut count: usize = 0;
        let mut i: usize = 0;
        while i < pos
            invariant
                i <= pos < self.buf@.len() == len,
                count == newlines(self.buf@, 0, i as int),
                count <= i,
            decreases pos - i,
        {
            if self.buf[i] == NEWLINE {
                count += 1;
            }
            i += 1;
        }
        count + 1
    }

    /// Hands out the next entry, or the failure at which reading ends, or
    /// `None` when the text is exhausted. After a failure the text counts as
    /// exhausted. References fall back on `env`.
    #[verifier::loop_isolation(false)]
    pub fn next_entry(&mut self, env: &Env) -> (r: Option<Result<ParsedEntry, Error>>)
        ensures
            final(self).text() == old(self).text(),
            match r {
                None => {
                    &&& old(self).pending(env@).entries.len() == 0
                    &&& old(self).pending(env@).failure is None
                    &&& final(self).defined() == old(self).defined()
                    &&& final(self).cursor() == old(self).stop(env@)
                    &&& final(self).pending(env@) == old(self).pending(env@)
                },
                Some(Ok(entry)) => {
                    &&& old(self).pending(env@).entries.len() > 0
                    &&& entry@ == old(self).pending(env@).entries[0]
                    &&& final(self).defined() == old(self).defined().insert(
                        entry.key@,
                        entry.value@,
                    )
                    &&& final(self).cursor() == statement_end(
                        old(self).text(),
                        old(self).stop(env@),
                        overlay(env@, old(self).defined()),
                    )
                    &&& final(self).pending(env@).entries == old(self).pending(
                        env@,
                    ).entries.skip(1)
                    &&& final(self).pending(env@).failure == old(self).pending(env@).failure
                },
                Some(Err(e)) => {
                    &&& old(self).pending(env@).entries.len() == 0
                    &&& old(self).pending(env@).failure == Some(e)
                    &&& final(self).defined() == old(self).defined()
                    &&& final(self).cursor() == old(self).text().len()
                    &&& final(self).pending(env@).entries.len() == 0
                    &&& final(self).pending(env@).failure is None
                },
            },
    {
        let ghost s = self.buf@;
        let ghost look = overlay(env@, self.defs@);
        let ghost start = self.pos as int;
        let len = self.buf.len();
        loop
            invariant
                s == self.buf@,
                len == s.len(),
                look == overlay(env@, self.defs@),
                self.defs@ == old(self).defs@,
                start <= self.pos,
                next_stop(s, start, look) == next_stop(s, self.pos as int, look),
            decreases len - self.pos,
        {
            if self.pos >= len {
                return None;
            }
            let at = self.pos;
            let (line, next) = parse_statement(self.buf.as_slice(), at, &self.defs, env);
            match line {
                Ok(None) => {
                    self.pos = next;
                },
                Ok(Some(entry)) => {
                    self.pos = next;
                    let key = entry.key.clone();
                    let value = entry.value.clone();
                    self.defs.set(key, value);
                    proof {
                        let rest = read_from(s, next as int, self.defs@, env@);
                        assert((seq![entry@] + rest.entries).skip(1) =~= rest.entries);
                    }
                    return Some(Ok(entry));
                },
                Err(kind) => {
                    let number = self.line_of(at);
                    self.pos = len;
                    return Some(Err(Error::Parse { kind, line: number }));
                },
            }
        }
    }

    /// Reads the text to its end and applies its entries to `env`, leaving
    /// alone the keys that `env` holds already.
    pub fn load(self, env: &mut Env) -> (r: Result<(), Error>)
        ensures
            final(env)@ == apply_all(
                old(env)@.dom(),
                old(env)@,
                self.pending(old(env)@).entries,
                false,
            ),
            r == match self.pending(old(env)@).failure {
                None => Ok::<(), Error>(()),
                Some(e) => Err::<(), Error>(e),
            },
    {
        self.apply(env, false)
    }

    /// Reads the text to its end and applies its entries to `env`, replacing
    /// the values of the keys that `env` holds already.
    pub fn load_override(self, env: &mut Env) -> (r: Result<(), Error>)
        ensures
            final(env)@ == apply_all(
                old(env)@.dom(),
                old(env)@,
                self.pending(old(env)@).entries,
                true,
            ),
            r == match self.pending(old(env)@).failure {
                None => Ok::<(), Error>(()),
                Some(e) => Err::<(), Error>(e),
            },
    {
        self.apply(env, true)
    }

    /// Reads the text to its end and applies each entry to `env` as it is
    /// read. The entries before a failure stay applied. Whether a key was
    /// set before is judged by `env` as it is when reading begins, and so is
    /// the value that a reference falls back on.
    #[verifier::loop_isolation(false)]
    pub fn apply(self, env: &mut Env, override_existing: bool) -> (r: Result<(), Error>)
        ensures
            final(env)@ == apply_all(
                old(env)@.dom(),
                old(env)@,
                self.pending(old(env)@).entries,
                override_existing,
            ),
            r == match self.pending(old(env)@).failure {
                None => Ok::<(), Error>(()),
                Some(e) => Err::<(), Error>(e),
            },
    {
        let pre = env.snapshot();
        let ghost whole = self.pending(pre@);
        let mut rest = self;
        loop
            invariant
                pre@ == old(env)@,
                apply_all(pre@.dom(), pre@, whole.entries, override_existing) == apply_all(
                    pre@.dom(),
                    env@,
                    rest.pending(pre@).entries,
                    override_existing,
                ),
                rest.pending(pre@).failure == whole.failure,
            decreases rest.pending(pre@).entries.len(),
        {
            match rest.next_entry(&pre) {
                None => {
                    return Ok(());
                },
                Some(Ok(entry)) => {
                    apply_entry(env, &pre, entry, override_existing);
                },
                Some(Err(e)) => {
                    return Err(e);
                },
            }
        }
    }
}

} // verus!
