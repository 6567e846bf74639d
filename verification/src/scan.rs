//! Scans over runs of bytes: the positions from which the grammar is built.

use vstd::prelude::*;
use crate::chars::{ByteClass, is_blank};

verus! {

/// The end of the longest run of bytes of `class` that starts at `i` and
/// stays below `end`.
pub open spec fn run_end(s: Seq<u8>, i: int, end: int, class: ByteClass) -> int
    decreases end - i,
{
    if 0 <= i < end <= s.len() && class.has(s[i]) {
        run_end(s, i + 1, end, class)
    } else {
        i
    }
}

/// The end of the blanks that start at `i`.
pub open spec fn skip_blanks(s: Seq<u8>, i: int, end: int) -> int {
    run_end(s, i, end, ByteClass::Blank)
}

/// The end of the name that starts at `i`.
pub open spec fn ident_end(s: Seq<u8>, i: int, end: int) -> int {
    run_end(s, i, end, ByteClass::Ident)
}

/// The end of the physical line that holds position `i`: the position of the
/// next line feed, or the end of the text.
pub open spec fn line_end(s: Seq<u8>, i: int) -> int {
    run_end(s, i, s.len() as int, ByteClass::Text)
}

/// Where the next physical line starts, given that this one ends at `eol`:
/// behind the line feed, or at the end of the text.
pub open spec fn after_line(s: Seq<u8>, eol: int) -> int {
    if eol < s.len() {
        eol + 1
    } else {
        eol
    }
}

/// The end of `s[lo..hi]` without its trailing blanks.
pub open spec fn trim_end(s: Seq<u8>, lo: int, hi: int) -> int
    decreases hi - lo,
{
    if 0 <= lo < hi <= s.len() && is_blank(s[hi - 1]) {
        trim_end(s, lo, hi - 1)
    } else {
        hi
    }
}

/// What a run is: it lies between `i` and `end`, holds bytes of the class
/// only, and stops at `end` or before a byte that is not of the class.
pub proof fn lemma_run_end(s: Seq<u8>, i: int, end: int, class: ByteClass)
    requires
        0 <= i <= end <= s.len(),
    ensures
        i <= run_end(s, i, end, class) <= end,
        forall|j: int| i <= j < run_end(s, i, end, class) ==> class.has(#[trigger] s[j]),
        run_end(s, i, end, class) < end ==> !class.has(s[run_end(s, i, end, class)]),
    decreases end - i,
{
    if i < end && class.has(s[i]) {
        lemma_run_end(s, i + 1, end, class);
    }
}

/// A run is fixed by its two properties: a stretch of bytes of the class that
/// stops at `end` or before another byte is the run.
pub proof fn lemma_run_end_is(s: Seq<u8>, i: int, j: int, end: int, class: ByteClass)
    requires
        0 <= i <= j <= end <= s.len(),
        forall|k: int| i <= k < j ==> class.has(#[trigger] s[k]),
        j < end ==> !class.has(s[j]),
    ensures
        run_end(s, i, end, class) == j,
    decreases j - i,
{
    if i < j {
        lemma_run_end_is(s, i + 1, j, end, class);
    }
}

/// What trimming leaves: the cut lies between `lo` and `hi`, only blanks are
/// cut, and the byte before the cut, if there is one, is no blank.
pub proof fn lemma_trim_end(s: Seq<u8>, lo: int, hi: int)
    requires
        0 <= lo <= hi <= s.len(),
    ensures
        lo <= trim_end(s, lo, hi) <= hi,
        forall|j: int| trim_end(s, lo, hi) <= j < hi ==> is_blank(#[trigger] s[j]),
        lo < trim_end(s, lo, hi) ==> !is_blank(s[trim_end(s, lo, hi) - 1]),
    decreases hi - lo,
{
    if lo < hi && is_blank(s[hi - 1]) {
        lemma_trim_end(s, lo, hi - 1);
    }
}

/// Finds the end of the run of bytes of `class` that starts at `i`.
pub fn scan_run(buf: &[u8], i: usize, end: usize, class: ByteClass) -> (r: usize)
    requires
        i <= end <= buf@.len(),
    ensures
        r == run_end(buf@, i as int, end as int, class),
        i <= r <= end,
{
    let mut j: usize = i;
    while j < end && class.contains(buf[j])
        invariant
            i <= j <= end <= buf@.len(),
            run_end(buf@, i as int, end as int, class) == run_end(buf@, j as int, end as int, class),
        decreases end - j,
    {
        j += 1;
    }
    j
}

/// Finds the end of `buf[lo..hi]` without its trailing blanks.
pub fn scan_trim_end(buf: &[u8], lo: usize, hi: usize) -> (r: usize)
    requires
        lo <= hi <= buf@.len(),
    ensures
        r == trim_end(buf@, lo as int, hi as int),
        lo <= r <= hi,
{
    let mut j: usize = hi;
    while j > lo && ByteClass::Blank.contains(buf[j - 1])
        invariant
            lo <= j <= hi <= buf@.len(),
            trim_end(buf@, lo as int, hi as int) == trim_end(buf@, lo as int, j as int),
        decreases j - lo,
    {
        j -= 1;
    }
    j
}

} // verus!
