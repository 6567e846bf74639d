//! The source resolver's search: which of the places that were probed holds
//! the file.
//!
//! The library opens no file. The caller probes the places where the file may
//! be and hands over what it found: for a search by name, the path that the
//! file would have in the working directory, then in its parent, and so on
//! up to the root, in that order; for an explicit path, that path.

use vstd::prelude::*;
use crate::errors::Error;
use crate::iter::{Iter, bom_len};

verus! {

/// What probing one path gave.
#[derive(Clone, Debug, PartialEq, Eq)]
pub enum Probe {
    /// No file is there.
    Missing,
    /// A file is there and could not be opened or read.
    Unreadable,
    /// A file is there, with these contents.
    Readable(Vec<u8>),
}

/// One path that was probed, with what the probe gave.
#[derive(Clone, Debug, PartialEq, Eq)]
pub struct Candidate {
    pub path: String,
    pub probe: Probe,
}

/// What resolving a source gives.
pub enum Resolution {
    /// A text, and the path it was read from if it was read from a file.
    Found { origin: Option<Seq<char>>, text: Seq<u8> },
    /// No text, which the configuration tolerates.
    Absent,
    /// A failure.
    Failed(Error),
}

/// The index of the first candidate at or behind `i` at which a file is
/// there, or the number of candidates if there is none.
pub open spec fn first_present(candidates: Seq<Candidate>, i: int) -> int
    decreases candidates.len() - i,
{
    if 0 <= i < candidates.len() && candidates[i].probe is Missing {
        first_present(candidates, i + 1)
    } else {
        i
    }
}

/// The index of the first candidate at or behind `i` whose path is `path`,
/// or the number of candidates if there is none.
pub open spec fn first_at_path(candidates: Seq<Candidate>, path: Seq<char>, i: int) -> int
    decreases candidates.len() - i,
{
    if 0 <= i < candidates.len() && candidates[i].path@ != path {
        first_at_path(candidates, path, i + 1)
    } else {
        i
    }
}

/// What the candidate at `i` gives: its contents with its path as origin,
/// `Io` where it cannot be read, `NotFound` where no file is there or `i` is
/// no index.
pub open spec fn opened(candidates: Seq<Candidate>, i: int) -> Resolution {
    if 0 <= i < candidates.len() {
        match candidates[i].probe {
            Probe::Missing => Resolution::Failed(Error::NotFound),
            Probe::Unreadable => Resolution::Failed(Error::Io),
            Probe::Readable(bytes) => Resolution::Found {
                origin: Some(candidates[i].path@),
                text: bytes@,
            },
        }
    } else {
        Resolution::Failed(Error::NotFound)
    }
}

/// The result of a search by name: the first candidate at which a file is
/// there decides.
pub open spec fn searched(candidates: Seq<Candidate>) -> Resolution {
    opened(candidates, first_present(candidates, 0))
}

/// The result of opening exactly `path`: the first candidate with that path
/// decides.
pub open spec fn opened_at(candidates: Seq<Candidate>, path: Seq<char>) -> Resolution {
    opened(candidates, first_at_path(candidates, path, 0))
}

/// Whether `r` is what `resolution` stands for, as far as it is found or
/// failed.
pub open spec fn gives(resolution: Resolution, r: Result<(String, Iter), Error>) -> bool {
    match resolution {
        Resolution::Found { origin, text } => {
            &&& r matches Ok((path, iter))
            &&& origin == Some(path@)
            &&& iter.text() == text
            &&& iter.cursor() == bom_len(text)
            &&& iter.defined() == Map::<Seq<u8>, Seq<u8>>::empty()
        },
        Resolution::Absent => false,
        Resolution::Failed(e) => r == Err::<(String, Iter), Error>(e),
    }
}

/// The search finds the first candidate at which a file is there: every
/// candidate before it is missing.
pub proof fn lemma_first_present(candidates: Seq<Candidate>, i: int)
    requires
        0 <= i <= candidates.len(),
    ensures
        i <= first_present(candidates, i) <= candidates.len(),
        forall|j: int|
            i <= j < first_present(candidates, i) ==> (#[trigger] candidates[j]).probe is Missing,
        first_present(candidates, i) < candidates.len() ==> !(candidates[first_present(
            candidates,
            i,
        )].probe is Missing),
    decreases candidates.len() - i,
{
    if i < candidates.len() && candidates[i].probe is Missing {
        lemma_first_present(candidates, i + 1);
    }
}

/// Discovery: where a file is there at one candidate and at none before it,
/// the search gives that file, with the candidate's path as origin; where a
/// file is there at no candidate, the search fails with `NotFound`.
pub proof fn law_first_file_wins(candidates: Seq<Candidate>, i: int)
    requires
        0 <= i <= candidates.len(),
        forall|j: int| 0 <= j < i ==> (#[trigger] candidates[j]).probe is Missing,
        i < candidates.len() ==> !(candidates[i].probe is Missing),
    ensures
        searched(candidates) == opened(candidates, i),
        i == candidates.len() ==> searched(candidates) == Resolution::Failed(Error::NotFound),
        i < candidates.len() ==> (candidates[i].probe matches Probe::Readable(bytes) ==> searched(
            candidates,
        ) == (Resolution::Found { origin: Some(candidates[i].path@), text: bytes@ })),
{
    lemma_first_present(candidates, 0);
    let f = first_present(candidates, 0);
    if f < i {
        assert(candidates[f].probe is Missing);
    }
}

/// Whether the search is decided: a file is there at one of the candidates.
pub open spec fn is_settled(candidates: Seq<Candidate>) -> bool {
    first_present(candidates, 0) < candidates.len()
}

/// Once a file is there at a candidate, probing further up changes nothing.
pub proof fn law_settled_search_is_final(candidates: Seq<Candidate>, more: Seq<Candidate>)
    requires
        is_settled(candidates),
    ensures
        searched(candidates + more) == searched(candidates),
{
    lemma_first_present(candidates, 0);
    let f = first_present(candidates, 0);
    let all = candidates + more;
    assert forall|j: int| 0 <= j < f implies (#[trigger] all[j]).probe is Missing by {
        assert(all[j] == candidates[j]);
    }
    assert(all[f] == candidates[f]);
    law_first_file_wins(all, f);
}

/// Tells whether the search is decided, so that the caller need not probe
/// the directories further up.
pub fn settled(candidates: &[Candidate]) -> (r: bool)
    ensures
        r == is_settled(candidates@),
{
    let mut i: usize = 0;
    while i < candidates.len() && is_missing(&candidates[i].probe)
        invariant
            i <= candidates@.len(),
            first_present(candidates@, 0) == first_present(candidates@, i as int),
        decreases candidates@.len() - i,
    {
        i += 1;
    }
    i < candidates.len()
}

/// Opens the candidate at `i`.
fn open_candidate(candidates: &[Candidate], i: usize) -> (r: Result<(String, Iter), Error>)
    ensures
        gives(opened(candidates@, i as int), r),
{
    if i >= candidates.len() {
        return Err(Error::NotFound);
    }
    match &candidates[i].probe {
        Probe::Missing => Err(Error::NotFound),
        Probe::Unreadable => Err(Error::Io),
        Probe::Readable(bytes) => Ok((candidates[i].path.clone(), Iter::new(bytes.clone()))),
    }
}

/// Opens exactly `path`: the first candidate with that path decides.
pub fn open_path(path: &String, candidates: &[Candidate]) -> (r: Result<(String, Iter), Error>)
    ensures
        gives(opened_at(candidates@, path@), r),
{
    let mut i: usize = 0;
    while i < candidates.len() && candidates[i].path != *path
        invariant
            i <= candidates@.len(),
            first_at_path(candidates@, path@, 0) == first_at_path(candidates@, path@, i as int),
        decreases candidates@.len() - i,
    {
        i += 1;
    }
    open_candidate(candidates, i)
}

/// A search for a file by its name, from the working directory upwards.
#[derive(Debug)]
pub struct Finder {
    filename: String,
}

impl Finder {
    /// The name that is searched for.
    pub closed spec fn name(&self) -> Seq<char> {
        self.filename@
    }

    /// A search for the file `.env`.
    pub fn new() -> (r: Finder)
        ensures
            r.name() == ".env"@,
    {
        Finder { filename: ".env".to_owned() }
    }

    /// A search for the file `filename`.
    pub fn filename(self, filename: &str) -> (r: Finder)
        ensures
            r.name() == filename@,
    {
        Finder { filename: filename.to_owned() }
    }

    /// The name that the caller is to probe for.
    pub fn target(&self) -> (r: &String)
        ensures
            r@ == self.name(),
    {
        &self.filename
    }

    /// Picks the file among the candidates, which are the paths that the
    /// file would have from the working directory upwards, in that order:
    /// the first at which a file is there wins, and no file at any of them
    /// is `NotFound`.
    pub fn find(self, candidates: &[Candidate]) -> (r: Result<(String, Iter), Error>)
        ensures
            gives(searched(candidates@), r),
    {
        let mut i: usize = 0;
        while i < candidates.len() && is_missing(&candidates[i].probe)
            invariant
                i <= candidates@.len(),
                first_present(candidates@, 0) == first_present(candidates@, i as int),
            decreases candidates@.len() - i,
        {
            i += 1;
        }
        open_candidate(candidates, i)
    }
}

/// Tells whether the probe found no file.
fn is_missing(probe: &Probe) -> (r: bool)
    ensures
        r == (*probe is Missing),
{
    match probe {
        Probe::Missing => true,
        _ => false,
    }
}

} // verus!
