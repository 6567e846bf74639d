//! The configuration of a load: where the text comes from, whether a missing
//! file is tolerated, whether values that are set already are replaced.

use vstd::prelude::*;
use crate::env::Env;
use crate::errors::Error;
use crate::find::{Candidate, Finder, Resolution, open_path, opened_at, searched};
use crate::iter::{Iter, bom_len, loaded_env, read_text};

verus! {

/// Where the text of a load comes from.
pub enum RawSource {
    /// The file `.env`, searched from the working directory upwards.
    Default,
    /// A file of this name, searched from the working directory upwards.
    NamedFile(Seq<char>),
    /// The file at exactly this path.
    ExplicitPath(Seq<char>),
    /// A text that the caller has read.
    Stream(Seq<u8>),
}

#[derive(Clone, Debug)]
enum FileSourceType {
    Default,
    Filename(String),
    Path(String),
}

/// A file as the source of a load.
#[derive(Clone, Debug)]
pub struct FileSource {
    source: FileSourceType,
    allow_missing: bool,
    consumed: bool,
}

/// A text that the caller has read as the source of a load.
#[derive(Debug)]
pub struct ReadSource {
    reader: Vec<u8>,
}

/// A source with the policy for values that are set already.
#[derive(Clone, Debug)]
pub struct Builder<S> {
    source: S,
    override_duplicates: bool,
}

/// The name of the file that the caller has to search for: that of a source
/// which is found by its name, and nothing for the other sources.
pub open spec fn sought(raw: RawSource) -> Option<Seq<char>> {
    match raw {
        RawSource::Default => Some(".env"@),
        RawSource::NamedFile(name) => Some(name),
        _ => None,
    }
}

/// What resolving a source gives, without regard to what the configuration
/// tolerates: for a file that is searched by name, the first candidate at
/// which a file is there; for an explicit path, the candidate with that
/// path; for a text, the text, without origin.
pub open spec fn located(raw: RawSource, candidates: Seq<Candidate>) -> Resolution {
    match raw {
        RawSource::Default => searched(candidates),
        RawSource::NamedFile(name) => searched(candidates),
        RawSource::ExplicitPath(path) => opened_at(candidates, path),
        RawSource::Stream(text) => Resolution::Found { origin: None, text },
    }
}

impl FileSource {
    /// Which file it is.
    pub closed spec fn raw(&self) -> RawSource {
        match self.source {
            FileSourceType::Default => RawSource::Default,
            FileSourceType::Filename(name) => RawSource::NamedFile(name@),
            FileSourceType::Path(path) => RawSource::ExplicitPath(path@),
        }
    }

    /// Whether a file that cannot be found is tolerated.
    pub closed spec fn tolerant(&self) -> bool {
        self.allow_missing
    }

    /// Whether the source was resolved already.
    pub closed spec fn consumed(&self) -> bool {
        self.consumed
    }

    /// What resolving this source gives: a `State` failure where it was
    /// resolved before; nothing where the file cannot be found and that is
    /// tolerated; else the file or the failure to get it.
    pub open spec fn resolution(&self, candidates: Seq<Candidate>) -> Resolution {
        if self.consumed() {
            Resolution::Failed(Error::State)
        } else if self.tolerant() && located(self.raw(), candidates) == Resolution::Failed(
            Error::NotFound,
        ) {
            Resolution::Absent
        } else {
            located(self.raw(), candidates)
        }
    }

    /// The name of the file that is searched for, where the source is no
    /// explicit path.
    pub fn search_name(&self) -> (r: Option<String>)
        ensures
            match sought(self.raw()) {
                Some(name) => r matches Some(n) && n@ == name,
                None => r is None,
            },
    {
        match &self.source {
            FileSourceType::Default => Some(Finder::new().target().clone()),
            FileSourceType::Filename(name) => Some(name.clone()),
            FileSourceType::Path(_) => None,
        }
    }

    /// The path of the file, where the source is an explicit path.
    pub fn explicit_path(&self) -> (r: Option<String>)
        ensures
            match self.raw() {
                RawSource::ExplicitPath(path) => r matches Some(p) && p@ == path,
                _ => r is None,
            },
    {
        match &self.source {
            FileSourceType::Path(path) => Some(path.clone()),
            _ => None,
        }
    }
}

impl ReadSource {
    /// The text that was read.
    pub closed spec fn text(&self) -> Seq<u8> {
        self.reader@
    }

    /// The source that it is.
    pub open spec fn raw(&self) -> RawSource {
        RawSource::Stream(self.text())
    }
}

impl Default for FileSource {
    /// The file `.env`, which must be there.
    fn default() -> (r: FileSource)
        ensures
            r.raw() == RawSource::Default,
            !r.tolerant(),
            !r.consumed(),
    {
        FileSource { source: FileSourceType::Default, allow_missing: false, consumed: false }
    }
}

impl Default for Builder<FileSource> {
    /// The configuration that `dotenv` gives.
    fn default() -> (r: Builder<FileSource>)
        ensures
            r.source().raw() == RawSource::Default,
            !r.source().tolerant(),
            !r.source().consumed(),
            !r.overrides(),
    {
        dotenv()
    }
}

/// Whether `r` is what loading gives: nothing changes and the failure is
/// handed on where resolution fails; nothing changes and there is no origin
/// where the source is absent; else the entries of the text are applied to
/// the environment in their order, up to the first malformed statement, and
/// the result is that statement's failure, or the origin.
pub open spec fn loaded(
    resolution: Resolution,
    override_existing: bool,
    before: Map<Seq<u8>, Seq<u8>>,
    after: Map<Seq<u8>, Seq<u8>>,
    r: Result<Option<String>, Error>,
) -> bool {
    match resolution {
        Resolution::Failed(e) => after == before && r == Err::<Option<String>, Error>(e),
        Resolution::Absent => after == before && r == Ok::<Option<String>, Error>(None),
        Resolution::Found { origin, text } => {
            &&& after == loaded_env(text, before, override_existing)
            &&& match read_text(text, before).failure {
                Some(e) => r == Err::<Option<String>, Error>(e),
                None => match origin {
                    Some(path) => r matches Ok(Some(p)) && p@ == path,
                    None => r == Ok::<Option<String>, Error>(None),
                },
            }
        },
    }
}

/// Whether `r` is what asking for the entries gives: the failure of
/// resolution, or nothing where the source is absent, or the text with
/// nothing read yet.
pub open spec fn iterated(resolution: Resolution, r: Result<Option<Iter>, Error>) -> bool {
    match resolution {
        Resolution::Failed(e) => r == Err::<Option<Iter>, Error>(e),
        Resolution::Absent => r == Ok::<Option<Iter>, Error>(None),
        Resolution::Found { origin, text } => r matches Ok(Some(iter)) && fresh(iter, text),
    }
}

/// Whether `iter` stands at the beginning of `text`.
pub open spec fn fresh(iter: Iter, text: Seq<u8>) -> bool {
    &&& iter.text() == text
    &&& iter.cursor() == bom_len(text)
    &&& iter.defined() == Map::<Seq<u8>, Seq<u8>>::empty()
}

/// Whether `r` is what resolving gives: the origin and the entries, both or
/// neither.
pub open spec fn found(resolution: Resolution, r: Result<(Option<String>, Option<Iter>), Error>)
    -> bool {
    match resolution {
        Resolution::Failed(e) => r == Err::<(Option<String>, Option<Iter>), Error>(e),
        Resolution::Absent => r == Ok::<(Option<String>, Option<Iter>), Error>((None, None)),
        Resolution::Found { origin, text } => {
            &&& r matches Ok((Some(path), Some(iter)))
            &&& origin == Some(path@)
            &&& fresh(iter, text)
        },
    }
}

/// Missing and optional: where the file cannot be found and that is
/// tolerated, loading succeeds without an origin and changes nothing, and
/// asking for the entries gives none.
pub proof fn law_missing_is_tolerated(
    source: FileSource,
    candidates: Seq<Candidate>,
    override_existing: bool,
    before: Map<Seq<u8>, Seq<u8>>,
    after: Map<Seq<u8>, Seq<u8>>,
    r: Result<Option<String>, Error>,
    entries: Result<Option<Iter>, Error>,
)
    requires
        source.tolerant(),
        !source.consumed(),
        located(source.raw(), candidates) == Resolution::Failed(Error::NotFound),
        loaded(source.resolution(candidates), override_existing, before, after, r),
        iterated(source.resolution(candidates), entries),
    ensures
        after == before,
        r == Ok::<Option<String>, Error>(None),
        entries == Ok::<Option<Iter>, Error>(None),
{
}

/// Every failure of resolution but `NotFound` comes to the caller, whether
/// or not a missing file is tolerated, and nothing is applied.
pub proof fn law_other_failures_surface(
    source: FileSource,
    candidates: Seq<Candidate>,
    override_existing: bool,
    before: Map<Seq<u8>, Seq<u8>>,
    after: Map<Seq<u8>, Seq<u8>>,
    r: Result<Option<String>, Error>,
    e: Error,
)
    requires
        e != Error::NotFound,
        source.consumed() && e == Error::State || !source.consumed() && located(
            source.raw(),
            candidates,
        ) == Resolution::Failed(e),
        loaded(source.resolution(candidates), override_existing, before, after, r),
    ensures
        after == before,
        r == Err::<Option<String>, Error>(e),
{
}

/// The two ways to finish a configuration. Both take what the caller found
/// when it probed for the source, and both use the configuration up.
pub trait BuilderFinalizer: Sized {
    /// What resolving the configured source gives.
    spec fn resolution(&self, candidates: Seq<Candidate>) -> Resolution;

    /// Whether values that are set already are replaced.
    spec fn overriding(&self) -> bool;

    /// Resolves the source, reads the text and applies its entries to `env`
    /// one by one. Gives the path of the file that was read, if a file was.
    fn load(self, candidates: &[Candidate], env: &mut Env) -> (r: Result<Option<String>, Error>)
        ensures
            loaded(
                self.resolution(candidates@),
                self.overriding(),
                old(env)@,
                final(env)@,
                r,
            ),
    ;

    /// Resolves the source and gives its entries, none of them read yet.
    fn iter(self, candidates: &[Candidate]) -> (r: Result<Option<Iter>, Error>)
        ensures
            iterated(self.resolution(candidates@), r),
    ;
}

impl<S> Builder<S> {
    /// The source.
    pub closed spec fn source(&self) -> S {
        self.source
    }

    /// Whether values that are set already are replaced.
    pub closed spec fn overrides(&self) -> bool {
        self.override_duplicates
    }

    /// Asks for values that are set already to be replaced.
    pub fn override_duplicates(self) -> (r: Self)
        ensures
            r.source() == self.source(),
            r.overrides(),
    {
        let mut this = self;
        this.override_duplicates = true;
        this
    }
}

impl Builder<FileSource> {
    /// Asks for a file that cannot be found to be tolerated.
    pub fn allow_missing(self) -> (r: Self)
        ensures
            r.source().raw() == self.source().raw(),
            r.source().consumed() == self.source().consumed(),
            r.source().tolerant(),
            r.overrides() == self.overrides(),
    {
        let mut this = self;
        this.source.allow_missing = true;
        this
    }

    /// The source, for the caller to see what it has to probe.
    pub fn file_source(&self) -> (r: &FileSource)
        ensures
            *r == self.source(),
    {
        &self.source
    }

    /// Resolves the source, once: a second call fails with `State`. The
    /// candidates are what the caller found when it probed for the source.
    pub fn find_iter(&mut self, candidates: &[Candidate]) -> (r: Result<
        (Option<String>, Option<Iter>),
        Error,
    >)
        ensures
            found(old(self).source().resolution(candidates@), r),
            final(self).source().consumed(),
            final(self).source().raw() == old(self).source().raw(),
            final(self).source().tolerant() == old(self).source().tolerant(),
            final(self).overrides() == old(self).overrides(),
    {
        if self.source.consumed {
            return Err(Error::State);
        }
        self.source.consumed = true;
        let find_result = match &self.source.source {
            FileSourceType::Default => Finder::new().find(candidates),
            FileSourceType::Filename(f) => Finder::new().filename(f.as_str()).find(candidates),
            FileSourceType::Path(p) => open_path(p, candidates),
        };
        match find_result {
            Err(e) => {
                if self.source.allow_missing && e.not_found() {
                    Ok((None, None))
                } else {
                    Err(e)
                }
            },
            Ok((pb, i)) => Ok((Some(pb), Some(i))),
        }
    }
}

impl BuilderFinalizer for Builder<FileSource> {
    open spec fn resolution(&self, candidates: Seq<Candidate>) -> Resolution {
        self.source().resolution(candidates)
    }

    open spec fn overriding(&self) -> bool {
        self.overrides()
    }

    fn load(self, candidates: &[Candidate], env: &mut Env) -> (r: Result<Option<String>, Error>) {
        let mut this = self;
        let (pb, iter) = match this.find_iter(candidates) {
            Ok(both) => both,
            Err(e) => {
                return Err(e);
            },
        };
        if let Some(iter) = iter {
            let applied = if this.override_duplicates {
                iter.load_override(env)
            } else {
                iter.load(env)
            };
            if let Err(e) = applied {
                return Err(e);
            }
        }
        Ok(pb)
    }

    fn iter(self, candidates: &[Candidate]) -> (r: Result<Option<Iter>, Error>) {
        let mut this = self;
        match this.find_iter(candidates) {
            Ok((_, iter)) => Ok(iter),
            Err(e) => Err(e),
        }
    }
}

impl BuilderFinalizer for Builder<ReadSource> {
    open spec fn resolution(&self, candidates: Seq<Candidate>) -> Resolution {
        located(self.source().raw(), candidates)
    }

    open spec fn overriding(&self) -> bool {
        self.overrides()
    }

    fn iter(self, _candidates: &[Candidate]) -> (r: Result<Option<Iter>, Error>) {
        Ok(Some(Iter::new(self.source.reader)))
    }

    fn load(self, _candidates: &[Candidate], env: &mut Env) -> (r: Result<Option<String>, Error>) {
        let iter = Iter::new(self.source.reader);
        let applied = if self.override_duplicates {
            iter.load_override(env)
        } else {
            iter.load(env)
        };
        match applied {
            Err(e) => Err(e),
            Ok(()) => Ok(None),
        }
    }
}

/// A load of the file `.env`, searched from the working directory upwards;
/// a missing file is a failure and values that are set already are kept.
pub fn dotenv() -> (r: Builder<FileSource>)
    ensures
        r.source().raw() == RawSource::Default,
        !r.source().tolerant(),
        !r.source().consumed(),
        !r.overrides(),
{
    Builder {
        source: FileSource {
            source: FileSourceType::Default,
            allow_missing: false,
            consumed: false,
        },
        override_duplicates: false,
    }
}

/// A load of the file named `filename`, searched from the working directory
/// upwards; a missing file is a failure and values that are set already are
/// kept.
pub fn from_filename(filename: &str) -> (r: Builder<FileSource>)
    ensures
        r.source().raw() == RawSource::NamedFile(filename@),
        !r.source().tolerant(),
        !r.source().consumed(),
        !r.overrides(),
{
    Builder {
        source: FileSource {
            source: FileSourceType::Filename(filename.to_owned()),
            allow_missing: false,
            consumed: false,
        },
        override_duplicates: false,
    }
}

/// A load of the file at exactly `path`; a missing file is a failure and
/// values that are set already are kept.
pub fn from_path(path: &str) -> (r: Builder<FileSource>)
    ensures
        r.source().raw() == RawSource::ExplicitPath(path@),
        !r.source().tolerant(),
        !r.source().consumed(),
        !r.overrides(),
{
    Builder {
        source: FileSource {
            source: FileSourceType::Path(path.to_owned()),
            allow_missing: false,
            consumed: false,
        },
        override_duplicates: false,
    }
}

/// A load of `text`, which the caller has read; values that are set already
/// are kept.
pub fn from_read(text: Vec<u8>) -> (r: Builder<ReadSource>)
    ensures
        r.source().text() == text@,
        !r.overrides(),
{
    Builder { source: ReadSource { reader: text }, override_duplicates: false }
}

} // verus!
