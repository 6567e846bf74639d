//! Short names for the configuration: the same type and the same operations
//! as in the builder module, with `optional` for `allow_missing` and
//! `overryde` for `override_duplicates`.

use vstd::prelude::*;
pub use crate::builder::{
    dotenv, from_filename, from_path, from_read, BuilderFinalizer, FileSource, ReadSource,
};
use crate::builder::Builder;

verus! {

/// The configuration under its short name.
pub type Builder2<S> = Builder<S>;

impl Builder2<FileSource> {
    /// Asks for a file that cannot be found to be tolerated.
    pub fn optional(self) -> (r: Self)
        ensures
            r.source().raw() == self.source().raw(),
            r.source().consumed() == self.source().consumed(),
            r.source().tolerant(),
            r.overrides() == self.overrides(),
    {
        self.allow_missing()
    }
}

impl<S> Builder2<S> {
    /// Asks for values that are set already to be replaced.
    pub fn overryde(self) -> (r: Self)
        ensures
            r.source() == self.source(),
            r.overrides(),
    {
        self.override_duplicates()
    }
}

} // verus!
