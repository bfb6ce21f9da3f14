use vstd::prelude::*;

verus! {

/// Resolution of the target interpreter failed.
#[derive(Debug)]
pub enum ResolveError {
    /// The launcher path has no containing directory.
    NoParent,
    /// No `ruby` entry exists beside the launcher; carries the attempted path.
    NotFound { attempted: String },
}

/// A name or value cannot become an environment block entry because it holds
/// an embedded NUL character.
#[derive(Debug)]
pub struct EnvironmentEncodingError;

} // verus!
