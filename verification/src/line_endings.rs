use vstd::prelude::*;

verus! {

/// The line-ending flavor of the on-disk version of a file.
///
/// Texts held in memory are always `\n`-separated; this records what the
/// disk version used, so that a host can write the file back faithfully.
#[derive(Debug, Clone, Copy, PartialEq, Eq, Hash, Structural)]
pub enum LineEndings {
    Unix,
    Dos,
}

impl Default for LineEndings {
    fn default() -> (r: Self)
        ensures
            r == LineEndings::Unix,
    {
        LineEndings::Unix
    }
}

} // verus!
