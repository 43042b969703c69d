use vstd::prelude::*;

verus! {

/// The content of the ignore marker kept beside the generated packages:
/// every generated directory is left out of version control.
pub const IGNORE_MARKER: &'static str = "*/**";

/// Options of a synthesis run.
pub struct BuildOptions<F: Fn()> {
    /// Called once when discovery finds no fragment, so that the caller can
    /// stop cleanly.
    pub no_minicrates: Option<F>,
}

impl<F: Fn()> BuildOptions<F> {
    /// Whether the run stops here because discovery found no fragment; in
    /// that case the empty-set hook, where one is set, has been called.
    pub fn short_circuit(&self, found: usize) -> (r: bool)
        requires
            self.no_minicrates matches Some(f) ==> f.requires(()),
        ensures
            r == (found == 0),
    {
        if found == 0 {
            match &self.no_minicrates {
                Some(f) => {
                    f();
                },
                None => {},
            }
            true
        } else {
            false
        }
    }
}

} // verus!
