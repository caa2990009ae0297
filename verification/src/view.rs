use vstd::prelude::*;

verus! {

/// Which screen the interface shows.
#[derive(Debug, Clone, Copy, PartialEq, Eq)]
pub enum ViewMode {
    /// Main list view showing all targets.
    List,
    /// Detail view for a single target.
    Detail,
}

} // verus!
