//! Decisions of the command line.

use vstd::prelude::*;

verus! {

/// Whether to strip a single top-level directory, as the command line asks:
/// `Some(true)` for `--strip`, `Some(false)` for `--no-strip`, and `None` when
/// neither is given and the configured preference decides.
pub fn strip_preference(strip: bool, no_strip: bool) -> (r: Option<bool>)
    ensures
        r == (if strip {
            Some(true)
        } else if no_strip {
            Some(false)
        } else {
            None::<bool>
        }),
{
    if strip {
        Some(true)
    } else if no_strip {
        Some(false)
    } else {
        None
    }
}

} // verus!
