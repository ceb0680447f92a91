//! The four fixed time bands of a day over which usage is aggregated.

use vstd::prelude::*;

verus! {

/// A window of the day: Morning (0600-1000), Afternoon (1000-1500),
/// Evening (1500-1900) or Night (1900-0600).
///
/// The enumeration order Morning, Afternoon, Evening, Night is the
/// deterministic tie-break order of the busiest-time query: among equal
/// maxima the earlier band wins.
#[derive(Clone, Copy, Debug, PartialEq, Eq, Structural)]
pub enum Band {
    Morning,
    Afternoon,
    Evening,
    Night,
}

} // verus!
