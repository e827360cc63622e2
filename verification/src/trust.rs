//! What the trust in a source decides: how forgiving its values are read,
//! and whether the files that it names are followed at all. Configuration
//! that is found in a place which others control must not act with the
//! authority of the user's own.

use crate::cache::Options;
use crate::file::{Source, Trust};
use vstd::prelude::*;

verus! {

/// Whether values that cannot be read are passed over: as the caller
/// demands; where the caller demands nothing, for sources of reduced trust.
pub open spec fn leniency(trust: Trust, strict: Option<bool>) -> bool {
    match strict {
        Some(s) => !s,
        None => trust == Trust::Reduced,
    }
}

/// Whether values that cannot be read are passed over.
pub fn lenient_for(trust: Trust, strict: Option<bool>) -> (r: bool)
    ensures
        r == leniency(trust, strict),
{
    match strict {
        Some(s) => !s,
        None => trust == Trust::Reduced,
    }
}

/// The options under which a source is read: those that were asked for,
/// but without following nested files where the trust is reduced.
pub open spec fn options_under(trust: Trust, requested: Options) -> Options {
    match trust {
        Trust::Full => requested,
        Trust::Reduced => Options { max_depth: 0, ..requested },
    }
}

/// The options under which a source of the given trust is read.
pub fn options_for(trust: Trust, requested: Options) -> (o: Options)
    ensures
        o == options_under(trust, requested),
{
    match trust {
        Trust::Full => requested,
        Trust::Reduced => requested.no_follow(),
    }
}

impl Source {
    /// The place of a scope in the order in which sources are layered:
    /// scopes of higher rank are appended later and so take precedence.
    pub open spec fn rank_of(self) -> u8 {
        match self {
            Source::System => 0,
            Source::Global => 1,
            Source::Local => 2,
            Source::Worktree => 3,
            Source::Env => 4,
            Source::Cli => 5,
        }
    }

    /// The place of the scope in the order in which sources are layered.
    pub fn rank(self) -> (r: u8)
        ensures
            r == self.rank_of(),
    {
        match self {
            Source::System => 0,
            Source::Global => 1,
            Source::Local => 2,
            Source::Worktree => 3,
            Source::Env => 4,
            Source::Cli => 5,
        }
    }
}

/// A source of reduced trust is read without following nested files,
/// whatever was asked for, and forgivingly unless strictness is demanded.
pub proof fn lemma_reduced_trust(requested: Options)
    ensures
        options_under(Trust::Reduced, requested).max_depth == 0,
        options_under(Trust::Reduced, requested).lossy == requested.lossy,
        leniency(Trust::Reduced, None),
        !leniency(Trust::Reduced, Some(true)),
        !leniency(Trust::Full, None),
{
}

} // verus!
