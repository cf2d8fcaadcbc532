//! The errors that engine operations report.

use crate::player::PlayerId;
use vstd::prelude::*;

verus! {

/// The error type for operations that can fail.
#[derive(Debug, Clone, Copy, PartialEq, Eq, Structural)]
pub enum Error {
    /// The operation named a player that is not in the registry.
    ///
    /// This happens when a client holds an identifier from an earlier session,
    /// or that of a player who has been eliminated. Registering again gives
    /// the client a valid identifier.
    InvalidPlayer(PlayerId),
    /// A nose-goes request was not valid: either no round is in progress, or
    /// the player does not take part in the round.
    InvalidNoseGoes,
    /// The identifier allocated for a new player is already in the registry.
    ///
    /// A registry that is only ever filled from one generator never reports
    /// this.
    DuplicateId(PlayerId),
}

} // verus!
