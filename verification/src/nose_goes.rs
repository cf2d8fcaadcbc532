//! The nose-goes elimination round as a state machine.
//!
//! Between rounds the machine waits for the next start time. A round begins
//! once that time has come and more than one player is live; all live players
//! take part. While the round runs, a player may declare itself out and so
//! leave the round, as long as it is not the last one in it. The round ends
//! when its time is up or when at most one player is left in it; whoever is
//! still in the round then is knocked out of the game.
//!
//! This module holds the state, the decision that a tick of the clock leads
//! to, and the players' own move. The engine carries the decision out.

use crate::error::Error;
use crate::filters::lemma_filter_members;
use crate::ids::{absent_from, lemma_index_of_unique, lemma_remove_unique, position_of};
use crate::player::PlayerId;
use vstd::prelude::*;

verus! {

/// The state of the nose-goes machine. Times are in milliseconds.
#[derive(Debug, PartialEq, Eq)]
pub enum NoseGoes {
    /// No round is running.
    Inactive {
        /// The time from which the next round may begin.
        next_start_time: u64,
    },
    /// A round is running.
    InProgress {
        /// The time at which the round was due to begin.
        start_time: u64,
        /// The time at which the round ends.
        end_time: u64,
        /// The players still in the round, each one once.
        remaining_players: Vec<PlayerId>,
    },
}

/// What a `NoseGoes` holds, as mathematical values.
pub ghost enum NoseGoesView {
    Inactive { next_start_time: u64 },
    InProgress { start_time: u64, end_time: u64, remaining_players: Seq<PlayerId> },
}

impl View for NoseGoes {
    type V = NoseGoesView;

    open spec fn view(&self) -> NoseGoesView {
        match *self {
            NoseGoes::Inactive { next_start_time } => NoseGoesView::Inactive { next_start_time },
            NoseGoes::InProgress { start_time, end_time, remaining_players } => {
                NoseGoesView::InProgress {
                    start_time,
                    end_time,
                    remaining_players: remaining_players@,
                }
            },
        }
    }
}

/// What a tick of the clock leads the machine to do.
#[derive(Debug, Clone, Copy, PartialEq, Eq, Structural)]
pub enum Transition {
    /// Nothing changes.
    Stay,
    /// A round is due, but too few players are live: the start is put off by
    /// one interval.
    Defer,
    /// A round begins with all live players.
    Begin,
    /// The round ends, and the players still in it are knocked out.
    End,
}

/// The answer to a player who declares itself out of the round.
#[derive(Debug, Clone, Copy, PartialEq, Eq, Structural)]
pub enum NoseGoesResponse {
    /// The player has left the round in time and stays in the game.
    Survived,
    /// The player was the last one in the round and will be knocked out.
    Died,
}

impl NoseGoesView {
    /// The players still in the round; none while no round is running.
    pub open spec fn remaining(self) -> Seq<PlayerId> {
        match self {
            NoseGoesView::Inactive { .. } => Seq::empty(),
            NoseGoesView::InProgress { remaining_players, .. } => remaining_players,
        }
    }

    /// The time that the machine waits for: the next start between rounds,
    /// the end of the round during one.
    pub open spec fn deadline(self) -> u64 {
        match self {
            NoseGoesView::Inactive { next_start_time } => next_start_time,
            NoseGoesView::InProgress { end_time, .. } => end_time,
        }
    }

    /// The state's invariant: no player is in the round twice.
    pub open spec fn wf(self) -> bool {
        self.remaining().no_duplicates()
    }

    /// What a tick at the time `now`, with `live` players in the game, leads
    /// the machine to do.
    pub open spec fn decide(self, now: u64, live: nat) -> Transition {
        match self {
            NoseGoesView::Inactive { next_start_time } => {
                if now < next_start_time {
                    Transition::Stay
                } else if live <= 1 {
                    Transition::Defer
                } else {
                    Transition::Begin
                }
            },
            NoseGoesView::InProgress { end_time, remaining_players, .. } => {
                if now < end_time && remaining_players.len() > 1 {
                    Transition::Stay
                } else {
                    Transition::End
                }
            },
        }
    }

    /// The state after the player `id` has declared itself out.
    ///
    /// The player leaves the round if a round is running, the player is in it
    /// and is not the only one left. In every other case nothing changes.
    pub open spec fn after_resolve(self, id: PlayerId) -> NoseGoesView {
        match self {
            NoseGoesView::InProgress { start_time, end_time, remaining_players } => {
                if remaining_players.contains(id) && remaining_players.len() > 1 {
                    NoseGoesView::InProgress {
                        start_time,
                        end_time,
                        remaining_players: remaining_players.remove(remaining_players.index_of(id)),
                    }
                } else {
                    self
                }
            },
            NoseGoesView::Inactive { .. } => self,
        }
    }

    /// The state once the players `gone` have left the game: they are no
    /// longer in the round. The others keep their places.
    pub open spec fn without(self, gone: Seq<PlayerId>) -> NoseGoesView {
        match self {
            NoseGoesView::InProgress { start_time, end_time, remaining_players } => {
                NoseGoesView::InProgress {
                    start_time,
                    end_time,
                    remaining_players: remaining_players.filter(absent_from(gone)),
                }
            },
            NoseGoesView::Inactive { .. } => self,
        }
    }

    /// The answer to the player `id` who declares itself out.
    pub open spec fn resolve_outcome(self, id: PlayerId) -> Result<NoseGoesResponse, Error> {
        if self is InProgress && self.remaining().contains(id) {
            if self.remaining().len() > 1 {
                Ok(NoseGoesResponse::Survived)
            } else {
                Ok(NoseGoesResponse::Died)
            }
        } else {
            Err(Error::InvalidNoseGoes)
        }
    }
}

impl NoseGoes {
    /// The machine between rounds, with the first round due at
    /// `first_round_at`.
    pub fn new(first_round_at: u64) -> (state: NoseGoes)
        ensures
            state@ == (NoseGoesView::Inactive { next_start_time: first_round_at }),
            state@.wf(),
    {
        NoseGoes::Inactive { next_start_time: first_round_at }
    }

    /// Whether a round is running.
    pub fn in_progress(&self) -> (running: bool)
        ensures
            running == (self@ is InProgress),
    {
        match self {
            NoseGoes::Inactive { .. } => false,
            NoseGoes::InProgress { .. } => true,
        }
    }

    /// The time that the machine waits for: the next start between rounds,
    /// the end of the round during one.
    pub fn deadline(&self) -> (time: u64)
        ensures
            time == self@.deadline(),
    {
        match self {
            NoseGoes::Inactive { next_start_time } => *next_start_time,
            NoseGoes::InProgress { end_time, .. } => *end_time,
        }
    }

    /// What a tick at the time `now`, with `live` players in the game, leads
    /// the machine to do. The state itself is not changed.
    pub fn decide(&self, now: u64, live: usize) -> (transition: Transition)
        ensures
            transition == self@.decide(now, live as nat),
    {
        match self {
            NoseGoes::Inactive { next_start_time } => {
                if now < *next_start_time {
                    Transition::Stay
                } else if live <= 1 {
                    Transition::Defer
                } else {
                    Transition::Begin
                }
            },
            NoseGoes::InProgress { end_time, remaining_players, .. } => {
                if now < *end_time && remaining_players.len() > 1 {
                    Transition::Stay
                } else {
                    Transition::End
                }
            },
        }
    }

    /// Takes the players `gone`, who have left the game, out of the round.
    pub fn drop_players(&mut self, gone: &Vec<PlayerId>)
        requires
            old(self)@.wf(),
        ensures
            final(self)@.wf(),
            final(self)@ == old(self)@.without(gone@),
    {
        match self {
            NoseGoes::Inactive { .. } => {},
            NoseGoes::InProgress { remaining_players, .. } => {
                let ghost before = remaining_players@;
                let mut kept: Vec<PlayerId> = Vec::new();
                let mut i: usize = 0;
                proof {
                    reveal(Seq::filter);
                    assert(before.take(0).filter(absent_from(gone@)) =~= Seq::<PlayerId>::empty());
                }
                while i < remaining_players.len()
                    invariant
                        i <= before.len(),
                        remaining_players@ == before,
                        kept@ == before.take(i as int).filter(absent_from(gone@)),
                    decreases before.len() - i,
                {
                    proof {
                        assert(before.take(i + 1) =~= before.take(i as int).push(before[i as int]));
                        before.take(i as int).lemma_filter_push(
                            before[i as int],
                            absent_from(gone@),
                        );
                    }
                    if position_of(gone, remaining_players[i]).is_none() {
                        kept.push(remaining_players[i]);
                    }
                    i = i + 1;
                }
                proof {
                    assert(before.take(i as int) =~= before);
                    lemma_filter_members(before, absent_from(gone@));
                }
                *remaining_players = kept;
            },
        }
    }

    /// The player `id` declares itself out of the round.
    ///
    /// With more than one player left in the round, the player leaves it and
    /// has survived. The last player left cannot leave: the answer is `Died`,
    /// the state stays as it is, and the next tick ends the round.
    ///
    /// # Errors
    ///
    /// `InvalidNoseGoes` if no round is running or the player is not in the
    /// round; the state is then left as it was.
    pub fn resolve(&mut self, id: PlayerId) -> (result: Result<NoseGoesResponse, Error>)
        requires
            old(self)@.wf(),
        ensures
            final(self)@.wf(),
            result == old(self)@.resolve_outcome(id),
            final(self)@ == old(self)@.after_resolve(id),
    {
        match self {
            NoseGoes::Inactive { .. } => Err(Error::InvalidNoseGoes),
            NoseGoes::InProgress { remaining_players, .. } => {
                match position_of(remaining_players, id) {
                    None => Err(Error::InvalidNoseGoes),
                    Some(i) => {
                        if remaining_players.len() > 1 {
                            proof {
                                lemma_index_of_unique(remaining_players@, i as int);
                                lemma_remove_unique(remaining_players@, i as int);
                            }
                            remaining_players.remove(i);
                            Ok(NoseGoesResponse::Survived)
                        } else {
                            Ok(NoseGoesResponse::Died)
                        }
                    },
                }
            },
        }
    }
}

/// A round never gains a player: whoever is in the round after a player has
/// declared itself out was in it before, and everyone but that player stays.
pub proof fn lemma_resolve_only_shrinks(state: NoseGoesView, id: PlayerId)
    requires
        state.wf(),
    ensures
        state.after_resolve(id).wf(),
        state.after_resolve(id) is InProgress <==> state is InProgress,
        state.after_resolve(id).deadline() == state.deadline(),
        state.after_resolve(id).remaining().len() <= state.remaining().len(),
        forall|other: PlayerId|
            state.after_resolve(id).remaining().contains(other) ==> state.remaining().contains(
                other,
            ),
        forall|other: PlayerId|
            other != id && state.remaining().contains(other) ==> state.after_resolve(
                id,
            ).remaining().contains(other),
        state.remaining().len() > 1 ==> !state.after_resolve(id).remaining().contains(id),
        state.remaining().len() >= 1 ==> state.after_resolve(id).remaining().len() >= 1,
{
    if state is InProgress && state.remaining().contains(id) && state.remaining().len() > 1 {
        let list = state.remaining();
        let i = list.index_of(id);
        lemma_remove_unique(list, i);
    }
}

/// A running round ends at a tick exactly when its time is up or at most one
/// player is left in it, and in no other case; between rounds a tick never
/// ends anything, and a round begins only once its start time has come and
/// more than one player is live.
pub proof fn lemma_round_ends_exactly_when_due(state: NoseGoesView, now: u64, live: nat)
    ensures
        state is InProgress ==> (state.decide(now, live) == Transition::End <==> (now
            >= state.deadline() || state.remaining().len() <= 1)),
        state is InProgress ==> (state.decide(now, live) == Transition::Stay <==> (now
            < state.deadline() && state.remaining().len() > 1)),
        state is Inactive ==> state.decide(now, live) != Transition::End,
        state.decide(now, live) == Transition::Begin <==> (state is Inactive && now
            >= state.deadline() && live > 1),
        state.decide(now, live) == Transition::Defer <==> (state is Inactive && now
            >= state.deadline() && live <= 1),
{
}

} // verus!
