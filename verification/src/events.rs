//! The events that the engine publishes.
//!
//! Events are facts about a change that has happened. Host displays and
//! player clients each have a channel of their own, with its own set of
//! events.

use crate::ids::copy_ids;
use crate::player::PlayerId;
use vstd::prelude::*;

verus! {

/// An event for host displays.
#[derive(Debug, PartialEq, Eq)]
pub enum HostBroadcast {
    /// A new player has joined the game.
    PlayerRegistered {
        /// The identifier of the new player.
        id: PlayerId,
        /// The player's display name.
        name: String,
        /// The player's starting score.
        score: usize,
        /// The marbles in the player's food pile.
        inventory: usize,
    },
    /// A hippo has eaten: the player's score has gone up.
    HippoEat {
        /// The player whose hippo ate.
        id: PlayerId,
        /// The player's score after the meal.
        score: usize,
        /// The marbles left in the player's food pile.
        inventory: usize,
    },
    /// A nose-goes round has begun.
    BeginNoseGoes {
        /// How long the round lasts, in milliseconds.
        duration: u64,
        /// The players that take part.
        players: Vec<PlayerId>,
    },
    /// A nose-goes round has ended.
    EndNoseGoes {
        /// The players that the round has knocked out.
        losers: Vec<PlayerId>,
    },
    /// The player with the highest score has changed.
    UpdateWinner {
        /// The player now in the lead.
        id: PlayerId,
    },
}

/// What a `HostBroadcast` holds, as mathematical values.
pub ghost enum HostBroadcastView {
    PlayerRegistered { id: PlayerId, name: Seq<char>, score: usize, inventory: usize },
    HippoEat { id: PlayerId, score: usize, inventory: usize },
    BeginNoseGoes { duration: u64, players: Seq<PlayerId> },
    EndNoseGoes { losers: Seq<PlayerId> },
    UpdateWinner { id: PlayerId },
}

impl View for HostBroadcast {
    type V = HostBroadcastView;

    open spec fn view(&self) -> HostBroadcastView {
        match *self {
            HostBroadcast::PlayerRegistered { id, name, score, inventory } => {
                HostBroadcastView::PlayerRegistered { id, name: name@, score, inventory }
            },
            HostBroadcast::HippoEat { id, score, inventory } => HostBroadcastView::HippoEat {
                id,
                score,
                inventory,
            },
            HostBroadcast::BeginNoseGoes { duration, players } => {
                HostBroadcastView::BeginNoseGoes { duration, players: players@ }
            },
            HostBroadcast::EndNoseGoes { losers } => HostBroadcastView::EndNoseGoes {
                losers: losers@,
            },
            HostBroadcast::UpdateWinner { id } => HostBroadcastView::UpdateWinner { id },
        }
    }
}

impl Clone for HostBroadcast {
    fn clone(&self) -> (copy: HostBroadcast)
        ensures
            copy@ == self@,
    {
        match self {
            HostBroadcast::PlayerRegistered { id, name, score, inventory } => {
                HostBroadcast::PlayerRegistered {
                    id: *id,
                    name: name.clone(),
                    score: *score,
                    inventory: *inventory,
                }
            },
            HostBroadcast::HippoEat { id, score, inventory } => HostBroadcast::HippoEat {
                id: *id,
                score: *score,
                inventory: *inventory,
            },
            HostBroadcast::BeginNoseGoes { duration, players } => HostBroadcast::BeginNoseGoes {
                duration: *duration,
                players: copy_ids(players),
            },
            HostBroadcast::EndNoseGoes { losers } => HostBroadcast::EndNoseGoes {
                losers: copy_ids(losers),
            },
            HostBroadcast::UpdateWinner { id } => HostBroadcast::UpdateWinner { id: *id },
        }
    }
}

/// An event for player clients.
#[derive(Debug, Clone, Copy, PartialEq, Eq, Structural)]
pub enum PlayerBroadcast {
    /// A nose-goes round has begun: players should be asked to take part.
    BeginNoseGoes,
    /// A nose-goes round has ended.
    EndNoseGoes,
    /// A player has lost the game and has been removed.
    PlayerLose {
        /// The player that lost.
        id: PlayerId,
        /// The player's final score.
        score: usize,
    },
    /// The player with the highest score has changed.
    UpdateWinner {
        /// The player now in the lead.
        id: PlayerId,
    },
}

impl View for PlayerBroadcast {
    type V = PlayerBroadcast;

    open spec fn view(&self) -> PlayerBroadcast {
        *self
    }
}

} // verus!
