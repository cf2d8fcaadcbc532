//! The commands that clients send, each carried out on the game and
//! answered with a plain value.
//!
//! A command arrives already decoded. The function for it changes the game,
//! publishes what host displays need to know, and returns the answer for the
//! client.

use crate::broadcast::{published, Broadcaster};
use crate::events::{HostBroadcast, HostBroadcastView};
use crate::game::Game;
use crate::names::{generate_username, is_username};
use crate::player::PlayerDataView;
use crate::registry::{has_player, index_of};
use vstd::prelude::*;

pub use crate::error::Error;
pub use crate::nose_goes::NoseGoesResponse;
pub use crate::player::{PlayerData, PlayerId};

verus! {

/// The answer to a registration.
#[derive(Debug, PartialEq, Eq)]
pub struct RegisterPlayerResponse {
    /// The identifier of the new player.
    pub id: PlayerId,
    /// The display name of the new player.
    pub name: String,
    /// The player's starting score.
    pub score: usize,
    /// The marbles in the player's food pile.
    pub inventory_count: usize,
}

impl View for RegisterPlayerResponse {
    type V = PlayerDataView;

    open spec fn view(&self) -> PlayerDataView {
        PlayerDataView {
            id: self.id,
            name: self.name@,
            score: self.score,
            inventory_count: self.inventory_count,
        }
    }
}

/// The request to feed a hippo.
#[derive(Debug, Clone, Copy, PartialEq, Eq, Structural)]
pub struct FeedMeRequest {
    /// The player whose hippo is fed.
    pub id: PlayerId,
}

/// The answer to a feeding.
#[derive(Debug, Clone, Copy, PartialEq, Eq, Structural)]
pub struct FeedMeResponse {
    /// The player's score after the feeding.
    pub score: usize,
}

/// The answer to a request for the list of players.
#[derive(Debug, PartialEq, Eq)]
pub struct PlayersResponse {
    /// The live players, in the order in which they registered.
    pub players: Vec<PlayerData>,
}

/// Registers a new player under the name `name` at the time `now`, and tells
/// host displays of it with one `PlayerRegistered`.
pub fn register_named(
    game: &mut Game,
    broadcaster: &mut Broadcaster<HostBroadcast>,
    name: String,
    now: u64,
) -> (response: RegisterPlayerResponse)
    requires
        old(game).wf(),
        old(broadcaster).wf(),
        old(game)@.issued < u64::MAX,
        now + old(game)@.config.eat_interval <= u64::MAX,
    ensures
        final(game).wf(),
        final(game)@ == old(game)@.after_register(name@, now),
        response@ == old(game)@.newcomer(name@, now).public_data(),
        !has_player(old(game)@.players, response.id),
        final(broadcaster).wf(),
        final(broadcaster).issued() == old(broadcaster).issued(),
        final(broadcaster)@ == published(
            old(broadcaster)@,
            seq![
                HostBroadcastView::PlayerRegistered {
                    id: response.id,
                    name: name@,
                    score: 0,
                    inventory: old(game)@.config.starting_marbles,
                },
            ],
        ),
{
    let player = game.register(name, now);
    broadcaster.send(
        HostBroadcast::PlayerRegistered {
            id: player.id,
            name: player.name.clone(),
            score: player.score,
            inventory: player.marbles,
        },
    );
    RegisterPlayerResponse {
        id: player.id,
        name: player.name,
        score: player.score,
        inventory_count: player.marbles,
    }
}

/// Registers a new player at the time `now` under a name picked at random
/// from `USERNAMES`, and tells host displays of it with one
/// `PlayerRegistered`.
///
/// The answer holds the player's identifier, which no player of this game
/// has or has had, the name picked, score 0 and a full food pile.
pub fn register_player(
    game: &mut Game,
    broadcaster: &mut Broadcaster<HostBroadcast>,
    now: u64,
) -> (response: RegisterPlayerResponse)
    requires
        old(game).wf(),
        old(broadcaster).wf(),
        old(game)@.issued < u64::MAX,
        now + old(game)@.config.eat_interval <= u64::MAX,
    ensures
        final(game).wf(),
        is_username(response.name@),
        final(game)@ == old(game)@.after_register(response.name@, now),
        response@ == old(game)@.newcomer(response.name@, now).public_data(),
        !has_player(old(game)@.players, response.id),
        final(broadcaster).wf(),
        final(broadcaster).issued() == old(broadcaster).issued(),
        final(broadcaster)@ == published(
            old(broadcaster)@,
            seq![
                HostBroadcastView::PlayerRegistered {
                    id: response.id,
                    name: response.name@,
                    score: 0,
                    inventory: old(game)@.config.starting_marbles,
                },
            ],
        ),
{
    let name = generate_username();
    register_named(game, broadcaster, name, now)
}

/// Feeds the hippo of the player named in `payload`: adds one point to the
/// player's score, and tells host displays of it with one `HippoEat`.
///
/// # Errors
///
/// `InvalidPlayer` if no such player is live. The game is then left as it
/// was, and nothing is published.
pub fn feed_player(
    payload: FeedMeRequest,
    game: &mut Game,
    broadcaster: &mut Broadcaster<HostBroadcast>,
) -> (result: Result<FeedMeResponse, Error>)
    requires
        old(game).wf(),
        old(broadcaster).wf(),
        has_player(old(game)@.players, payload.id) ==> old(game)@.players[index_of(
            old(game)@.players,
            payload.id,
        )].score < usize::MAX,
    ensures
        final(game).wf(),
        final(game)@ == old(game)@.after_feed(payload.id),
        final(broadcaster).wf(),
        final(broadcaster).issued() == old(broadcaster).issued(),
        match result {
            Ok(response) => {
                let player = old(game)@.players[index_of(old(game)@.players, payload.id)];
                &&& has_player(old(game)@.players, payload.id)
                &&& response.score == player.score + 1
                &&& final(broadcaster)@ == published(
                    old(broadcaster)@,
                    seq![
                        HostBroadcastView::HippoEat {
                            id: payload.id,
                            score: response.score,
                            inventory: player.marbles,
                        },
                    ],
                )
            },
            Err(error) => {
                &&& !has_player(old(game)@.players, payload.id)
                &&& error == Error::InvalidPlayer(payload.id)
                &&& final(game)@ == old(game)@
                &&& final(broadcaster)@ == old(broadcaster)@
            },
        },
{
    let id = payload.id;
    let inventory = match game.players().get(id) {
        Some(player) => player.marbles,
        None => 0,
    };
    match game.feed(id) {
        Ok(score) => {
            broadcaster.send(HostBroadcast::HippoEat { id, score, inventory });
            Ok(FeedMeResponse { score })
        },
        Err(error) => Err(error),
    }
}

/// The player `id` declares itself out of the nose-goes round.
///
/// With more than one player left in the round, the player leaves it and
/// the answer is `Survived`. The last player left cannot leave: the answer
/// is `Died`, nothing changes, and the next tick ends the round and removes
/// the player.
///
/// # Errors
///
/// `InvalidNoseGoes` if no round is running or the player is not in the
/// round; the game is then left as it was.
pub fn nose_goes(id: PlayerId, game: &mut Game) -> (result: Result<NoseGoesResponse, Error>)
    requires
        old(game).wf(),
    ensures
        final(game).wf(),
        result == old(game)@.nose_goes.resolve_outcome(id),
        final(game)@ == old(game)@.after_resolve(id),
{
    game.resolve(id)
}

/// The live players with their public fields, in the order in which they
/// registered. The game is not changed.
pub fn get_players(game: &Game) -> (response: PlayersResponse)
    ensures
        response.players@.len() == game@.players.len(),
        forall|i: int|
            0 <= i < game@.players.len() ==> (#[trigger] response.players@[i])@
                == game@.players[i].public_data(),
{
    PlayersResponse { players: game.snapshot() }
}

} // verus!
