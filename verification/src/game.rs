//! The game engine: the registry of players, the nose-goes machine and the
//! current winner, kept consistent with each other.
//!
//! Every operation is one atomic step of the game. The engine's model,
//! `GameView`, says for each step what the game looks like afterwards and
//! which events the step publishes; the operations are proved to do exactly
//! that. A caller that shares the engine between threads takes one lock for
//! the whole of each step.

use crate::broadcast::{published, views_of, Broadcaster};
use crate::error::Error;
use crate::events::{HostBroadcast, HostBroadcastView, PlayerBroadcast};
use crate::filters::{lemma_filter_agree, lemma_filter_members, lemma_filter_of_filter};
use crate::ids::{absent_from, copy_ids};
use crate::nose_goes::{NoseGoes, NoseGoesResponse, NoseGoesView, Transition};
use crate::player::{Player, PlayerData, PlayerId, PlayerIdGenerator, PlayerView};
use crate::registry::{
    after_feed, after_meals, after_remove, among, distinct_ids, eating_at, has_player, ids_of, index_of, leader,
    lemma_filter_players, lemma_ids_of_distinct, lemma_index_of_position, lemma_meals_keep_ids,
    meal_events, meals_fit, new_player, outside, player_views, starving_at, PlayerRegistry,
};
use vstd::prelude::*;

verus! {

/// The settings of a game. Times are in milliseconds.
#[derive(Debug, Clone, Copy, PartialEq, Eq, Structural)]
pub struct GameConfig {
    /// How long a nose-goes round lasts.
    pub nose_goes_duration: u64,
    /// The pause between the end of a round and the start of the next one,
    /// and the time by which a round is put off for want of players.
    pub nose_goes_interval: u64,
    /// The time between two meals of a hippo.
    pub eat_interval: u64,
    /// The marbles in the food pile of a player who registers.
    pub starting_marbles: usize,
}

/// The state of a game.
pub struct Game {
    players: PlayerRegistry,
    ids: PlayerIdGenerator,
    nose_goes: NoseGoes,
    winner: Option<PlayerId>,
    config: GameConfig,
}

/// The state of a game, as mathematical values.
pub ghost struct GameView {
    /// The live players, in the order in which they registered.
    pub players: Seq<PlayerView>,
    /// The number of identifiers handed out so far.
    pub issued: nat,
    /// The state of the nose-goes machine.
    pub nose_goes: NoseGoesView,
    /// The winner as last worked out.
    pub winner: Option<PlayerId>,
    /// The settings of the game.
    pub config: GameConfig,
}

impl View for Game {
    type V = GameView;

    closed spec fn view(&self) -> GameView {
        GameView {
            players: self.players@,
            issued: self.ids.issued(),
            nose_goes: self.nose_goes@,
            winner: self.winner,
            config: self.config,
        }
    }
}

/// The test for a player who does not starve at the time `now`.
pub open spec fn surviving_at(now: u64) -> spec_fn(PlayerView) -> bool {
    |p: PlayerView| !p.starves(now)
}

/// The event that reports the loss of `player`.
pub open spec fn loss_event(player: PlayerView) -> PlayerBroadcast {
    PlayerBroadcast::PlayerLose { id: player.id, score: player.score }
}

/// The events that report the loss of each of `players`, in their order.
pub open spec fn loss_events(players: Seq<PlayerView>) -> Seq<PlayerBroadcast> {
    players.map_values(|p: PlayerView| loss_event(p))
}

/// The event for host displays on a change of winner from `before` to
/// `after`: one `UpdateWinner` if there is a winner and it is a new one.
pub open spec fn host_winner_events(before: Option<PlayerId>, after: Option<PlayerId>) -> Seq<
    HostBroadcastView,
> {
    match after {
        Some(id) if before != after => seq![HostBroadcastView::UpdateWinner { id }],
        _ => Seq::empty(),
    }
}

/// The event for player clients on a change of winner from `before` to
/// `after`: one `UpdateWinner` if there is a winner and it is a new one.
pub open spec fn player_winner_events(before: Option<PlayerId>, after: Option<PlayerId>) -> Seq<
    PlayerBroadcast,
> {
    match after {
        Some(id) if before != after => seq![PlayerBroadcast::UpdateWinner { id }],
        _ => Seq::empty(),
    }
}

impl GameView {
    /// The game's invariant: no two players share an identifier, every
    /// player's identifier has been handed out by the game's generator, and
    /// whoever is in the nose-goes round is a live player, and in it once.
    pub open spec fn wf(self) -> bool {
        &&& distinct_ids(self.players)
        &&& forall|id: PlayerId| #[trigger]
            has_player(self.players, id) ==> (id.0 as nat) < self.issued
        &&& self.nose_goes.wf()
        &&& forall|id: PlayerId| #[trigger]
            self.nose_goes.remaining().contains(id) ==> has_player(self.players, id)
    }

    /// The player that registers next under the name `name` at the time
    /// `now`: it has the next identifier, no score, a full food pile, and its
    /// first meal due one eating interval from now.
    pub open spec fn newcomer(self, name: Seq<char>, now: u64) -> PlayerView {
        new_player(
            PlayerId(self.issued as u64),
            name,
            self.config.starting_marbles,
            (now + self.config.eat_interval) as u64,
        )
    }

    /// The game after a player has registered under the name `name` at the
    /// time `now`.
    pub open spec fn after_register(self, name: Seq<char>, now: u64) -> GameView {
        GameView {
            players: self.players.push(self.newcomer(name, now)),
            issued: self.issued + 1,
            ..self
        }
    }

    /// The game after the player `id` has fed its hippo: one point more for
    /// that player, and no change if there is no such player.
    pub open spec fn after_feed(self, id: PlayerId) -> GameView {
        GameView { players: after_feed(self.players, id), ..self }
    }

    /// The game after the player `id` has been removed: the player is no
    /// longer in the game, nor in the nose-goes round. Nothing changes if
    /// there is no such player.
    pub open spec fn after_remove(self, id: PlayerId) -> GameView {
        if has_player(self.players, id) {
            GameView {
                players: after_remove(self.players, id),
                nose_goes: self.nose_goes.without(seq![id]),
                ..self
            }
        } else {
            self
        }
    }

    /// The game after the player `id` has declared itself out of the round.
    pub open spec fn after_resolve(self, id: PlayerId) -> GameView {
        GameView { nose_goes: self.nose_goes.after_resolve(id), ..self }
    }

    /// The players who starve at the time `now`, in the order in which they
    /// registered.
    pub open spec fn starved(self, now: u64) -> Seq<PlayerView> {
        self.players.filter(starving_at(now))
    }

    /// The game after the hippos have been fed at the time `now`.
    ///
    /// Every player whose hippo is due and finds the food pile empty is
    /// removed from the game, and from the nose-goes round if it is in it.
    /// Every other hippo that is due eats. The players that stay keep their
    /// order.
    pub open spec fn after_eating(self, now: u64) -> GameView {
        GameView {
            players: after_meals(
                self.players.filter(surviving_at(now)),
                now,
                self.config.eat_interval,
            ),
            nose_goes: self.nose_goes.without(ids_of(self.starved(now))),
            ..self
        }
    }

    /// What feeding the hippos at the time `now` tells host displays: one
    /// `HippoEat` for each meal.
    pub open spec fn eating_host_events(self, now: u64) -> Seq<HostBroadcastView> {
        meal_events(self.players, now)
    }

    /// What feeding the hippos at the time `now` tells player clients: one
    /// `PlayerLose` for each player who starves.
    pub open spec fn eating_player_events(self, now: u64) -> Seq<PlayerBroadcast> {
        loss_events(self.starved(now))
    }

    /// The players whom the end of the running round knocks out: those still
    /// in the round, in the order in which they registered.
    pub open spec fn losers(self) -> Seq<PlayerView> {
        self.players.filter(among(self.nose_goes.remaining()))
    }

    /// The players who are left after the end of the running round.
    pub open spec fn survivors(self) -> Seq<PlayerView> {
        self.players.filter(outside(self.nose_goes.remaining()))
    }

    /// The game after the nose-goes machine has made its move for a tick at
    /// the time `now`.
    ///
    /// - Between rounds, before the next start time: nothing changes.
    /// - Once the start time has come with at most one live player: the start
    ///   is put off by one interval.
    /// - Once the start time has come with more players: a round begins with
    ///   all of them, from the start time for the round's duration.
    /// - During a round, before its end and with more than one player in it:
    ///   nothing changes.
    /// - Once the round's time is up or at most one player is in it: the round
    ///   ends. Whoever is still in it is removed from the game, the winner is
    ///   worked out anew, and the next round is due one interval after the
    ///   end time.
    pub open spec fn after_round(self, now: u64) -> GameView {
        let deadline = self.nose_goes.deadline();
        match self.nose_goes.decide(now, self.players.len()) {
            Transition::Stay => self,
            Transition::Defer => GameView {
                nose_goes: NoseGoesView::Inactive {
                    next_start_time: (deadline + self.config.nose_goes_interval) as u64,
                },
                ..self
            },
            Transition::Begin => GameView {
                nose_goes: NoseGoesView::InProgress {
                    start_time: deadline,
                    end_time: (deadline + self.config.nose_goes_duration) as u64,
                    remaining_players: ids_of(self.players),
                },
                ..self
            },
            Transition::End => GameView {
                players: self.survivors(),
                nose_goes: NoseGoesView::Inactive {
                    next_start_time: (deadline + self.config.nose_goes_interval) as u64,
                },
                winner: leader(self.survivors()),
                ..self
            },
        }
    }

    /// What the nose-goes machine's move for a tick at the time `now` tells
    /// host displays.
    ///
    /// At the begin of a round: `BeginNoseGoes` with the round's duration and
    /// its players. At the end of a round: `EndNoseGoes` with the players
    /// knocked out, then `UpdateWinner` if there is a new winner.
    pub open spec fn round_host_events(self, now: u64) -> Seq<HostBroadcastView> {
        match self.nose_goes.decide(now, self.players.len()) {
            Transition::Begin => seq![
                HostBroadcastView::BeginNoseGoes {
                    duration: self.config.nose_goes_duration,
                    players: ids_of(self.players),
                },
            ],
            Transition::End => seq![
                HostBroadcastView::EndNoseGoes { losers: self.nose_goes.remaining() },
            ] + host_winner_events(self.winner, leader(self.survivors())),
            _ => Seq::empty(),
        }
    }

    /// What the nose-goes machine's move for a tick at the time `now` tells
    /// player clients.
    ///
    /// At the begin of a round: `BeginNoseGoes`. At the end of a round: one
    /// `PlayerLose` for each player knocked out, then `EndNoseGoes`, then
    /// `UpdateWinner` if there is a new winner.
    pub open spec fn round_player_events(self, now: u64) -> Seq<PlayerBroadcast> {
        match self.nose_goes.decide(now, self.players.len()) {
            Transition::Begin => seq![PlayerBroadcast::BeginNoseGoes],
            Transition::End => loss_events(self.losers()) + seq![PlayerBroadcast::EndNoseGoes]
                + player_winner_events(self.winner, leader(self.survivors())),
            _ => Seq::empty(),
        }
    }

    /// The game after a tick at the time `now`: first the hippos are fed,
    /// then the nose-goes machine makes its move.
    pub open spec fn after_tick(self, now: u64) -> GameView {
        self.after_eating(now).after_round(now)
    }

    /// What a tick at the time `now` tells host displays.
    pub open spec fn tick_host_events(self, now: u64) -> Seq<HostBroadcastView> {
        self.eating_host_events(now) + self.after_eating(now).round_host_events(now)
    }

    /// What a tick at the time `now` tells player clients.
    pub open spec fn tick_player_events(self, now: u64) -> Seq<PlayerBroadcast> {
        self.eating_player_events(now) + self.after_eating(now).round_player_events(now)
    }

    /// Whether the meals due at the time `now` can be counted in machine
    /// integers.
    pub open spec fn eating_fits(self, now: u64) -> bool {
        meals_fit(self.players, now, self.config.eat_interval)
    }

    /// Whether the times that the nose-goes machine may move to can be
    /// counted in machine integers.
    pub open spec fn round_fits(self) -> bool {
        &&& self.nose_goes.deadline() + self.config.nose_goes_interval <= u64::MAX
        &&& self.nose_goes.deadline() + self.config.nose_goes_duration <= u64::MAX
    }
}

/// Feeding the hippos keeps the game's invariant. It brings no player into
/// the game or into the round: who is live afterwards was live before, and
/// who is in the round afterwards was in it before. Whether a round is
/// running, and until when, does not change.
pub proof fn lemma_eating_keeps_wf(game: GameView, now: u64)
    requires
        game.wf(),
    ensures
        game.after_eating(now).wf(),
        game.after_eating(now).players.len() <= game.players.len(),
        forall|id: PlayerId|
            has_player(game.after_eating(now).players, id) ==> has_player(game.players, id),
        forall|id: PlayerId|
            game.after_eating(now).nose_goes.remaining().contains(id)
                ==> game.nose_goes.remaining().contains(id),
        game.after_eating(now).nose_goes.remaining().len() <= game.nose_goes.remaining().len(),
        game.after_eating(now).nose_goes is InProgress <==> game.nose_goes is InProgress,
        game.after_eating(now).nose_goes.deadline() == game.nose_goes.deadline(),
{
    let players = game.players;
    let alive = players.filter(surviving_at(now));
    let next = game.after_eating(now);
    let doomed = ids_of(game.starved(now));
    let remaining = game.nose_goes.remaining();
    lemma_filter_players(players, surviving_at(now));
    lemma_filter_players(players, starving_at(now));
    lemma_ids_of_distinct(game.starved(now));
    lemma_meals_keep_ids(alive, now, game.config.eat_interval);
    lemma_filter_members(remaining, absent_from(doomed));
    assert forall|id: PlayerId| has_player(next.players, id) implies has_player(players, id) by {
        assert(has_player(alive, id));
    }
    assert forall|id: PlayerId| #[trigger] has_player(next.players, id) implies (id.0 as nat)
        < next.issued by {
        assert(has_player(players, id));
    }
    assert forall|id: PlayerId| #[trigger] next.nose_goes.remaining().contains(id) implies has_player(
        next.players,
        id,
    ) by {
        assert(remaining.contains(id) && !doomed.contains(id));
        assert(has_player(players, id));
        assert(!has_player(game.starved(now), id));
        assert(has_player(alive, id));
    }
}

/// The move of the nose-goes machine keeps the game's invariant, and brings
/// no player into the game.
pub proof fn lemma_round_keeps_wf(game: GameView, now: u64)
    requires
        game.wf(),
    ensures
        game.after_round(now).wf(),
        game.after_round(now).players.len() <= game.players.len(),
        forall|id: PlayerId|
            has_player(game.after_round(now).players, id) ==> has_player(game.players, id),
{
    let next = game.after_round(now);
    match game.nose_goes.decide(now, game.players.len()) {
        Transition::Stay => {},
        Transition::Defer => {
            assert(next.nose_goes.remaining() =~= Seq::<PlayerId>::empty());
        },
        Transition::Begin => {
            lemma_ids_of_distinct(game.players);
        },
        Transition::End => {
            lemma_filter_players(game.players, outside(game.nose_goes.remaining()));
            assert(next.nose_goes.remaining() =~= Seq::<PlayerId>::empty());
            assert forall|id: PlayerId| #[trigger] has_player(next.players, id) implies (
            id.0 as nat) < next.issued by {
                assert(has_player(game.players, id));
            }
        },
    }
}

/// Removing a player keeps the game's invariant. It brings no player into
/// the round, and changes neither whether a round is running nor its times.
pub proof fn lemma_remove_keeps_wf(game: GameView, id: PlayerId)
    requires
        game.wf(),
    ensures
        game.after_remove(id).wf(),
        !has_player(game.after_remove(id).players, id),
        !game.after_remove(id).nose_goes.remaining().contains(id),
        forall|other: PlayerId|
            game.after_remove(id).nose_goes.remaining().contains(other)
                ==> game.nose_goes.remaining().contains(other),
        game.after_remove(id).nose_goes.remaining().len() <= game.nose_goes.remaining().len(),
        game.after_remove(id).nose_goes is InProgress <==> game.nose_goes is InProgress,
        game.after_remove(id).nose_goes.deadline() == game.nose_goes.deadline(),
{
    if has_player(game.players, id) {
        let next = game.after_remove(id);
        let i = index_of(game.players, id);
        crate::registry::lemma_remove_keeps_distinct(game.players, i);
        lemma_filter_members(game.nose_goes.remaining(), absent_from(seq![id]));
        assert(seq![id].contains(id)) by {
            assert(seq![id][0] == id);
        }
        assert forall|other: PlayerId| #[trigger] has_player(next.players, other) implies (
        other.0 as nat) < next.issued by {
            assert(has_player(game.players, other));
        }
        assert forall|other: PlayerId| #[trigger]
            next.nose_goes.remaining().contains(other) implies has_player(next.players, other) by {
            assert(game.nose_goes.remaining().contains(other));
            assert(other != id);
            assert(has_player(game.players, other));
        }
    } else {
        if game.nose_goes.remaining().contains(id) {
            assert(has_player(game.players, id));
        }
    }
}

/// The players that an event for host displays names.
pub open spec fn host_event_players(event: HostBroadcastView) -> Seq<PlayerId> {
    match event {
        HostBroadcastView::PlayerRegistered { id, .. } => seq![id],
        HostBroadcastView::HippoEat { id, .. } => seq![id],
        HostBroadcastView::BeginNoseGoes { players, .. } => players,
        HostBroadcastView::EndNoseGoes { losers } => losers,
        HostBroadcastView::UpdateWinner { id } => seq![id],
    }
}

/// The players that an event for player clients names.
pub open spec fn player_event_players(event: PlayerBroadcast) -> Seq<PlayerId> {
    match event {
        PlayerBroadcast::BeginNoseGoes => Seq::empty(),
        PlayerBroadcast::EndNoseGoes => Seq::empty(),
        PlayerBroadcast::PlayerLose { id, .. } => seq![id],
        PlayerBroadcast::UpdateWinner { id } => seq![id],
    }
}

/// No event of a tick names a player out of nowhere: every player that an
/// event names was live when the tick began, and so is live after it or has
/// been removed by that very tick.
pub proof fn lemma_tick_events_name_live_players(game: GameView, now: u64)
    requires
        game.wf(),
    ensures
        forall|k: int, id: PlayerId|
            0 <= k < game.tick_host_events(now).len() && host_event_players(
                #[trigger] game.tick_host_events(now)[k],
            ).contains(id) ==> #[trigger] has_player(game.players, id),
        forall|k: int, id: PlayerId|
            0 <= k < game.tick_player_events(now).len() && player_event_players(
                #[trigger] game.tick_player_events(now)[k],
            ).contains(id) ==> #[trigger] has_player(game.players, id),
{
    let fed = game.after_eating(now);
    let players = game.players;
    lemma_eating_keeps_wf(game, now);
    lemma_filter_members(players, eating_at(now));
    lemma_filter_members(players, starving_at(now));
    lemma_filter_members(fed.players, among(fed.nose_goes.remaining()));
    lemma_filter_members(fed.players, outside(fed.nose_goes.remaining()));
    lemma_ids_of_distinct(fed.players);
    let meals = game.eating_host_events(now);
    let eaters = players.filter(eating_at(now));
    let starved = game.starved(now);
    let survivors = fed.survivors();
    let verdict = fed.nose_goes.decide(now, fed.players.len());
    assert forall|p: PlayerView| #[trigger] players.contains(p) implies has_player(
        players,
        p.id,
    ) by {
        let i = choose|i: int| 0 <= i < players.len() && players[i] == p;
        assert(players[i].id == p.id);
    }
    assert forall|p: PlayerView| #[trigger] fed.players.contains(p) implies has_player(
        players,
        p.id,
    ) by {
        let i = choose|i: int| 0 <= i < fed.players.len() && fed.players[i] == p;
        assert(fed.players[i].id == p.id);
        assert(has_player(fed.players, p.id));
    }
    if survivors.len() > 0 {
        crate::registry::lemma_leader_is_a_player(survivors);
        let id = leader(survivors)->0;
        let i = index_of(survivors, id);
        assert(survivors[i].id == id);
        assert(survivors.contains(survivors[i]));
        assert(fed.players.contains(survivors[i]));
        assert(has_player(players, id));
    }
    assert forall|k: int, id: PlayerId|
        0 <= k < game.tick_host_events(now).len() && host_event_players(
            #[trigger] game.tick_host_events(now)[k],
        ).contains(id) implies #[trigger] has_player(players, id) by {
        let event = game.tick_host_events(now)[k];
        if k < meals.len() {
            assert(event == meals[k]);
            assert(meals.len() == eaters.len());
            assert(meals[k] == crate::registry::meal_event(eaters[k]));
            assert(host_event_players(event) == seq![eaters[k].id]);
            assert(seq![eaters[k].id][0] == eaters[k].id);
            assert(id == eaters[k].id);
            assert(eaters.contains(eaters[k]));
            assert(players.contains(eaters[k]));
        } else {
            let round = fed.round_host_events(now);
            let j = k - meals.len();
            assert(event == round[j]);
            if verdict == Transition::Begin {
                assert(j == 0);
                assert(ids_of(fed.players).contains(id));
                assert(has_player(fed.players, id));
            } else if verdict == Transition::End {
                if j == 0 {
                    assert(fed.nose_goes.remaining().contains(id));
                    assert(has_player(fed.players, id));
                } else {
                    assert(j == 1);
                    assert(leader(survivors) is Some);
                    assert(round[j] == (HostBroadcastView::UpdateWinner {
                        id: leader(survivors)->0,
                    }));
                    assert(seq![leader(survivors)->0][0] == leader(survivors)->0);
                    assert(id == leader(survivors)->0);
                    assert(survivors.len() > 0) by {
                        if survivors.len() == 0 {
                            assert(leader(survivors) is None);
                        }
                    }
                }
            }
        }
    }
    assert forall|k: int, id: PlayerId|
        0 <= k < game.tick_player_events(now).len() && player_event_players(
            #[trigger] game.tick_player_events(now)[k],
        ).contains(id) implies #[trigger] has_player(players, id) by {
        let event = game.tick_player_events(now)[k];
        let losses = game.eating_player_events(now);
        if k < losses.len() {
            assert(event == losses[k]);
            assert(losses[k] == loss_event(starved[k]));
            assert(seq![starved[k].id][0] == starved[k].id);
            assert(id == starved[k].id);
            assert(starved.contains(starved[k]));
            assert(players.contains(starved[k]));
        } else {
            let round = fed.round_player_events(now);
            let j = k - losses.len();
            assert(event == round[j]);
            if verdict == Transition::End {
                let knocked_out = fed.losers();
                if j < knocked_out.len() {
                    assert(round[j] == loss_event(knocked_out[j]));
                    assert(seq![knocked_out[j].id][0] == knocked_out[j].id);
                    assert(id == knocked_out[j].id);
                    assert(knocked_out.contains(knocked_out[j]));
                    assert(fed.players.contains(knocked_out[j]));
                } else if j == knocked_out.len() {
                    assert(round[j] == PlayerBroadcast::EndNoseGoes);
                } else {
                    assert(leader(survivors) is Some);
                    assert(round[j] == (PlayerBroadcast::UpdateWinner {
                        id: leader(survivors)->0,
                    }));
                    assert(seq![leader(survivors)->0][0] == leader(survivors)->0);
                    assert(id == leader(survivors)->0);
                    assert(survivors.len() > 0) by {
                        if survivors.len() == 0 {
                            assert(leader(survivors) is None);
                        }
                    }
                }
            }
        }
    }
}

/// One step of a game: a command of a client, or a tick of the clock.
pub ghost enum GameStep {
    /// A player registers under the name `name` at the time `now`.
    Register { name: Seq<char>, now: u64 },
    /// The player `id` feeds its hippo.
    Feed { id: PlayerId },
    /// The player `id` is removed from the game.
    Remove { id: PlayerId },
    /// The player `id` declares itself out of the nose-goes round.
    Resolve { id: PlayerId },
    /// The clock ticks at the time `now`.
    Tick { now: u64 },
}

impl GameView {
    /// The game after the step `step`.
    pub open spec fn step(self, step: GameStep) -> GameView {
        match step {
            GameStep::Register { name, now } => self.after_register(name, now),
            GameStep::Feed { id } => self.after_feed(id),
            GameStep::Remove { id } => self.after_remove(id),
            GameStep::Resolve { id } => self.after_resolve(id),
            GameStep::Tick { now } => self.after_tick(now),
        }
    }
}

/// Every step keeps the game's invariant, so that whoever is in the
/// nose-goes round is a live player at all times. A round never gains a
/// player: as long as it runs, who is in it after a step was in it before,
/// and its times stay as they are. Only a tick begins or ends a round, and a
/// tick ends the running round exactly when the round's time is up or, once
/// the hippos are fed, at most one player is left in it.
pub proof fn lemma_round_only_shrinks(game: GameView, step: GameStep)
    requires
        game.wf(),
        step is Register ==> game.issued < u64::MAX,
    ensures
        game.step(step).wf(),
        game.nose_goes is InProgress && game.step(step).nose_goes is InProgress ==> {
            &&& forall|id: PlayerId|
                game.step(step).nose_goes.remaining().contains(id)
                    ==> game.nose_goes.remaining().contains(id)
            &&& game.step(step).nose_goes.remaining().len() <= game.nose_goes.remaining().len()
            &&& game.step(step).nose_goes.deadline() == game.nose_goes.deadline()
        },
        !(step is Tick) ==> (game.step(step).nose_goes is InProgress
            <==> game.nose_goes is InProgress),
        step matches GameStep::Tick { now } ==> (game.nose_goes is InProgress ==> (game.step(
            step,
        ).nose_goes is Inactive <==> (now >= game.nose_goes.deadline() || game.after_eating(
            now,
        ).nose_goes.remaining().len() <= 1))),
        step matches GameStep::Tick { now } ==> (game.nose_goes is Inactive ==> (game.step(
            step,
        ).nose_goes is InProgress <==> (now >= game.nose_goes.deadline() && game.after_eating(
            now,
        ).players.len() > 1))),
{
    let next = game.step(step);
    match step {
        GameStep::Register { name, now } => {
            let before = game.players;
            let after = next.players;
            let fresh = PlayerId(game.issued as u64);
            if has_player(before, fresh) {
                assert((fresh.0 as nat) < game.issued);
            }
            assert forall|i: int, j: int| 0 <= i < j < after.len() implies (#[trigger] after[i]).id
                != (#[trigger] after[j]).id by {
                if j < before.len() {
                    assert(before[i].id != before[j].id);
                } else {
                    assert(has_player(before, before[i].id));
                }
            }
            assert forall|id: PlayerId| #[trigger] has_player(after, id) implies (id.0 as nat)
                < next.issued by {
                let k = index_of(after, id);
                if k < before.len() {
                    assert(has_player(before, before[k].id));
                }
            }
            assert forall|id: PlayerId| #[trigger]
                next.nose_goes.remaining().contains(id) implies has_player(after, id) by {
                assert(has_player(before, id));
                let k = index_of(before, id);
                assert(after[k].id == id);
            }
        },
        GameStep::Feed { id } => {
            let before = game.players;
            let after = next.players;
            assert(ids_of(after) =~= ids_of(before));
            assert forall|other: PlayerId| has_player(after, other) <==> has_player(
                before,
                other,
            ) by {
                lemma_ids_agree(before, after, other);
            }
            assert forall|i: int, j: int| 0 <= i < j < after.len() implies (#[trigger] after[i]).id
                != (#[trigger] after[j]).id by {
                assert(ids_of(after)[i] == ids_of(before)[i]);
                assert(ids_of(after)[j] == ids_of(before)[j]);
                assert(before[i].id != before[j].id);
            }
        },
        GameStep::Remove { id } => {
            lemma_remove_keeps_wf(game, id);
        },
        GameStep::Resolve { id } => {
            crate::nose_goes::lemma_resolve_only_shrinks(game.nose_goes, id);
            assert forall|other: PlayerId| #[trigger]
                next.nose_goes.remaining().contains(other) implies has_player(
                next.players,
                other,
            ) by {
                assert(game.nose_goes.remaining().contains(other));
            }
        },
        GameStep::Tick { now } => {
            lemma_eating_keeps_wf(game, now);
            lemma_round_keeps_wf(game.after_eating(now), now);
        },
    }
}

/// Players with the same identifiers in the same places are the same
/// players, as far as membership goes.
proof fn lemma_ids_agree(before: Seq<PlayerView>, after: Seq<PlayerView>, id: PlayerId)
    requires
        ids_of(before) == ids_of(after),
    ensures
        has_player(after, id) <==> has_player(before, id),
{
    assert(before.len() == ids_of(before).len());
    assert(after.len() == ids_of(after).len());
    if has_player(after, id) {
        let k = index_of(after, id);
        assert(ids_of(after)[k] == id);
        assert(ids_of(before)[k] == before[k].id);
    }
    if has_player(before, id) {
        let k = index_of(before, id);
        assert(ids_of(before)[k] == id);
        assert(ids_of(after)[k] == after[k].id);
    }
}

/// Whether `a` and `b` name the same player, or both name none.
fn same_player(a: Option<PlayerId>, b: Option<PlayerId>) -> (same: bool)
    ensures
        same == (a == b),
{
    match (a, b) {
        (None, None) => true,
        (Some(x), Some(y)) => x == y,
        _ => false,
    }
}

/// One `PlayerLose` event for each of `players`, in their order.
fn losses(players: &Vec<Player>) -> (events: Vec<PlayerBroadcast>)
    ensures
        events@ == loss_events(player_views(players@)),
        views_of(events@) == events@,
{
    let mut events: Vec<PlayerBroadcast> = Vec::new();
    let mut i: usize = 0;
    while i < players.len()
        invariant
            i <= players@.len(),
            events@ == loss_events(player_views(players@).take(i as int)),
        decreases players@.len() - i,
    {
        events.push(PlayerBroadcast::PlayerLose { id: players[i].id, score: players[i].score });
        proof {
            assert(events@ =~= loss_events(player_views(players@).take(i + 1)));
        }
        i = i + 1;
    }
    proof {
        assert(player_views(players@).take(i as int) =~= player_views(players@));
        assert(views_of(events@) =~= events@);
    }
    events
}

impl Game {
    /// The game's invariant; see `GameView::wf`.
    pub open spec fn wf(&self) -> bool {
        self@.wf()
    }

    /// A game without players, which takes its identifiers from `ids`, and
    /// whose first nose-goes round is due at `first_round_at`.
    pub fn new(config: GameConfig, ids: PlayerIdGenerator, first_round_at: u64) -> (game: Game)
        ensures
            game.wf(),
            game@ == (GameView {
                players: Seq::empty(),
                issued: ids.issued(),
                nose_goes: NoseGoesView::Inactive { next_start_time: first_round_at },
                winner: None,
                config,
            }),
    {
        Game {
            players: PlayerRegistry::new(),
            ids,
            nose_goes: NoseGoes::new(first_round_at),
            winner: None,
            config,
        }
    }

    /// The settings of the game.
    pub fn config(&self) -> (config: GameConfig)
        ensures
            config == self@.config,
    {
        self.config
    }

    /// The winner as last worked out: the player who had the highest score
    /// when the last nose-goes round ended, if any player was left then.
    pub fn winner(&self) -> (winner: Option<PlayerId>)
        ensures
            winner == self@.winner,
    {
        self.winner
    }

    /// The live players.
    pub fn players(&self) -> (players: &PlayerRegistry)
        ensures
            players@ == self@.players,
            self.wf() ==> players.wf(),
    {
        &self.players
    }

    /// The state of the nose-goes machine.
    pub fn nose_goes(&self) -> (state: &NoseGoes)
        ensures
            state@ == self@.nose_goes,
    {
        &self.nose_goes
    }

    /// Whether `register` can be called at the time `now`: whether an
    /// identifier is left, and the time of the first meal can be counted.
    pub fn can_register(&self, now: u64) -> (possible: bool)
        ensures
            possible == (self@.issued < u64::MAX && now + self@.config.eat_interval <= u64::MAX),
    {
        !self.ids.exhausted() && now <= u64::MAX - self.config.eat_interval
    }

    /// Registers a new player under the name `name` at the time `now`, and
    /// returns the player's state.
    ///
    /// The player gets an identifier that no player of this game has or has
    /// had, score 0 and a full food pile, and is placed behind the players
    /// registered before.
    pub fn register(&mut self, name: String, now: u64) -> (player: Player)
        requires
            old(self).wf(),
            old(self)@.issued < u64::MAX,
            now + old(self)@.config.eat_interval <= u64::MAX,
        ensures
            final(self).wf(),
            player@ == old(self)@.newcomer(name@, now),
            !has_player(old(self)@.players, player.id),
            final(self)@ == old(self)@.after_register(name@, now),
    {
        let due = now + self.config.eat_interval;
        let ghost fresh = PlayerId(self.ids.issued() as u64);
        proof {
            if has_player(self@.players, fresh) {
                assert((fresh.0 as nat) < self@.issued);
            }
        }
        match self.players.register(&mut self.ids, name, self.config.starting_marbles, due) {
            Ok(player) => {
                proof {
                    let before = old(self)@.players;
                    let after = self@.players;
                    assert forall|id: PlayerId| #[trigger] has_player(after, id) implies (id.0 as nat)
                        < self@.issued by {
                        let k = index_of(after, id);
                        if k < before.len() {
                            assert(before[k].id == id);
                            assert(has_player(before, id));
                        }
                    }
                    assert forall|id: PlayerId| #[trigger]
                        self@.nose_goes.remaining().contains(id) implies has_player(after, id) by {
                        assert(has_player(before, id));
                        let k = index_of(before, id);
                        assert(after[k].id == id);
                    }
                }
                player
            },
            Err(_) => {
                assert(false);
                vstd::pervasive::unreached()
            },
        }
    }

    /// Whether `feed` can be called for the player `id`: whether one more
    /// point can be counted, or there is no such player.
    pub fn can_feed(&self, id: PlayerId) -> (possible: bool)
        requires
            self.wf(),
        ensures
            possible == (has_player(self@.players, id) ==> self@.players[index_of(
                self@.players,
                id,
            )].score < usize::MAX),
    {
        match self.players.get(id) {
            Some(player) => player.score < usize::MAX,
            None => true,
        }
    }

    /// Feeds the hippo of the player `id`: adds one point to the player's
    /// score and returns the new score.
    ///
    /// # Errors
    ///
    /// `InvalidPlayer` if no such player is live; the game is then left as it
    /// was.
    pub fn feed(&mut self, id: PlayerId) -> (result: Result<usize, Error>)
        requires
            old(self).wf(),
            has_player(old(self)@.players, id) ==> old(self)@.players[index_of(
                old(self)@.players,
                id,
            )].score < usize::MAX,
        ensures
            final(self).wf(),
            final(self)@ == old(self)@.after_feed(id),
            match result {
                Ok(score) => {
                    &&& has_player(old(self)@.players, id)
                    &&& score == old(self)@.players[index_of(old(self)@.players, id)].score + 1
                },
                Err(error) => !has_player(old(self)@.players, id) && error == Error::InvalidPlayer(
                    id,
                ),
            },
    {
        let result = self.players.feed(id);
        proof {
            let before = old(self)@.players;
            let after = self@.players;
            if result is Ok {
                assert forall|other: PlayerId| has_player(after, other) <==> has_player(
                    before,
                    other,
                ) by {
                    if has_player(after, other) {
                        let k = index_of(after, other);
                        assert(before[k].id == other);
                    }
                    if has_player(before, other) {
                        let k = index_of(before, other);
                        assert(after[k].id == other);
                    }
                }
            }
        }
        result
    }

    /// Removes the player `id` from the game, and from the nose-goes round
    /// if it is in it, and returns the player's final state. Returns `None`,
    /// and changes nothing, if no such player is live.
    pub fn remove(&mut self, id: PlayerId) -> (removed: Option<Player>)
        requires
            old(self).wf(),
        ensures
            final(self).wf(),
            final(self)@ == old(self)@.after_remove(id),
            match removed {
                Some(player) => {
                    &&& has_player(old(self)@.players, id)
                    &&& player@ == old(self)@.players[index_of(old(self)@.players, id)]
                },
                None => !has_player(old(self)@.players, id),
            },
    {
        proof {
            lemma_remove_keeps_wf(self@, id);
        }
        match self.players.remove(id) {
            Some(player) => {
                let gone = vec![id];
                proof {
                    assert(gone@ =~= seq![id]);
                }
                self.nose_goes.drop_players(&gone);
                Some(player)
            },
            None => None,
        }
    }

    /// The player `id` declares itself out of the nose-goes round.
    ///
    /// With more than one player left in the round, the player leaves it and
    /// has survived. The last player left cannot leave: the answer is `Died`,
    /// nothing changes, and the next tick ends the round and removes the
    /// player.
    ///
    /// # Errors
    ///
    /// `InvalidNoseGoes` if no round is running or the player is not in the
    /// round; the game is then left as it was.
    pub fn resolve(&mut self, id: PlayerId) -> (result: Result<NoseGoesResponse, Error>)
        requires
            old(self).wf(),
        ensures
            final(self).wf(),
            result == old(self)@.nose_goes.resolve_outcome(id),
            final(self)@ == old(self)@.after_resolve(id),
    {
        let result = self.nose_goes.resolve(id);
        proof {
            crate::nose_goes::lemma_resolve_only_shrinks(old(self)@.nose_goes, id);
            assert forall|other: PlayerId| #[trigger]
                self@.nose_goes.remaining().contains(other) implies has_player(
                self@.players,
                other,
            ) by {
                assert(old(self)@.nose_goes.remaining().contains(other));
            }
        }
        result
    }

    /// Whether `feed_hippos` can be called at the time `now`: whether the
    /// meals due can be counted in machine integers.
    pub fn can_feed_hippos(&self, now: u64) -> (possible: bool)
        ensures
            possible == self@.eating_fits(now),
    {
        self.players.meals_fit(now, self.config.eat_interval)
    }

    /// Whether `run_nose_goes` can be called: whether the times that the
    /// nose-goes machine may move to can be counted in machine integers.
    pub fn can_run_nose_goes(&self) -> (possible: bool)
        ensures
            possible == self@.round_fits(),
    {
        let deadline = self.nose_goes.deadline();
        deadline <= u64::MAX - self.config.nose_goes_interval && deadline <= u64::MAX
            - self.config.nose_goes_duration
    }

    /// Whether `tick` can be called at the time `now`: whether both of its
    /// parts can be.
    pub fn can_tick(&self, now: u64) -> (possible: bool)
        ensures
            possible == (self@.eating_fits(now) && self@.round_fits()),
    {
        self.can_feed_hippos(now) && self.can_run_nose_goes()
    }

    /// Feeds the hippos at the time `now`.
    ///
    /// Every player whose hippo is due and finds the food pile empty is
    /// removed from the game, and from the nose-goes round if it is in it;
    /// player clients get one `PlayerLose` for each. Every other hippo that is
    /// due eats one marble, which gives its player one point; host displays
    /// get one `HippoEat` for each.
    pub fn feed_hippos(
        &mut self,
        now: u64,
        hosts: &mut Broadcaster<HostBroadcast>,
        clients: &mut Broadcaster<PlayerBroadcast>,
    )
        requires
            old(self).wf(),
            old(hosts).wf(),
            old(clients).wf(),
            old(self)@.eating_fits(now),
        ensures
            final(self).wf(),
            final(self)@ == old(self)@.after_eating(now),
            final(hosts).wf(),
            final(hosts).issued() == old(hosts).issued(),
            final(hosts)@ == published(old(hosts)@, old(self)@.eating_host_events(now)),
            final(clients).wf(),
            final(clients).issued() == old(clients).issued(),
            final(clients)@ == published(old(clients)@, old(self)@.eating_player_events(now)),
    {
        let ghost before = self@.players;
        let ghost interval = self.config.eat_interval;
        let doomed = self.players.starving(now);
        proof {
            lemma_filter_players(before, starving_at(now));
            lemma_ids_of_distinct(before.filter(starving_at(now)));
            assert forall|i: int| 0 <= i < before.len() implies doomed@.contains(
                (#[trigger] before[i]).id,
            ) == before[i].starves(now) by {
                lemma_index_of_position(before, i);
            }
            assert forall|i: int| 0 <= i < before.len() implies outside(doomed@)(
                #[trigger] before[i],
            ) == surviving_at(now)(before[i]) by {}
            assert forall|i: int| 0 <= i < before.len() implies among(doomed@)(#[trigger] before[i])
                == starving_at(now)(before[i]) by {}
            lemma_filter_agree(before, outside(doomed@), surviving_at(now));
            lemma_filter_agree(before, among(doomed@), starving_at(now));
        }
        let removed = self.players.remove_all(&doomed);
        let ghost alive = self.players@;
        proof {
            assert(alive == before.filter(surviving_at(now)));
            lemma_filter_members(before, surviving_at(now));
            assert forall|i: int| 0 <= i < alive.len() && (#[trigger] alive[i]).eats(
                now,
            ) implies alive[i].meal_fits(interval) by {
                assert(alive.contains(alive[i]));
                assert(before.contains(alive[i]));
                let k = choose|k: int| 0 <= k < before.len() && before[k] == alive[i];
                assert(before[k].eats(now));
            }
            assert forall|i: int| 0 <= i < before.len() && eating_at(now)(
                #[trigger] before[i],
            ) implies surviving_at(now)(before[i]) by {}
            lemma_filter_of_filter(before, surviving_at(now), eating_at(now));
        }
        let meals = self.players.serve_meals(now, self.config.eat_interval);
        self.nose_goes.drop_players(&doomed);
        let lost = losses(&removed);
        hosts.send_all(meals);
        clients.send_all(lost);
        proof {
            lemma_eating_keeps_wf(old(self)@, now);
        }
    }

    /// Lets the nose-goes machine make its move for a tick at the time `now`.
    ///
    /// What the machine does is said by `NoseGoesView::decide`, and what
    /// becomes of the game by `GameView::after_round`. At the begin of a round
    /// both channels get `BeginNoseGoes`. At the end of a round the players
    /// still in it are removed from the game and the winner is worked out
    /// anew; host displays get `EndNoseGoes` with the players knocked out,
    /// player clients one `PlayerLose` for each of them and then
    /// `EndNoseGoes`, and both get `UpdateWinner` last if there is a new
    /// winner.
    pub fn run_nose_goes(
        &mut self,
        now: u64,
        hosts: &mut Broadcaster<HostBroadcast>,
        clients: &mut Broadcaster<PlayerBroadcast>,
    )
        requires
            old(self).wf(),
            old(hosts).wf(),
            old(clients).wf(),
            old(self)@.round_fits(),
        ensures
            final(self).wf(),
            final(self)@ == old(self)@.after_round(now),
            final(hosts).wf(),
            final(hosts).issued() == old(hosts).issued(),
            final(hosts)@ == published(old(hosts)@, old(self)@.round_host_events(now)),
            final(clients).wf(),
            final(clients).issued() == old(clients).issued(),
            final(clients)@ == published(old(clients)@, old(self)@.round_player_events(now)),
    {
        let deadline = self.nose_goes.deadline();
        proof {
            lemma_round_keeps_wf(old(self)@, now);
        }
        match self.nose_goes.decide(now, self.players.len()) {
            Transition::Stay => {
                proof {
                    assert(hosts@ =~= published(hosts@, Seq::<HostBroadcastView>::empty()));
                    assert(clients@ =~= published(clients@, Seq::<PlayerBroadcast>::empty()));
                }
            },
            Transition::Defer => {
                self.nose_goes = NoseGoes::Inactive {
                    next_start_time: deadline + self.config.nose_goes_interval,
                };
                proof {
                    assert(hosts@ =~= published(hosts@, Seq::<HostBroadcastView>::empty()));
                    assert(clients@ =~= published(clients@, Seq::<PlayerBroadcast>::empty()));
                }
            },
            Transition::Begin => {
                let participants = self.players.ids();
                let announced = copy_ids(&participants);
                hosts.send(
                    HostBroadcast::BeginNoseGoes {
                        duration: self.config.nose_goes_duration,
                        players: announced,
                    },
                );
                clients.send(PlayerBroadcast::BeginNoseGoes);
                self.nose_goes = NoseGoes::InProgress {
                    start_time: deadline,
                    end_time: deadline + self.config.nose_goes_duration,
                    remaining_players: participants,
                };
            },
            Transition::End => {
                let mut closed = NoseGoes::Inactive {
                    next_start_time: deadline + self.config.nose_goes_interval,
                };
                core::mem::swap(&mut self.nose_goes, &mut closed);
                let losers = match closed {
                    NoseGoes::InProgress { remaining_players, .. } => remaining_players,
                    NoseGoes::Inactive { .. } => Vec::new(),
                };
                let removed = self.players.remove_all(&losers);
                let lost = losses(&removed);
                let winner = self.players.leader();
                let changed = !same_player(self.winner, winner);
                let ghost hosts_before = hosts@;
                let ghost clients_before = clients@;
                let ghost knocked_out = losers@;
                hosts.send(HostBroadcast::EndNoseGoes { losers });
                clients.send_all(lost);
                clients.send(PlayerBroadcast::EndNoseGoes);
                let ghost hosts_between = hosts@;
                let ghost clients_between = clients@;
                if changed && winner.is_some() {
                    let id = winner.unwrap();
                    hosts.send(HostBroadcast::UpdateWinner { id });
                    clients.send(PlayerBroadcast::UpdateWinner { id });
                } else {
                    proof {
                        assert(hosts@ =~= published(hosts@, Seq::<HostBroadcastView>::empty()));
                        assert(clients@ =~= published(clients@, Seq::<PlayerBroadcast>::empty()));
                    }
                }
                proof {
                    let ended = seq![HostBroadcastView::EndNoseGoes { losers: knocked_out }];
                    let host_update = host_winner_events(self.winner, winner);
                    let player_update = player_winner_events(self.winner, winner);
                    assert(hosts@ == published(hosts_between, host_update));
                    assert(clients@ == published(clients_between, player_update));
                    crate::broadcast::lemma_published_in_order(hosts_before, ended, host_update);
                    crate::broadcast::lemma_published_in_order(
                        clients_before,
                        loss_events(old(self)@.losers()),
                        seq![PlayerBroadcast::EndNoseGoes],
                    );
                    crate::broadcast::lemma_published_in_order(
                        clients_before,
                        loss_events(old(self)@.losers()) + seq![PlayerBroadcast::EndNoseGoes],
                        player_update,
                    );
                }
                self.winner = winner;
            },
        }
    }

    /// Advances the game by one tick of the clock, at the time `now`: feeds
    /// the hippos, then lets the nose-goes machine make its move.
    ///
    /// The whole tick is one step: the events of both parts are published in
    /// the order in which they were decided, and no caller sees the game in
    /// between.
    pub fn tick(
        &mut self,
        now: u64,
        hosts: &mut Broadcaster<HostBroadcast>,
        clients: &mut Broadcaster<PlayerBroadcast>,
    )
        requires
            old(self).wf(),
            old(hosts).wf(),
            old(clients).wf(),
            old(self)@.eating_fits(now),
            old(self)@.round_fits(),
        ensures
            final(self).wf(),
            final(self)@ == old(self)@.after_tick(now),
            final(hosts).wf(),
            final(hosts).issued() == old(hosts).issued(),
            final(hosts)@ == published(old(hosts)@, old(self)@.tick_host_events(now)),
            final(clients).wf(),
            final(clients).issued() == old(clients).issued(),
            final(clients)@ == published(old(clients)@, old(self)@.tick_player_events(now)),
    {
        proof {
            lemma_eating_keeps_wf(self@, now);
        }
        self.feed_hippos(now, hosts, clients);
        self.run_nose_goes(now, hosts, clients);
        proof {
            crate::broadcast::lemma_published_in_order(
                old(hosts)@,
                old(self)@.eating_host_events(now),
                old(self)@.after_eating(now).round_host_events(now),
            );
            crate::broadcast::lemma_published_in_order(
                old(clients)@,
                old(self)@.eating_player_events(now),
                old(self)@.after_eating(now).round_player_events(now),
            );
        }
    }

    /// A copy of the public fields of every live player, in the order in
    /// which the players registered.
    pub fn snapshot(&self) -> (players: Vec<PlayerData>)
        ensures
            players@.len() == self@.players.len(),
            forall|i: int|
                0 <= i < self@.players.len() ==> (#[trigger] players@[i])@
                    == self@.players[i].public_data(),
    {
        self.players.snapshot()
    }
}

} // verus!
