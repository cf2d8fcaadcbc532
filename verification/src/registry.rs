//! The registry of live players.
//!
//! The registry keeps its players in the order in which they registered and
//! never holds two players with the same identifier. Its model is the
//! sequence of the players' views, in that order.

use crate::error::Error;
use crate::events::{HostBroadcast, HostBroadcastView};
use crate::ids::position_of;
use crate::player::{Player, PlayerData, PlayerId, PlayerIdGenerator, PlayerView};
use vstd::prelude::*;

verus! {

/// Whether some player of `players` has the identifier `id`.
pub open spec fn has_player(players: Seq<PlayerView>, id: PlayerId) -> bool {
    exists|i: int| 0 <= i < players.len() && (#[trigger] players[i]).id == id
}

/// A position in `players` of the player with the identifier `id`.
///
/// Where no two players share an identifier, this is the only such position.
pub open spec fn index_of(players: Seq<PlayerView>, id: PlayerId) -> int {
    choose|i: int| 0 <= i < players.len() && (#[trigger] players[i]).id == id
}

/// Whether the players of `players` have pairwise different identifiers.
pub open spec fn distinct_ids(players: Seq<PlayerView>) -> bool {
    forall|i: int, j: int|
        0 <= i < j < players.len() ==> (#[trigger] players[i]).id != (#[trigger] players[j]).id
}

/// The state of a player who has just registered: no score yet, and a full
/// food pile.
pub open spec fn new_player(
    id: PlayerId,
    name: Seq<char>,
    marbles: usize,
    next_eat_time: u64,
) -> PlayerView {
    PlayerView { id, name, score: 0, marbles, next_eat_time }
}

/// The state of `player` after one more point.
pub open spec fn fed(player: PlayerView) -> PlayerView {
    PlayerView { score: (player.score + 1) as usize, ..player }
}

/// The players after a registration under the identifier `id`: the new
/// player stands behind the others. Nothing changes if the identifier is in
/// use.
pub open spec fn after_register(
    players: Seq<PlayerView>,
    id: PlayerId,
    name: Seq<char>,
    marbles: usize,
    next_eat_time: u64,
) -> Seq<PlayerView> {
    if has_player(players, id) {
        players
    } else {
        players.push(new_player(id, name, marbles, next_eat_time))
    }
}

/// The players after the player `id` has been fed: one point more for that
/// player. Nothing changes if there is no such player.
pub open spec fn after_feed(players: Seq<PlayerView>, id: PlayerId) -> Seq<PlayerView> {
    if has_player(players, id) {
        players.update(index_of(players, id), fed(players[index_of(players, id)]))
    } else {
        players
    }
}

/// The players after the player `id` has been removed. Nothing changes if
/// there is no such player.
pub open spec fn after_remove(players: Seq<PlayerView>, id: PlayerId) -> Seq<PlayerView> {
    if has_player(players, id) {
        players.remove(index_of(players, id))
    } else {
        players
    }
}

/// Among players with pairwise different identifiers, the position of an
/// identifier is the position of the player that has it.
pub proof fn lemma_index_of_position(players: Seq<PlayerView>, i: int)
    requires
        distinct_ids(players),
        0 <= i < players.len(),
    ensures
        has_player(players, players[i].id),
        index_of(players, players[i].id) == i,
{
    let j = index_of(players, players[i].id);
    assert(0 <= j < players.len() && players[j].id == players[i].id);
    if j < i {
        assert(players[j].id != players[i].id);
    } else if i < j {
        assert(players[i].id != players[j].id);
    }
}

/// The live players, each under a unique identifier.
pub struct PlayerRegistry {
    players: Vec<Player>,
}

impl View for PlayerRegistry {
    type V = Seq<PlayerView>;

    closed spec fn view(&self) -> Seq<PlayerView> {
        self.players@.map_values(|p: Player| p@)
    }
}

impl PlayerRegistry {
    /// The registry's invariant: no two players share an identifier.
    pub open spec fn wf(&self) -> bool {
        distinct_ids(self@)
    }

    /// A registry without players.
    pub fn new() -> (registry: PlayerRegistry)
        ensures
            registry.wf(),
            registry@ == Seq::<PlayerView>::empty(),
    {
        PlayerRegistry { players: Vec::new() }
    }

    /// The number of live players.
    pub fn len(&self) -> (count: usize)
        ensures
            count == self@.len(),
    {
        self.players.len()
    }

    /// The position of the player with the identifier `id`, if there is one.
    fn position(&self, id: PlayerId) -> (found: Option<usize>)
        requires
            self.wf(),
        ensures
            match found {
                Some(i) => has_player(self@, id) && i == index_of(self@, id),
                None => !has_player(self@, id),
            },
    {
        let mut i: usize = 0;
        while i < self.players.len()
            invariant
                i <= self.players.len(),
                self.wf(),
                forall|k: int| 0 <= k < i ==> (#[trigger] self@[k]).id != id,
            decreases self.players.len() - i,
        {
            if self.players[i].id == id {
                proof {
                    lemma_index_of_position(self@, i as int);
                }
                return Some(i);
            }
            i = i + 1;
        }
        None
    }

    /// Whether a player with the identifier `id` is registered.
    pub fn contains(&self, id: PlayerId) -> (present: bool)
        requires
            self.wf(),
        ensures
            present == has_player(self@, id),
    {
        self.position(id).is_some()
    }

    /// The player with the identifier `id`, if there is one.
    pub fn get(&self, id: PlayerId) -> (found: Option<&Player>)
        requires
            self.wf(),
        ensures
            match found {
                Some(player) => has_player(self@, id) && player@ == self@[index_of(self@, id)],
                None => !has_player(self@, id),
            },
    {
        match self.position(id) {
            Some(i) => Some(&self.players[i]),
            None => None,
        }
    }

    /// Registers a new player under the next identifier of `ids`.
    ///
    /// The player starts with score 0, `marbles` marbles in the food pile and
    /// the first meal due at `next_eat_time`, and is placed behind the players
    /// registered before. The identifier is taken from `ids` in either case.
    ///
    /// # Errors
    ///
    /// `DuplicateId` if the registry already holds the identifier that `ids`
    /// hands out; the registry is then left as it was.
    pub fn register(
        &mut self,
        ids: &mut PlayerIdGenerator,
        name: String,
        marbles: usize,
        next_eat_time: u64,
    ) -> (result: Result<Player, Error>)
        requires
            old(self).wf(),
            !old(ids).is_exhausted(),
        ensures
            final(self).wf(),
            final(ids).issued() == old(ids).issued() + 1,
            forall|other: PlayerId|
                final(ids).has_issued(other) <==> (old(ids).has_issued(other) || other.0
                    == old(ids).issued()),
            final(self)@ == after_register(
                old(self)@,
                PlayerId(old(ids).issued() as u64),
                name@,
                marbles,
                next_eat_time,
            ),
            match result {
                Ok(player) => {
                    &&& !has_player(old(self)@, player.id)
                    &&& player@ == new_player(
                        PlayerId(old(ids).issued() as u64),
                        name@,
                        marbles,
                        next_eat_time,
                    )
                    &&& final(self)@ == old(self)@.push(player@)
                },
                Err(error) => {
                    &&& error == Error::DuplicateId(PlayerId(old(ids).issued() as u64))
                    &&& has_player(old(self)@, PlayerId(old(ids).issued() as u64))
                    &&& final(self)@ == old(self)@
                },
            },
    {
        let id = ids.next_id();
        if self.position(id).is_some() {
            return Err(Error::DuplicateId(id));
        }
        let player = Player { id, name, score: 0, marbles, next_eat_time };
        let copy = player.clone();
        self.players.push(player);
        proof {
            assert(self@ =~= old(self)@.push(copy@));
            assert forall|i: int, j: int| 0 <= i < j < self@.len() implies (#[trigger] self@[i]).id
                != (#[trigger] self@[j]).id by {
                if j < old(self)@.len() {
                    assert(old(self)@[i].id != old(self)@[j].id);
                } else {
                    assert(old(self)@[i].id != id);
                }
            }
        }
        Ok(copy)
    }

    /// Feeds the hippo of the player `id`: adds one point to the player's
    /// score and returns the new score.
    ///
    /// # Errors
    ///
    /// `InvalidPlayer` if no such player is registered; the registry is then
    /// left as it was.
    pub fn feed(&mut self, id: PlayerId) -> (result: Result<usize, Error>)
        requires
            old(self).wf(),
            has_player(old(self)@, id) ==> old(self)@[index_of(old(self)@, id)].score < usize::MAX,
        ensures
            final(self).wf(),
            final(self)@ == after_feed(old(self)@, id),
            match result {
                Ok(score) => {
                    &&& has_player(old(self)@, id)
                    &&& score == old(self)@[index_of(old(self)@, id)].score + 1
                    &&& final(self)@ == old(self)@.update(
                        index_of(old(self)@, id),
                        fed(old(self)@[index_of(old(self)@, id)]),
                    )
                },
                Err(error) => {
                    &&& !has_player(old(self)@, id)
                    &&& error == Error::InvalidPlayer(id)
                    &&& final(self)@ == old(self)@
                },
            },
    {
        match self.position(id) {
            Some(i) => {
                let score = self.players[i].score + 1;
                self.players[i].score = score;
                proof {
                    assert(self@ =~= old(self)@.update(i as int, fed(old(self)@[i as int])));
                    assert forall|a: int, b: int| 0 <= a < b < self@.len() implies (
                    #[trigger] self@[a]).id != (#[trigger] self@[b]).id by {
                        assert(old(self)@[a].id != old(self)@[b].id);
                    }
                }
                Ok(score)
            },
            None => Err(Error::InvalidPlayer(id)),
        }
    }

    /// Removes the player `id` and returns the player's final state, or
    /// `None`, with the registry unchanged, if no such player is registered.
    pub fn remove(&mut self, id: PlayerId) -> (removed: Option<Player>)
        requires
            old(self).wf(),
        ensures
            final(self).wf(),
            final(self)@ == after_remove(old(self)@, id),
            match removed {
                Some(player) => {
                    &&& has_player(old(self)@, id)
                    &&& player@ == old(self)@[index_of(old(self)@, id)]
                    &&& final(self)@ == old(self)@.remove(index_of(old(self)@, id))
                    &&& !has_player(final(self)@, id)
                },
                None => !has_player(old(self)@, id) && final(self)@ == old(self)@,
            },
    {
        match self.position(id) {
            Some(i) => {
                let player = self.players.remove(i);
                proof {
                    assert(self@ =~= old(self)@.remove(i as int));
                    lemma_remove_keeps_distinct(old(self)@, i as int);
                }
                Some(player)
            },
            None => None,
        }
    }

    /// A copy of the public fields of every live player, in the order in
    /// which the players registered.
    pub fn snapshot(&self) -> (players: Vec<PlayerData>)
        ensures
            players@.len() == self@.len(),
            forall|i: int|
                0 <= i < self@.len() ==> (#[trigger] players@[i])@ == self@[i].public_data(),
    {
        let mut players: Vec<PlayerData> = Vec::new();
        let mut i: usize = 0;
        while i < self.players.len()
            invariant
                i <= self.players.len(),
                players@.len() == i,
                forall|k: int| 0 <= k < i ==> (#[trigger] players@[k])@ == self@[k].public_data(),
            decreases self.players.len() - i,
        {
            players.push(self.players[i].public_data());
            i = i + 1;
        }
        players
    }
}

/// Taking one player out of a sequence with pairwise different identifiers
/// leaves such a sequence, without the identifier of the player taken out.
pub proof fn lemma_remove_keeps_distinct(players: Seq<PlayerView>, i: int)
    requires
        distinct_ids(players),
        0 <= i < players.len(),
    ensures
        distinct_ids(players.remove(i)),
        !has_player(players.remove(i), players[i].id),
        forall|id: PlayerId|
            id != players[i].id ==> (has_player(players.remove(i), id) <==> has_player(players, id)),
{
    let rest = players.remove(i);
    assert forall|a: int, b: int| 0 <= a < b < rest.len() implies (#[trigger] rest[a]).id != (
    #[trigger] rest[b]).id by {
        let a0 = if a < i { a } else { a + 1 };
        let b0 = if b < i { b } else { b + 1 };
        assert(rest[a] == players[a0] && rest[b] == players[b0]);
        assert(players[a0].id != players[b0].id);
    }
    assert forall|k: int| 0 <= k < rest.len() implies (#[trigger] rest[k]).id != players[i].id by {
        let k0 = if k < i { k } else { k + 1 };
        assert(rest[k] == players[k0]);
        if k0 < i {
            assert(players[k0].id != players[i].id);
        } else {
            assert(players[i].id != players[k0].id);
        }
    }
    assert forall|id: PlayerId| id != players[i].id implies (has_player(rest, id) <==> has_player(
        players,
        id,
    )) by {
        if has_player(rest, id) {
            let k = index_of(rest, id);
            let k0 = if k < i { k } else { k + 1 };
            assert(rest[k] == players[k0]);
            assert(players[k0].id == id);
        }
        if has_player(players, id) {
            let k0 = index_of(players, id);
            assert(k0 != i);
            let k = if k0 < i { k0 } else { k0 - 1 };
            assert(rest[k] == players[k0]);
            assert(rest[k].id == id);
        }
    }
}

/// The identifiers of `players`, in the same order.
pub open spec fn ids_of(players: Seq<PlayerView>) -> Seq<PlayerId> {
    players.map_values(|p: PlayerView| p.id)
}

/// The views of `players`, in the same order.
pub open spec fn player_views(players: Seq<Player>) -> Seq<PlayerView> {
    players.map_values(|p: Player| p@)
}

/// The test for a player whose identifier is one of `ids`.
pub open spec fn among(ids: Seq<PlayerId>) -> spec_fn(PlayerView) -> bool {
    |p: PlayerView| ids.contains(p.id)
}

/// The test for a player whose identifier is none of `ids`.
pub open spec fn outside(ids: Seq<PlayerId>) -> spec_fn(PlayerView) -> bool {
    |p: PlayerView| !ids.contains(p.id)
}

/// The test for a player who starves at the time `now`.
pub open spec fn starving_at(now: u64) -> spec_fn(PlayerView) -> bool {
    |p: PlayerView| p.starves(now)
}

/// The test for a player whose hippo eats at the time `now`.
pub open spec fn eating_at(now: u64) -> spec_fn(PlayerView) -> bool {
    |p: PlayerView| p.eats(now)
}

/// The players after every hippo that eats at the time `now` has eaten.
pub open spec fn after_meals(players: Seq<PlayerView>, now: u64, eat_interval: u64) -> Seq<
    PlayerView,
> {
    players.map_values(
        |p: PlayerView|
            if p.eats(now) {
                p.after_meal(eat_interval)
            } else {
                p
            },
    )
}

/// Whether every meal that is taken at the time `now` can be counted in
/// machine integers.
pub open spec fn meals_fit(players: Seq<PlayerView>, now: u64, eat_interval: u64) -> bool {
    forall|i: int|
        0 <= i < players.len() && (#[trigger] players[i]).eats(now) ==> players[i].meal_fits(
            eat_interval,
        )
}

/// The event that reports the meal of `player`, whose state is the one
/// before the meal.
pub open spec fn meal_event(player: PlayerView) -> HostBroadcastView {
    HostBroadcastView::HippoEat {
        id: player.id,
        score: (player.score + 1) as usize,
        inventory: (player.marbles - 1) as usize,
    }
}

/// The events that report the meals taken at the time `now`, in the order of
/// the players.
pub open spec fn meal_events(players: Seq<PlayerView>, now: u64) -> Seq<HostBroadcastView> {
    players.filter(eating_at(now)).map_values(|p: PlayerView| meal_event(p))
}

/// Whether the player at position `i` leads: nobody has a higher score, and
/// nobody who registered earlier has the same score.
pub open spec fn leads(players: Seq<PlayerView>, i: int) -> bool {
    &&& 0 <= i < players.len()
    &&& forall|j: int| 0 <= j < players.len() ==> (#[trigger] players[j]).score <= players[i].score
    &&& forall|j: int| 0 <= j < i ==> (#[trigger] players[j]).score < players[i].score
}

/// The player with the highest score, or none if there is no player. Among
/// players with the same score the one who registered first leads.
pub open spec fn leader(players: Seq<PlayerView>) -> Option<PlayerId> {
    if players.len() == 0 {
        None
    } else {
        Some(players[choose|i: int| leads(players, i)].id)
    }
}

/// At most one position leads, and `leader` names the player there.
pub proof fn lemma_leader_is_unique(players: Seq<PlayerView>, i: int)
    requires
        leads(players, i),
    ensures
        forall|j: int| leads(players, j) ==> j == i,
        leader(players) == Some(players[i].id),
{
    assert forall|j: int| leads(players, j) implies j == i by {
        if j < i {
            assert(players[j].score < players[i].score);
            assert(players[i].score <= players[j].score);
        } else if i < j {
            assert(players[i].score < players[j].score);
            assert(players[j].score <= players[i].score);
        }
    }
}

/// Where there is a player, one of the players leads, and `leader` names a
/// player who is there.
pub proof fn lemma_leader_is_a_player(players: Seq<PlayerView>)
    requires
        players.len() > 0,
    ensures
        exists|i: int| leads(players, i),
        leader(players) is Some,
        has_player(players, leader(players)->0),
    decreases players.len(),
{
    if players.len() == 1 {
        assert(leads(players, 0));
    } else {
        let front = players.drop_last();
        let last = players.len() - 1;
        lemma_leader_is_a_player(front);
        let best = choose|i: int| leads(front, i);
        assert forall|j: int| 0 <= j < front.len() implies #[trigger] front[j] == players[j] by {}
        if players[last].score > players[best].score {
            assert forall|j: int| 0 <= j < players.len() implies (#[trigger] players[j]).score
                <= players[last].score by {
                if j < last {
                    assert(front[j].score <= front[best].score);
                }
            }
            assert forall|j: int| 0 <= j < last implies (#[trigger] players[j]).score
                < players[last].score by {
                assert(front[j].score <= front[best].score);
            }
            assert(leads(players, last));
        } else {
            assert forall|j: int| 0 <= j < players.len() implies (#[trigger] players[j]).score
                <= players[best].score by {
                if j < last {
                    assert(front[j].score <= front[best].score);
                }
            }
            assert forall|j: int| 0 <= j < best implies (#[trigger] players[j]).score
                < players[best].score by {
                assert(front[j].score < front[best].score);
            }
            assert(leads(players, best));
        }
    }
    let i = choose|i: int| leads(players, i);
    assert(players[i].id == leader(players)->0);
}

/// Keeping some of the players keeps their identifiers apart, and keeps
/// exactly those players who pass the test.
pub proof fn lemma_filter_players(players: Seq<PlayerView>, keep: spec_fn(PlayerView) -> bool)
    requires
        distinct_ids(players),
    ensures
        distinct_ids(players.filter(keep)),
        players.filter(keep).len() <= players.len(),
        forall|id: PlayerId|
            has_player(players.filter(keep), id) <==> (has_player(players, id) && keep(
                players[index_of(players, id)],
            )),
        forall|id: PlayerId|
            has_player(players.filter(keep), id) ==> players.filter(keep)[index_of(
                players.filter(keep),
                id,
            )] == players[index_of(players, id)],
    decreases players.len(),
{
    let kept = players.filter(keep);
    if players.len() == 0 {
        reveal(Seq::filter);
        assert(kept =~= players);
    } else {
        let front = players.drop_last();
        let last = players.last();
        let n = front.len() as int;
        assert(players =~= front.push(last));
        front.lemma_filter_push(last, keep);
        assert forall|i: int, j: int| 0 <= i < j < front.len() implies (#[trigger] front[i]).id != (
        #[trigger] front[j]).id by {
            assert(players[i].id != players[j].id);
        }
        lemma_filter_players(front, keep);
        let kept_front = front.filter(keep);
        assert(!has_player(front, last.id)) by {
            if has_player(front, last.id) {
                let k = index_of(front, last.id);
                assert(players[k].id != players[n].id);
            }
        }
        lemma_index_of_position(players, n);
        assert forall|id: PlayerId| has_player(front, id) implies has_player(players, id)
            && index_of(players, id) == index_of(front, id) by {
            let k = index_of(front, id);
            assert(players[k].id == id);
            lemma_index_of_position(players, k);
        }
        assert forall|id: PlayerId| has_player(players, id) && id != last.id implies has_player(
            front,
            id,
        ) by {
            let k = index_of(players, id);
            assert(front[k].id == id);
        }
        if keep(last) {
            assert(kept == kept_front.push(last));
            let m = kept_front.len() as int;
            assert forall|i: int, j: int| 0 <= i < j < kept.len() implies (#[trigger] kept[i]).id
                != (#[trigger] kept[j]).id by {
                if j < m {
                    assert(kept_front[i].id != kept_front[j].id);
                } else {
                    assert(kept[i] == kept_front[i]);
                    assert(has_player(kept_front, kept_front[i].id));
                }
            }
            lemma_index_of_position(kept, m);
            assert forall|id: PlayerId| has_player(kept_front, id) implies has_player(kept, id)
                && index_of(kept, id) == index_of(kept_front, id) by {
                let k = index_of(kept_front, id);
                assert(kept[k].id == id);
                lemma_index_of_position(kept, k);
            }
            assert forall|id: PlayerId| has_player(kept, id) && id != last.id implies has_player(
                kept_front,
                id,
            ) by {
                let k = index_of(kept, id);
                assert(kept_front[k].id == id);
            }
            assert(has_player(kept, last.id));
        } else {
            assert(kept == kept_front);
        }
    }
}

/// Meals change no identifier: the same players are there, in the same
/// places.
pub proof fn lemma_meals_keep_ids(players: Seq<PlayerView>, now: u64, eat_interval: u64)
    ensures
        ids_of(after_meals(players, now, eat_interval)) == ids_of(players),
        after_meals(players, now, eat_interval).len() == players.len(),
        distinct_ids(players) ==> distinct_ids(after_meals(players, now, eat_interval)),
        forall|id: PlayerId|
            has_player(after_meals(players, now, eat_interval), id) <==> has_player(players, id),
{
    let fed = after_meals(players, now, eat_interval);
    assert(ids_of(fed) =~= ids_of(players));
    assert forall|i: int| 0 <= i < players.len() implies (#[trigger] fed[i]).id == players[i].id by {}
    if distinct_ids(players) {
        assert forall|i: int, j: int| 0 <= i < j < fed.len() implies (#[trigger] fed[i]).id != (
        #[trigger] fed[j]).id by {
            assert(players[i].id != players[j].id);
        }
    }
    assert forall|id: PlayerId| has_player(fed, id) <==> has_player(players, id) by {
        if has_player(fed, id) {
            let k = index_of(fed, id);
            assert(players[k].id == id);
        }
        if has_player(players, id) {
            let k = index_of(players, id);
            assert(fed[k].id == id);
        }
    }
}

/// The identifiers of players who differ pairwise in them form a sequence
/// without repetitions, which holds exactly the identifiers of the players.
pub proof fn lemma_ids_of_distinct(players: Seq<PlayerView>)
    requires
        distinct_ids(players),
    ensures
        ids_of(players).no_duplicates(),
        ids_of(players).len() == players.len(),
        forall|id: PlayerId| ids_of(players).contains(id) <==> has_player(players, id),
{
    let ids = ids_of(players);
    assert forall|i: int, j: int| 0 <= i < ids.len() && 0 <= j < ids.len() && i != j implies ids[i]
        != ids[j] by {
        if i < j {
            assert(players[i].id != players[j].id);
        } else {
            assert(players[j].id != players[i].id);
        }
    }
    assert forall|id: PlayerId| ids.contains(id) <==> has_player(players, id) by {
        if ids.contains(id) {
            let k = choose|k: int| 0 <= k < ids.len() && ids[k] == id;
            assert(players[k].id == id);
        }
        if has_player(players, id) {
            let k = index_of(players, id);
            assert(ids[k] == id);
        }
    }
}

impl PlayerRegistry {
    /// The identifiers of the live players, in the order in which the players
    /// registered.
    pub fn ids(&self) -> (ids: Vec<PlayerId>)
        ensures
            ids@ == ids_of(self@),
    {
        let mut ids: Vec<PlayerId> = Vec::new();
        let mut i: usize = 0;
        while i < self.players.len()
            invariant
                i <= self.players.len(),
                ids@ == ids_of(self@.take(i as int)),
            decreases self.players.len() - i,
        {
            ids.push(self.players[i].id);
            proof {
                assert(ids@ =~= ids_of(self@.take(i + 1)));
            }
            i = i + 1;
        }
        proof {
            assert(self@.take(i as int) =~= self@);
        }
        ids
    }

    /// The player with the highest score, or `None` if there is no player.
    /// Among players with the same score the one who registered first leads.
    pub fn leader(&self) -> (best: Option<PlayerId>)
        ensures
            best == leader(self@),
            match best {
                Some(id) => exists|i: int| leads(self@, i) && self@[i].id == id,
                None => self@.len() == 0,
            },
    {
        if self.players.len() == 0 {
            return None;
        }
        let mut best: usize = 0;
        let mut i: usize = 1;
        while i < self.players.len()
            invariant
                1 <= i <= self.players.len(),
                best < i,
                forall|j: int| 0 <= j < i ==> (#[trigger] self@[j]).score <= self@[best as int].score,
                forall|j: int| 0 <= j < best ==> (#[trigger] self@[j]).score < self@[best as int].score,
            decreases self.players.len() - i,
        {
            if self.players[i].score > self.players[best].score {
                best = i;
            }
            i = i + 1;
        }
        proof {
            assert(leads(self@, best as int));
            lemma_leader_is_unique(self@, best as int);
        }
        Some(self.players[best].id)
    }

    /// The identifiers of the players who starve at the time `now`: the
    /// hippo is due to eat and the food pile is empty.
    pub fn starving(&self, now: u64) -> (ids: Vec<PlayerId>)
        ensures
            ids@ == ids_of(self@.filter(starving_at(now))),
    {
        let mut ids: Vec<PlayerId> = Vec::new();
        let mut i: usize = 0;
        proof {
            reveal(Seq::filter);
            assert(self@.take(0).filter(starving_at(now)) =~= Seq::<PlayerView>::empty());
        }
        while i < self.players.len()
            invariant
                i <= self.players.len(),
                ids@ == ids_of(self@.take(i as int).filter(starving_at(now))),
            decreases self.players.len() - i,
        {
            proof {
                assert(self@.take(i + 1) =~= self@.take(i as int).push(self@[i as int]));
                self@.take(i as int).lemma_filter_push(self@[i as int], starving_at(now));
            }
            let player = &self.players[i];
            if player.next_eat_time <= now && player.marbles == 0 {
                ids.push(player.id);
                proof {
                    assert(ids@ =~= ids_of(self@.take(i + 1).filter(starving_at(now))));
                }
            }
            i = i + 1;
        }
        proof {
            assert(self@.take(i as int) =~= self@);
        }
        ids
    }

    /// Removes every player whose identifier is in `doomed`, and returns the
    /// players removed, in the order in which they registered. The players
    /// that stay keep their order.
    pub fn remove_all(&mut self, doomed: &Vec<PlayerId>) -> (removed: Vec<Player>)
        requires
            old(self).wf(),
        ensures
            final(self).wf(),
            final(self)@ == old(self)@.filter(outside(doomed@)),
            player_views(removed@) == old(self)@.filter(among(doomed@)),
    {
        let mut removed: Vec<Player> = Vec::new();
        let mut i: usize = 0;
        let ghost before = old(self)@;
        proof {
            reveal(Seq::filter);
            assert(before.take(0).filter(outside(doomed@)) =~= Seq::<PlayerView>::empty());
            assert(before.take(0).filter(among(doomed@)) =~= Seq::<PlayerView>::empty());
            assert(self@.subrange(0, 0) =~= Seq::<PlayerView>::empty());
            assert(self@.subrange(0, self@.len() as int) =~= before.skip(0));
            assert(player_views(removed@) =~= Seq::<PlayerView>::empty());
        }
        while i < self.players.len()
            invariant
                i <= self@.len() <= before.len(),
                self@.len() == self.players@.len(),
                self@.subrange(0, i as int) == before.take(before.len() - (self@.len() - i)).filter(
                    outside(doomed@),
                ),
                self@.subrange(i as int, self@.len() as int) == before.skip(
                    before.len() - (self@.len() - i),
                ),
                player_views(removed@) == before.take(before.len() - (self@.len() - i)).filter(
                    among(doomed@),
                ),
            decreases self@.len() - i,
        {
            let ghost k = before.len() - (self@.len() - i);
            let ghost current = self@;
            proof {
                assert(current[i as int] == current.subrange(i as int, current.len() as int)[0]);
                assert(current[i as int] == before[k]);
                assert(before.take(k + 1) =~= before.take(k).push(before[k]));
                before.take(k).lemma_filter_push(before[k], outside(doomed@));
                before.take(k).lemma_filter_push(before[k], among(doomed@));
            }
            if position_of(doomed, self.players[i].id).is_some() {
                let ghost taken = removed@;
                let player = self.players.remove(i);
                removed.push(player);
                proof {
                    assert(self@ =~= current.remove(i as int));
                    assert(self@.subrange(0, i as int) =~= current.subrange(0, i as int));
                    let tail = self@.subrange(i as int, self@.len() as int);
                    assert forall|j: int| 0 <= j < tail.len() implies #[trigger] tail[j]
                        == before.skip(k + 1)[j] by {
                        assert(self@[i + j] == current[i + j + 1]);
                        assert(current[i + j + 1] == current.subrange(
                            i as int,
                            current.len() as int,
                        )[j + 1]);
                    }
                    assert(self@.subrange(i as int, self@.len() as int) =~= before.skip(k + 1));
                    assert(player_views(removed@) =~= player_views(taken).push(before[k]));
                }
            } else {
                proof {
                    assert(current.subrange(0, i + 1) =~= current.subrange(0, i as int).push(
                        before[k],
                    ));
                    let tail = current.subrange(i + 1, current.len() as int);
                    assert forall|j: int| 0 <= j < tail.len() implies #[trigger] tail[j]
                        == before.skip(k + 1)[j] by {
                        assert(current[i + j + 1] == current.subrange(
                            i as int,
                            current.len() as int,
                        )[j + 1]);
                    }
                    assert(current.subrange(i + 1, current.len() as int) =~= before.skip(k + 1));
                }
                i = i + 1;
            }
        }
        proof {
            assert(before.take(before.len() as int) =~= before);
            assert(self@.subrange(0, i as int) =~= self@);
            lemma_filter_players(before, outside(doomed@));
        }
        removed
    }

    /// Whether `serve_meals` can be called at the time `now`: whether every
    /// meal that is due can be counted in machine integers.
    pub fn meals_fit(&self, now: u64, eat_interval: u64) -> (fits: bool)
        ensures
            fits == meals_fit(self@, now, eat_interval),
    {
        let mut i: usize = 0;
        while i < self.players.len()
            invariant
                i <= self.players.len(),
                forall|k: int|
                    0 <= k < i && (#[trigger] self@[k]).eats(now) ==> self@[k].meal_fits(
                        eat_interval,
                    ),
            decreases self.players.len() - i,
        {
            let player = &self.players[i];
            if player.next_eat_time <= now && player.marbles > 0 {
                if player.score == usize::MAX || player.next_eat_time > u64::MAX - eat_interval {
                    assert(self@[i as int].eats(now) && !self@[i as int].meal_fits(eat_interval));
                    return false;
                }
            }
            i = i + 1;
        }
        true
    }

    /// Lets every hippo eat that is due at the time `now` and has a marble
    /// left: the player loses a marble and gains a point, and the next meal is
    /// due `eat_interval` after this one was. Returns one `HippoEat` event for
    /// each meal, in the order of the players.
    ///
    /// Players whose hippo is not due, or whose food pile is empty, are left
    /// as they are.
    pub fn serve_meals(&mut self, now: u64, eat_interval: u64) -> (events: Vec<HostBroadcast>)
        requires
            old(self).wf(),
            meals_fit(old(self)@, now, eat_interval),
        ensures
            final(self).wf(),
            final(self)@ == after_meals(old(self)@, now, eat_interval),
            crate::broadcast::views_of(events@) == meal_events(old(self)@, now),
    {
        let mut events: Vec<HostBroadcast> = Vec::new();
        let mut i: usize = 0;
        let ghost before = old(self)@;
        proof {
            reveal(Seq::filter);
            assert(before.take(0).filter(eating_at(now)) =~= Seq::<PlayerView>::empty());
            assert(crate::broadcast::views_of(events@) =~= meal_events(before.take(0), now));
        }
        while i < self.players.len()
            invariant
                i <= self@.len(),
                self@.len() == before.len(),
                self@.len() == self.players@.len(),
                forall|k: int|
                    0 <= k < before.len() && (#[trigger] before[k]).eats(now)
                        ==> before[k].meal_fits(eat_interval),
                forall|k: int|
                    0 <= k < i ==> (#[trigger] self@[k]) == after_meals(before, now, eat_interval)[k],
                forall|k: int| i <= k < before.len() ==> (#[trigger] self@[k]) == before[k],
                crate::broadcast::views_of(events@) == meal_events(before.take(i as int), now),
            decreases self@.len() - i,
        {
            let ghost current = self@;
            let ghost sent = events@;
            proof {
                assert(current[i as int] == before[i as int]);
                assert(before.take(i + 1) =~= before.take(i as int).push(before[i as int]));
                before.take(i as int).lemma_filter_push(before[i as int], eating_at(now));
            }
            if self.players[i].next_eat_time <= now && self.players[i].marbles > 0 {
                let score = self.players[i].score + 1;
                let marbles = self.players[i].marbles - 1;
                let next_eat_time = self.players[i].next_eat_time + eat_interval;
                self.players[i].score = score;
                self.players[i].marbles = marbles;
                self.players[i].next_eat_time = next_eat_time;
                events.push(HostBroadcast::HippoEat { id: self.players[i].id, score, inventory: marbles });
                proof {
                    assert(self@ =~= current.update(
                        i as int,
                        before[i as int].after_meal(eat_interval),
                    ));
                    assert(crate::broadcast::views_of(events@) =~= crate::broadcast::views_of(
                        sent,
                    ).push(meal_event(before[i as int])));
                    assert(meal_events(before.take(i + 1), now) =~= meal_events(
                        before.take(i as int),
                        now,
                    ).push(meal_event(before[i as int])));
                }
            }
            i = i + 1;
        }
        proof {
            assert(before.take(i as int) =~= before);
            assert(self@ =~= after_meals(before, now, eat_interval));
            lemma_meals_keep_ids(before, now, eat_interval);
        }
        events
    }
}

/// One operation on a registry and the generator that it takes its
/// identifiers from.
pub ghost enum RegistryOp {
    /// A registration with the given name, food pile and first meal time.
    Register { name: Seq<char>, marbles: usize, next_eat_time: u64 },
    /// A feeding of the player `id`.
    Feed { id: PlayerId },
    /// A removal of the player `id`.
    Remove { id: PlayerId },
}

/// A registry together with the generator that it takes its identifiers from,
/// as mathematical values.
pub ghost struct RegistryState {
    /// The live players, in the order in which they registered.
    pub players: Seq<PlayerView>,
    /// The number of identifiers handed out so far.
    pub issued: nat,
}

impl RegistryState {
    /// The invariant of a registry that takes its identifiers from one
    /// generator: no two players share an identifier, and every player's
    /// identifier has been handed out.
    pub open spec fn wf(self) -> bool {
        &&& distinct_ids(self.players)
        &&& forall|id: PlayerId| #[trigger]
            has_player(self.players, id) ==> (id.0 as nat) < self.issued
    }

    /// Whether `op` changes the number of players: a registration whose
    /// identifier is free, or a removal of a player who is there.
    pub open spec fn succeeds(self, op: RegistryOp) -> bool {
        match op {
            RegistryOp::Register { .. } => !has_player(self.players, PlayerId(self.issued as u64)),
            RegistryOp::Feed { id } => has_player(self.players, id),
            RegistryOp::Remove { id } => has_player(self.players, id),
        }
    }

    /// The state after `op`, as `register`, `feed` and `remove` leave it.
    pub open spec fn apply(self, op: RegistryOp) -> RegistryState {
        match op {
            RegistryOp::Register { name, marbles, next_eat_time } => RegistryState {
                players: after_register(
                    self.players,
                    PlayerId(self.issued as u64),
                    name,
                    marbles,
                    next_eat_time,
                ),
                issued: self.issued + 1,
            },
            RegistryOp::Feed { id } => RegistryState {
                players: after_feed(self.players, id),
                ..self
            },
            RegistryOp::Remove { id } => RegistryState {
                players: after_remove(self.players, id),
                ..self
            },
        }
    }

    /// The state after the operations `ops`, one after the other.
    pub open spec fn run(self, ops: Seq<RegistryOp>) -> RegistryState
        decreases ops.len(),
    {
        if ops.len() == 0 {
            self
        } else {
            self.run(ops.drop_last()).apply(ops.last())
        }
    }

    /// The number of registrations among `ops` that succeed.
    pub open spec fn registrations(self, ops: Seq<RegistryOp>) -> nat
        decreases ops.len(),
    {
        if ops.len() == 0 {
            0
        } else {
            let earlier = self.registrations(ops.drop_last());
            if ops.last() is Register && self.run(ops.drop_last()).succeeds(ops.last()) {
                earlier + 1
            } else {
                earlier
            }
        }
    }

    /// The number of removals among `ops` that find their player.
    pub open spec fn removals(self, ops: Seq<RegistryOp>) -> nat
        decreases ops.len(),
    {
        if ops.len() == 0 {
            0
        } else {
            let earlier = self.removals(ops.drop_last());
            if ops.last() is Remove && self.run(ops.drop_last()).succeeds(ops.last()) {
                earlier + 1
            } else {
                earlier
            }
        }
    }
}

/// One operation keeps the invariant of a registry that takes its
/// identifiers from one generator, and under that invariant every
/// registration succeeds. A feeding changes neither who is registered nor
/// how many.
pub proof fn lemma_registry_step(state: RegistryState, op: RegistryOp)
    requires
        state.wf(),
        state.issued < u64::MAX,
    ensures
        state.apply(op).wf(),
        op is Register ==> state.succeeds(op) && state.apply(op).players.len()
            == state.players.len() + 1,
        op is Remove && state.succeeds(op) ==> state.apply(op).players.len() + 1
            == state.players.len(),
        op is Remove && !state.succeeds(op) ==> state.apply(op) == state,
        op is Feed ==> state.apply(op).players.len() == state.players.len(),
        op is Feed ==> ids_of(state.apply(op).players) == ids_of(state.players),
        op is Feed && !state.succeeds(op) ==> state.apply(op) == state,
{
    let before = state.players;
    let after = state.apply(op).players;
    match op {
        RegistryOp::Register { name, marbles, next_eat_time } => {
            let id = PlayerId(state.issued as u64);
            if has_player(before, id) {
                assert((id.0 as nat) < state.issued);
            }
            assert forall|i: int, j: int| 0 <= i < j < after.len() implies (#[trigger] after[i]).id
                != (#[trigger] after[j]).id by {
                if j < before.len() {
                    assert(before[i].id != before[j].id);
                } else {
                    assert(has_player(before, before[i].id));
                }
            }
            assert forall|other: PlayerId| #[trigger] has_player(after, other) implies (
            other.0 as nat) < state.issued + 1 by {
                let k = index_of(after, other);
                if k < before.len() {
                    assert(has_player(before, before[k].id));
                }
            }
        },
        RegistryOp::Feed { id } => {
            if has_player(before, id) {
                assert(ids_of(after) =~= ids_of(before));
                assert forall|i: int, j: int| 0 <= i < j < after.len() implies (
                #[trigger] after[i]).id != (#[trigger] after[j]).id by {
                    assert(before[i].id != before[j].id);
                }
                assert forall|other: PlayerId| #[trigger] has_player(after, other) implies (
                other.0 as nat) < state.issued by {
                    let k = index_of(after, other);
                    assert(has_player(before, before[k].id));
                }
            }
        },
        RegistryOp::Remove { id } => {
            if has_player(before, id) {
                let i = index_of(before, id);
                lemma_remove_keeps_distinct(before, i);
                assert forall|other: PlayerId| #[trigger] has_player(after, other) implies (
                other.0 as nat) < state.issued by {
                    assert(other != before[i].id);
                    assert(has_player(before, other));
                }
            }
        },
    }
}

/// Whatever operations are applied to a registry that takes its identifiers
/// from one generator, and in whatever order: no two players ever share an
/// identifier, every registration succeeds, and the number of players is the
/// number there was, plus the registrations, less the removals that found
/// their player.
pub proof fn lemma_count_is_registrations_less_removals(start: RegistryState, ops: Seq<RegistryOp>)
    requires
        start.wf(),
        start.issued + ops.len() <= u64::MAX,
    ensures
        start.run(ops).wf(),
        distinct_ids(start.run(ops).players),
        start.run(ops).players.len() + start.removals(ops) == start.players.len()
            + start.registrations(ops),
        start.run(ops).issued <= start.issued + ops.len(),
        forall|k: int|
            0 <= k < ops.len() && (#[trigger] ops[k]) is Register ==> start.run(
                ops.take(k),
            ).succeeds(ops[k]),
    decreases ops.len(),
{
    if ops.len() > 0 {
        let earlier = ops.drop_last();
        lemma_count_is_registrations_less_removals(start, earlier);
        lemma_registry_step(start.run(earlier), ops.last());
        assert forall|k: int| 0 <= k < ops.len() && (#[trigger] ops[k]) is Register implies start.run(
            ops.take(k),
        ).succeeds(ops[k]) by {
            if k < earlier.len() {
                assert(earlier[k] == ops[k]);
                assert(earlier.take(k) =~= ops.take(k));
            } else {
                assert(ops.take(k) =~= earlier);
            }
        }
    }
}

} // verus!
