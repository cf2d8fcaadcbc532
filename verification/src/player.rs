//! Player identifiers, the generator that hands them out, and player state.

use vstd::prelude::*;

verus! {

/// Uniquely identifies a registered player.
///
/// Identifiers are opaque tokens: the engine only compares them. On the wire
/// an identifier travels as a decimal string, never as a number.
#[derive(Debug, Clone, Copy, PartialEq, Eq, Hash, Structural)]
pub struct PlayerId(pub u64);

impl PlayerId {
    /// A random identifier.
    ///
    /// The identifier is drawn from all 64-bit numbers, so it is unlikely,
    /// but not impossible, that it is in use. A game takes its identifiers
    /// from a `PlayerIdGenerator`, which never repeats itself.
    pub fn new() -> PlayerId {
        PlayerId(crate::random::random_u64())
    }
}

/// Hands out player identifiers in increasing order, each one once.
pub struct PlayerIdGenerator {
    next: u64,
}

impl PlayerIdGenerator {
    /// The number of identifiers handed out so far.
    pub closed spec fn issued(&self) -> nat {
        self.next as nat
    }

    /// Whether `id` has been returned by an earlier call of `next_id`.
    pub open spec fn has_issued(&self, id: PlayerId) -> bool {
        (id.0 as nat) < self.issued()
    }

    /// Whether every identifier has been handed out.
    pub open spec fn is_exhausted(&self) -> bool {
        self.issued() >= u64::MAX
    }

    /// A generator that has handed out nothing yet.
    pub fn new() -> (generator: PlayerIdGenerator)
        ensures
            generator.issued() == 0,
    {
        PlayerIdGenerator { next: 0 }
    }

    /// Whether every identifier has been handed out, so that `next_id` can no
    /// longer be called.
    pub fn exhausted(&self) -> (done: bool)
        ensures
            done == self.is_exhausted(),
    {
        self.next == u64::MAX
    }

    /// Returns an identifier that no earlier call has returned.
    ///
    /// Identifiers come out in increasing order, so the new one is larger than
    /// every identifier issued before it.
    pub fn next_id(&mut self) -> (id: PlayerId)
        requires
            !old(self).is_exhausted(),
        ensures
            id.0 as nat == old(self).issued(),
            !old(self).has_issued(id),
            final(self).issued() == old(self).issued() + 1,
            forall|other: PlayerId|
                final(self).has_issued(other) <==> (old(self).has_issued(other) || other == id),
    {
        let id = PlayerId(self.next);
        self.next = self.next + 1;
        id
    }
}

/// The current state of a single player.
#[derive(Debug, PartialEq, Eq)]
pub struct Player {
    /// The player's identifier.
    pub id: PlayerId,
    /// The player's display name.
    pub name: String,
    /// The player's current score.
    pub score: usize,
    /// The marbles left in the player's food pile.
    pub marbles: usize,
    /// The time, in milliseconds, at which the player's hippo eats next.
    pub next_eat_time: u64,
}

/// What a `Player` holds, as mathematical values.
pub ghost struct PlayerView {
    pub id: PlayerId,
    pub name: Seq<char>,
    pub score: usize,
    pub marbles: usize,
    pub next_eat_time: u64,
}

impl View for Player {
    type V = PlayerView;

    open spec fn view(&self) -> PlayerView {
        PlayerView {
            id: self.id,
            name: self.name@,
            score: self.score,
            marbles: self.marbles,
            next_eat_time: self.next_eat_time,
        }
    }
}

impl Clone for Player {
    fn clone(&self) -> (copy: Player)
        ensures
            copy@ == self@,
    {
        Player {
            id: self.id,
            name: self.name.clone(),
            score: self.score,
            marbles: self.marbles,
            next_eat_time: self.next_eat_time,
        }
    }
}

/// The public part of a player's state, as sent to host displays.
#[derive(Debug, PartialEq, Eq)]
pub struct PlayerData {
    /// The player's identifier.
    pub id: PlayerId,
    /// The player's display name.
    pub name: String,
    /// The player's current score.
    pub score: usize,
    /// The marbles left in the player's food pile.
    pub inventory_count: usize,
}

/// What a `PlayerData` holds, as mathematical values.
pub ghost struct PlayerDataView {
    pub id: PlayerId,
    pub name: Seq<char>,
    pub score: usize,
    pub inventory_count: usize,
}

impl View for PlayerData {
    type V = PlayerDataView;

    open spec fn view(&self) -> PlayerDataView {
        PlayerDataView {
            id: self.id,
            name: self.name@,
            score: self.score,
            inventory_count: self.inventory_count,
        }
    }
}

impl PlayerView {
    /// Whether the player's hippo is due to eat at the time `now`.
    pub open spec fn is_due(self, now: u64) -> bool {
        self.next_eat_time <= now
    }

    /// Whether the hippo eats at the time `now`: it is due, and a marble is
    /// left for it.
    pub open spec fn eats(self, now: u64) -> bool {
        self.is_due(now) && self.marbles > 0
    }

    /// Whether the player starves at the time `now`: the hippo is due, and
    /// the food pile is empty.
    pub open spec fn starves(self, now: u64) -> bool {
        self.is_due(now) && self.marbles == 0
    }

    /// The player after the hippo has eaten: one marble less, one point more,
    /// and the next meal `eat_interval` later than this one was due.
    pub open spec fn after_meal(self, eat_interval: u64) -> PlayerView {
        PlayerView {
            score: (self.score + 1) as usize,
            marbles: (self.marbles - 1) as usize,
            next_eat_time: (self.next_eat_time + eat_interval) as u64,
            ..self
        }
    }

    /// Whether a meal can be counted in machine integers.
    pub open spec fn meal_fits(self, eat_interval: u64) -> bool {
        self.score < usize::MAX && self.next_eat_time + eat_interval <= u64::MAX
    }

    /// The part of a player's state that host displays see.
    pub open spec fn public_data(self) -> PlayerDataView {
        PlayerDataView {
            id: self.id,
            name: self.name,
            score: self.score,
            inventory_count: self.marbles,
        }
    }
}

impl Player {
    /// A copy of the fields that host displays see.
    pub fn public_data(&self) -> (data: PlayerData)
        ensures
            data@ == self@.public_data(),
    {
        PlayerData {
            id: self.id,
            name: self.name.clone(),
            score: self.score,
            inventory_count: self.marbles,
        }
    }
}

} // verus!
