use hippo_party::broadcast::{Broadcaster, SubscriberId};
use hippo_party::error::Error;
use hippo_party::events::{HostBroadcast, PlayerBroadcast};
use hippo_party::game::{Game, GameConfig};
use hippo_party::nose_goes::{NoseGoes, NoseGoesResponse};
use hippo_party::player::{PlayerId, PlayerIdGenerator};

const FIRST_ROUND: u64 = 10_000;

struct Table {
    game: Game,
    hosts: Broadcaster<HostBroadcast>,
    clients: Broadcaster<PlayerBroadcast>,
    host: SubscriberId,
    client: SubscriberId,
}

/// A game whose hippos do not eat during the test.
fn quiet_config() -> GameConfig {
    GameConfig {
        nose_goes_duration: 10_000,
        nose_goes_interval: 30_000,
        eat_interval: 1_000_000_000,
        starting_marbles: 5,
    }
}

fn table(config: GameConfig) -> Table {
    let mut hosts = Broadcaster::new();
    let mut clients = Broadcaster::new();
    let host = hosts.subscribe();
    let client = clients.subscribe();
    Table { game: Game::new(config, PlayerIdGenerator::new(), FIRST_ROUND), hosts, clients, host, client }
}

impl Table {
    fn register(&mut self, name: &str, now: u64) -> PlayerId {
        assert!(self.game.can_register(now));
        self.game.register(name.to_string(), now).id
    }

    fn tick(&mut self, now: u64) {
        assert!(self.game.can_tick(now));
        self.game.tick(now, &mut self.hosts, &mut self.clients);
    }

    fn host_events(&mut self) -> Vec<HostBroadcast> {
        let mut events = Vec::new();
        while let Some(event) = self.hosts.recv(self.host) {
            events.push(event.clone());
        }
        events
    }

    fn client_events(&mut self) -> Vec<PlayerBroadcast> {
        let mut events = Vec::new();
        while let Some(event) = self.clients.recv(self.client) {
            events.push(*event);
        }
        events
    }

    fn ids(&self) -> Vec<PlayerId> {
        self.game.players().ids()
    }
}

#[test]
fn a_new_game_waits_for_its_first_round() {
    let t = table(quiet_config());
    assert_eq!(t.game.nose_goes(), &NoseGoes::Inactive { next_start_time: FIRST_ROUND });
    assert_eq!(t.game.winner(), None);
    assert_eq!(t.game.config(), quiet_config());
    assert!(t.game.snapshot().is_empty());
}

#[test]
fn registering_gives_a_full_food_pile_and_a_first_meal_time() {
    let mut t = table(GameConfig { eat_interval: 400, ..quiet_config() });
    let player = t.game.register("Steve".to_string(), 1_000);
    assert_eq!(player.id, PlayerId(0));
    assert_eq!(player.name, "Steve");
    assert_eq!(player.score, 0);
    assert_eq!(player.marbles, 5);
    assert_eq!(player.next_eat_time, 1_400);
    let second = t.game.register("Hugo".to_string(), 2_000);
    assert_eq!(second.id, PlayerId(1));
    assert_eq!(second.next_eat_time, 2_400);
}

#[test]
fn nothing_happens_before_the_start_time() {
    let mut t = table(quiet_config());
    t.register("one", 0);
    t.register("two", 0);
    t.tick(FIRST_ROUND - 1);
    assert_eq!(t.game.nose_goes(), &NoseGoes::Inactive { next_start_time: FIRST_ROUND });
    assert!(t.host_events().is_empty());
    assert!(t.client_events().is_empty());
}

#[test]
fn a_round_begins_at_the_start_time_with_all_players() {
    let mut t = table(quiet_config());
    let p1 = t.register("one", 0);
    let p2 = t.register("two", 0);
    let p3 = t.register("three", 0);
    t.tick(FIRST_ROUND);
    assert_eq!(
        t.game.nose_goes(),
        &NoseGoes::InProgress {
            start_time: FIRST_ROUND,
            end_time: FIRST_ROUND + 10_000,
            remaining_players: vec![p1, p2, p3],
        }
    );
    assert_eq!(
        t.host_events(),
        vec![HostBroadcast::BeginNoseGoes { duration: 10_000, players: vec![p1, p2, p3] }]
    );
    assert_eq!(t.client_events(), vec![PlayerBroadcast::BeginNoseGoes]);
}

#[test]
fn a_late_tick_still_counts_the_round_from_its_start_time() {
    let mut t = table(quiet_config());
    t.register("one", 0);
    t.register("two", 0);
    t.tick(FIRST_ROUND + 4_321);
    match t.game.nose_goes() {
        NoseGoes::InProgress { start_time, end_time, .. } => {
            assert_eq!(*start_time, FIRST_ROUND);
            assert_eq!(*end_time, FIRST_ROUND + 10_000);
        }
        other => panic!("no round is running: {:?}", other),
    }
}

#[test]
fn a_single_player_never_starts_a_round() {
    let mut t = table(quiet_config());
    t.register("alone", 0);
    let mut start = FIRST_ROUND;
    for step in 0..50u64 {
        let now = FIRST_ROUND + step * 40_000;
        t.tick(now);
        start += 30_000;
        assert_eq!(t.game.nose_goes(), &NoseGoes::Inactive { next_start_time: start });
    }
    assert!(t.host_events().is_empty());
    assert!(t.client_events().is_empty());
    let now = FIRST_ROUND + 50 * 40_000;
    t.register("second", now);
    t.tick(now);
    assert!(t.game.nose_goes().in_progress());
    assert_eq!(t.client_events(), vec![PlayerBroadcast::BeginNoseGoes]);
}

#[test]
fn an_empty_game_puts_the_round_off() {
    let mut t = table(quiet_config());
    t.tick(FIRST_ROUND);
    assert_eq!(t.game.nose_goes(), &NoseGoes::Inactive { next_start_time: FIRST_ROUND + 30_000 });
    t.tick(FIRST_ROUND + 1);
    assert_eq!(t.game.nose_goes(), &NoseGoes::Inactive { next_start_time: FIRST_ROUND + 30_000 });
}

#[test]
fn the_survivor_leaves_and_the_last_one_is_knocked_out() {
    let mut t = table(quiet_config());
    let p1 = t.register("one", 0);
    let p2 = t.register("two", 0);
    t.tick(FIRST_ROUND);
    assert_eq!(t.client_events(), vec![PlayerBroadcast::BeginNoseGoes]);
    t.host_events();

    assert_eq!(t.game.resolve(p1), Ok(NoseGoesResponse::Survived));
    assert_eq!(
        t.game.nose_goes(),
        &NoseGoes::InProgress {
            start_time: FIRST_ROUND,
            end_time: FIRST_ROUND + 10_000,
            remaining_players: vec![p2],
        }
    );

    t.tick(FIRST_ROUND + 100);
    assert_eq!(t.game.nose_goes(), &NoseGoes::Inactive { next_start_time: FIRST_ROUND + 40_000 });
    assert_eq!(t.ids(), vec![p1]);
    let client_events = t.client_events();
    let losses: Vec<&PlayerBroadcast> = client_events
        .iter()
        .filter(|event| matches!(event, PlayerBroadcast::PlayerLose { .. }))
        .collect();
    assert_eq!(losses, vec![&PlayerBroadcast::PlayerLose { id: p2, score: 0 }]);
    assert_eq!(
        client_events,
        vec![
            PlayerBroadcast::PlayerLose { id: p2, score: 0 },
            PlayerBroadcast::EndNoseGoes,
            PlayerBroadcast::UpdateWinner { id: p1 },
        ]
    );
    assert_eq!(
        t.host_events(),
        vec![
            HostBroadcast::EndNoseGoes { losers: vec![p2] },
            HostBroadcast::UpdateWinner { id: p1 },
        ]
    );
    assert_eq!(t.game.winner(), Some(p1));
}

#[test]
fn the_last_player_in_the_round_cannot_leave() {
    let mut t = table(quiet_config());
    let p1 = t.register("one", 0);
    let p2 = t.register("two", 0);
    t.tick(FIRST_ROUND);
    assert_eq!(t.game.resolve(p2), Ok(NoseGoesResponse::Survived));
    assert_eq!(t.game.resolve(p1), Ok(NoseGoesResponse::Died));
    assert_eq!(t.game.resolve(p1), Ok(NoseGoesResponse::Died));
    assert_eq!(t.game.resolve(p2), Err(Error::InvalidNoseGoes));
    assert!(t.game.nose_goes().in_progress());
    t.tick(FIRST_ROUND + 1);
    assert!(!t.game.nose_goes().in_progress());
    assert_eq!(t.ids(), vec![p2]);
}

#[test]
fn resolving_outside_a_round_is_refused() {
    let mut t = table(quiet_config());
    let p1 = t.register("one", 0);
    t.register("two", 0);
    assert_eq!(t.game.resolve(p1), Err(Error::InvalidNoseGoes));
    t.tick(FIRST_ROUND);
    let p3 = t.register("late", FIRST_ROUND + 1);
    assert_eq!(t.game.resolve(p3), Err(Error::InvalidNoseGoes));
    assert_eq!(t.game.resolve(PlayerId(999)), Err(Error::InvalidNoseGoes));
}

#[test]
fn a_round_does_not_end_before_its_time() {
    let mut t = table(quiet_config());
    let p1 = t.register("one", 0);
    let p2 = t.register("two", 0);
    let p3 = t.register("three", 0);
    t.tick(FIRST_ROUND);
    t.host_events();
    t.client_events();
    assert_eq!(t.game.resolve(p2), Ok(NoseGoesResponse::Survived));
    for now in [FIRST_ROUND + 1, FIRST_ROUND + 5_000, FIRST_ROUND + 9_999] {
        t.tick(now);
        assert_eq!(
            t.game.nose_goes(),
            &NoseGoes::InProgress {
                start_time: FIRST_ROUND,
                end_time: FIRST_ROUND + 10_000,
                remaining_players: vec![p1, p3],
            }
        );
        assert_eq!(t.ids(), vec![p1, p2, p3]);
    }
    assert!(t.host_events().is_empty());
    assert!(t.client_events().is_empty());
}

#[test]
fn when_time_is_up_everyone_still_in_the_round_is_knocked_out() {
    let mut t = table(quiet_config());
    let p1 = t.register("one", 0);
    let p2 = t.register("two", 0);
    let p3 = t.register("three", 0);
    assert_eq!(t.game.feed(p1), Ok(1));
    assert_eq!(t.game.feed(p3), Ok(1));
    assert_eq!(t.game.feed(p3), Ok(2));
    t.tick(FIRST_ROUND);
    t.host_events();
    t.client_events();
    assert_eq!(t.game.resolve(p2), Ok(NoseGoesResponse::Survived));
    t.tick(FIRST_ROUND + 10_000);
    assert_eq!(t.game.nose_goes(), &NoseGoes::Inactive { next_start_time: FIRST_ROUND + 40_000 });
    assert_eq!(t.ids(), vec![p2]);
    assert_eq!(
        t.client_events(),
        vec![
            PlayerBroadcast::PlayerLose { id: p1, score: 1 },
            PlayerBroadcast::PlayerLose { id: p3, score: 2 },
            PlayerBroadcast::EndNoseGoes,
            PlayerBroadcast::UpdateWinner { id: p2 },
        ]
    );
    assert_eq!(
        t.host_events(),
        vec![
            HostBroadcast::EndNoseGoes { losers: vec![p1, p3] },
            HostBroadcast::UpdateWinner { id: p2 },
        ]
    );
}

#[test]
fn a_round_that_knocks_everyone_out_leaves_no_winner() {
    let mut t = table(quiet_config());
    let p1 = t.register("one", 0);
    let p2 = t.register("two", 0);
    t.tick(FIRST_ROUND);
    t.host_events();
    t.client_events();
    t.tick(FIRST_ROUND + 20_000);
    assert!(t.ids().is_empty());
    assert_eq!(t.game.winner(), None);
    assert_eq!(t.host_events(), vec![HostBroadcast::EndNoseGoes { losers: vec![p1, p2] }]);
    assert_eq!(
        t.client_events(),
        vec![
            PlayerBroadcast::PlayerLose { id: p1, score: 0 },
            PlayerBroadcast::PlayerLose { id: p2, score: 0 },
            PlayerBroadcast::EndNoseGoes,
        ]
    );
}

#[test]
fn an_unchanged_winner_is_not_announced_again() {
    let mut t = table(quiet_config());
    let p1 = t.register("one", 0);
    let p2 = t.register("two", 0);
    t.game.feed(p1).unwrap();
    t.tick(FIRST_ROUND);
    t.game.resolve(p1).unwrap();
    t.tick(FIRST_ROUND + 1);
    assert_eq!(t.game.winner(), Some(p1));
    t.host_events();
    t.client_events();

    let p3 = t.register("three", FIRST_ROUND + 2);
    let next_round = FIRST_ROUND + 40_000;
    t.tick(next_round);
    assert!(t.game.nose_goes().in_progress());
    t.game.resolve(p1).unwrap();
    t.host_events();
    t.client_events();
    t.tick(next_round + 1);
    assert_eq!(t.ids(), vec![p1]);
    assert_eq!(t.host_events(), vec![HostBroadcast::EndNoseGoes { losers: vec![p3] }]);
    assert_eq!(
        t.client_events(),
        vec![PlayerBroadcast::PlayerLose { id: p3, score: 0 }, PlayerBroadcast::EndNoseGoes]
    );
    assert_eq!(t.game.winner(), Some(p1));
    assert!(p2 != p3);
}

#[test]
fn the_round_only_ever_loses_players() {
    let mut t = table(quiet_config());
    let mut players = Vec::new();
    for i in 0..6 {
        players.push(t.register(&format!("p{}", i), 0));
    }
    t.tick(FIRST_ROUND);
    let mut remaining = players.clone();
    for (step, id) in players.iter().take(4).enumerate() {
        t.register("latecomer", FIRST_ROUND + 1);
        t.game.feed(*id).unwrap();
        assert_eq!(t.game.resolve(*id), Ok(NoseGoesResponse::Survived));
        remaining.retain(|other| other != id);
        t.tick(FIRST_ROUND + 10 + step as u64);
        match t.game.nose_goes() {
            NoseGoes::InProgress { remaining_players, .. } => {
                assert_eq!(remaining_players, &remaining);
                for id in remaining_players {
                    assert!(t.game.players().contains(*id));
                }
            }
            other => panic!("the round ended early: {:?}", other),
        }
    }
}

#[test]
fn a_due_hippo_eats_one_marble_for_one_point() {
    let mut t = table(GameConfig { eat_interval: 1_000, starting_marbles: 2, ..quiet_config() });
    let p1 = t.register("one", 0);
    t.tick(999);
    assert!(t.host_events().is_empty());
    t.tick(1_000);
    assert_eq!(t.host_events(), vec![HostBroadcast::HippoEat { id: p1, score: 1, inventory: 1 }]);
    let player = t.game.players().get(p1).unwrap();
    assert_eq!((player.score, player.marbles, player.next_eat_time), (1, 1, 2_000));
    t.tick(1_500);
    assert!(t.host_events().is_empty());
    t.tick(2_000);
    assert_eq!(t.host_events(), vec![HostBroadcast::HippoEat { id: p1, score: 2, inventory: 0 }]);
    assert!(t.client_events().is_empty());
}

#[test]
fn a_player_with_an_empty_pile_starves_at_the_next_meal() {
    let mut t = table(GameConfig { eat_interval: 1_000, starting_marbles: 1, ..quiet_config() });
    let p1 = t.register("one", 0);
    let p2 = t.register("two", 500);
    t.game.feed(p1).unwrap();
    t.tick(1_000);
    assert_eq!(t.host_events(), vec![HostBroadcast::HippoEat { id: p1, score: 2, inventory: 0 }]);
    t.tick(2_000);
    assert_eq!(t.ids(), vec![p2]);
    assert_eq!(t.client_events(), vec![PlayerBroadcast::PlayerLose { id: p1, score: 2 }]);
    assert_eq!(t.host_events(), vec![HostBroadcast::HippoEat { id: p2, score: 1, inventory: 0 }]);
    assert_eq!(t.game.feed(p1), Err(Error::InvalidPlayer(p1)));
}

#[test]
fn a_player_who_starves_leaves_the_round_too() {
    let config = GameConfig {
        nose_goes_duration: 10_000,
        nose_goes_interval: 30_000,
        eat_interval: 10_500,
        starting_marbles: 0,
    };
    let mut t = table(config);
    let p1 = t.register("one", 0);
    let p2 = t.register("two", 2_000);
    let p3 = t.register("three", 2_000);
    t.tick(FIRST_ROUND);
    t.host_events();
    t.client_events();
    t.tick(10_500);
    assert_eq!(t.ids(), vec![p2, p3]);
    assert_eq!(
        t.game.nose_goes(),
        &NoseGoes::InProgress { start_time: FIRST_ROUND, end_time: 20_000, remaining_players: vec![p2, p3] }
    );
    assert_eq!(t.client_events(), vec![PlayerBroadcast::PlayerLose { id: p1, score: 0 }]);
    assert_eq!(t.game.resolve(p1), Err(Error::InvalidNoseGoes));
}

#[test]
fn feeding_through_the_game_counts_up() {
    let mut t = table(quiet_config());
    let p1 = t.register("one", 0);
    for expected in 1..=5usize {
        assert!(t.game.can_feed(p1));
        assert_eq!(t.game.feed(p1), Ok(expected));
    }
    assert_eq!(t.game.feed(PlayerId(5)), Err(Error::InvalidPlayer(PlayerId(5))));
    assert_eq!(t.game.snapshot()[0].score, 5);
}

#[test]
fn a_tick_that_cannot_be_counted_is_told_apart() {
    let config = GameConfig { nose_goes_interval: u64::MAX, ..quiet_config() };
    let t = table(config);
    assert!(!t.game.can_tick(0));
    let t = table(quiet_config());
    assert!(t.game.can_tick(u64::MAX));
    assert!(!t.game.can_register(u64::MAX));
    assert!(t.game.can_register(0));
}

#[test]
fn a_removed_player_leaves_the_game_and_the_round() {
    let mut t = table(quiet_config());
    let p1 = t.register("one", 0);
    let p2 = t.register("two", 0);
    let p3 = t.register("three", 0);
    t.game.feed(p2).unwrap();
    t.tick(FIRST_ROUND);
    let removed = t.game.remove(p2).expect("the player was live");
    assert_eq!((removed.id, removed.score), (p2, 1));
    assert_eq!(t.ids(), vec![p1, p3]);
    assert_eq!(
        t.game.nose_goes(),
        &NoseGoes::InProgress {
            start_time: FIRST_ROUND,
            end_time: FIRST_ROUND + 10_000,
            remaining_players: vec![p1, p3],
        }
    );
    assert!(t.game.remove(p2).is_none());
    assert_eq!(t.game.resolve(p2), Err(Error::InvalidNoseGoes));
    assert_eq!(t.game.feed(p2), Err(Error::InvalidPlayer(p2)));
}
