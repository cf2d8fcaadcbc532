use hippo_party::api::{
    feed_player, get_players, nose_goes, register_named, register_player, FeedMeRequest,
    FeedMeResponse, RegisterPlayerResponse,
};
use hippo_party::broadcast::{Broadcaster, SubscriberId};
use hippo_party::error::Error;
use hippo_party::events::{HostBroadcast, PlayerBroadcast};
use hippo_party::game::{Game, GameConfig};
use hippo_party::names::USERNAMES;
use hippo_party::nose_goes::NoseGoesResponse;
use hippo_party::player::{PlayerData, PlayerId, PlayerIdGenerator};

fn new_game() -> Game {
    let config = GameConfig {
        nose_goes_duration: 10_000,
        nose_goes_interval: 30_000,
        eat_interval: 1_000_000,
        starting_marbles: 4,
    };
    Game::new(config, PlayerIdGenerator::new(), 10_000)
}

fn received(hosts: &mut Broadcaster<HostBroadcast>, id: SubscriberId) -> Vec<HostBroadcast> {
    let mut events = Vec::new();
    while let Some(event) = hosts.recv(id) {
        events.push(event.clone());
    }
    events
}

#[test]
fn registering_under_a_name_answers_and_announces_the_player() {
    let mut game = new_game();
    let mut hosts = Broadcaster::new();
    let display = hosts.subscribe();
    let response = register_named(&mut game, &mut hosts, "Zippo".to_string(), 5);
    assert_eq!(
        response,
        RegisterPlayerResponse { id: PlayerId(0), name: "Zippo".to_string(), score: 0, inventory_count: 4 }
    );
    assert_eq!(
        received(&mut hosts, display),
        vec![HostBroadcast::PlayerRegistered {
            id: PlayerId(0),
            name: "Zippo".to_string(),
            score: 0,
            inventory: 4,
        }]
    );
    assert_eq!(game.players().get(PlayerId(0)).unwrap().next_eat_time, 1_000_005);
}

#[test]
fn registering_picks_a_name_from_the_list() {
    let mut game = new_game();
    let mut hosts = Broadcaster::new();
    let display = hosts.subscribe();
    let first = register_player(&mut game, &mut hosts, 0);
    let second = register_player(&mut game, &mut hosts, 0);
    assert_eq!(first.id, PlayerId(0));
    assert_eq!(second.id, PlayerId(1));
    assert!(USERNAMES.contains(&first.name.as_str()));
    assert!(USERNAMES.contains(&second.name.as_str()));
    assert_eq!((first.score, first.inventory_count), (0, 4));
    assert_eq!(
        received(&mut hosts, display),
        vec![
            HostBroadcast::PlayerRegistered { id: first.id, name: first.name, score: 0, inventory: 4 },
            HostBroadcast::PlayerRegistered { id: second.id, name: second.name, score: 0, inventory: 4 },
        ]
    );
}

#[test]
fn feeding_answers_with_the_score_and_announces_it() {
    let mut game = new_game();
    let mut hosts = Broadcaster::new();
    let id = register_named(&mut game, &mut hosts, "one".to_string(), 0).id;
    let display = hosts.subscribe();
    assert_eq!(feed_player(FeedMeRequest { id }, &mut game, &mut hosts), Ok(FeedMeResponse { score: 1 }));
    assert_eq!(feed_player(FeedMeRequest { id }, &mut game, &mut hosts), Ok(FeedMeResponse { score: 2 }));
    assert_eq!(
        received(&mut hosts, display),
        vec![
            HostBroadcast::HippoEat { id, score: 1, inventory: 4 },
            HostBroadcast::HippoEat { id, score: 2, inventory: 4 },
        ]
    );
}

#[test]
fn feeding_a_stale_identifier_is_refused_in_silence() {
    let mut game = new_game();
    let mut hosts = Broadcaster::new();
    register_named(&mut game, &mut hosts, "one".to_string(), 0);
    let display = hosts.subscribe();
    let before = get_players(&game);
    let stale = PlayerId(12);
    assert_eq!(
        feed_player(FeedMeRequest { id: stale }, &mut game, &mut hosts),
        Err(Error::InvalidPlayer(stale))
    );
    assert!(received(&mut hosts, display).is_empty());
    assert_eq!(get_players(&game), before);
}

#[test]
fn the_list_of_players_shows_their_public_fields() {
    let mut game = new_game();
    let mut hosts = Broadcaster::new();
    let a = register_named(&mut game, &mut hosts, "one".to_string(), 0).id;
    let b = register_named(&mut game, &mut hosts, "two".to_string(), 0).id;
    feed_player(FeedMeRequest { id: b }, &mut game, &mut hosts).unwrap();
    assert_eq!(
        get_players(&game).players,
        vec![
            PlayerData { id: a, name: "one".to_string(), score: 0, inventory_count: 4 },
            PlayerData { id: b, name: "two".to_string(), score: 1, inventory_count: 4 },
        ]
    );
}

#[test]
fn the_nose_goes_command_follows_the_round() {
    let mut game = new_game();
    let mut hosts = Broadcaster::new();
    let mut clients: Broadcaster<PlayerBroadcast> = Broadcaster::new();
    let a = register_named(&mut game, &mut hosts, "one".to_string(), 0).id;
    let b = register_named(&mut game, &mut hosts, "two".to_string(), 0).id;
    assert_eq!(nose_goes(a, &mut game), Err(Error::InvalidNoseGoes));
    game.tick(10_000, &mut hosts, &mut clients);
    assert_eq!(nose_goes(PlayerId(9), &mut game), Err(Error::InvalidNoseGoes));
    assert_eq!(nose_goes(a, &mut game), Ok(NoseGoesResponse::Survived));
    assert_eq!(nose_goes(a, &mut game), Err(Error::InvalidNoseGoes));
    assert_eq!(nose_goes(b, &mut game), Ok(NoseGoesResponse::Died));
    game.tick(10_100, &mut hosts, &mut clients);
    assert_eq!(nose_goes(b, &mut game), Err(Error::InvalidNoseGoes));
    assert_eq!(get_players(&game).players.len(), 1);
}
