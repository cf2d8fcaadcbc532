use hippo_party::error::Error;
use hippo_party::player::{PlayerData, PlayerId, PlayerIdGenerator};
use hippo_party::registry::PlayerRegistry;

fn register(registry: &mut PlayerRegistry, ids: &mut PlayerIdGenerator, name: &str) -> PlayerId {
    registry.register(ids, name.to_string(), 3, 1_000).expect("a fresh identifier").id
}

#[test]
fn generator_counts_up_from_zero() {
    let mut ids = PlayerIdGenerator::new();
    assert!(!ids.exhausted());
    assert_eq!(ids.next_id(), PlayerId(0));
    assert_eq!(ids.next_id(), PlayerId(1));
    assert_eq!(ids.next_id(), PlayerId(2));
}

#[test]
fn generator_never_repeats_itself() {
    let mut ids = PlayerIdGenerator::new();
    let mut seen: Vec<PlayerId> = Vec::new();
    for _ in 0..200 {
        let id = ids.next_id();
        assert!(!seen.contains(&id));
        seen.push(id);
    }
}

#[test]
fn three_registered_players_are_listed_with_score_zero() {
    let mut ids = PlayerIdGenerator::new();
    let mut registry = PlayerRegistry::new();
    let p1 = register(&mut registry, &mut ids, "one");
    let p2 = register(&mut registry, &mut ids, "two");
    let p3 = register(&mut registry, &mut ids, "three");
    assert_eq!(
        registry.snapshot(),
        vec![
            PlayerData { id: p1, name: "one".to_string(), score: 0, inventory_count: 3 },
            PlayerData { id: p2, name: "two".to_string(), score: 0, inventory_count: 3 },
            PlayerData { id: p3, name: "three".to_string(), score: 0, inventory_count: 3 },
        ]
    );
    assert!(p1 != p2 && p2 != p3 && p1 != p3);
    assert_eq!(registry.len(), 3);
}

#[test]
fn a_registered_player_has_what_it_was_registered_with() {
    let mut ids = PlayerIdGenerator::new();
    let mut registry = PlayerRegistry::new();
    let player = registry.register(&mut ids, "Steve".to_string(), 7, 250).unwrap();
    assert_eq!(player.id, PlayerId(0));
    assert_eq!(player.name, "Steve");
    assert_eq!(player.score, 0);
    assert_eq!(player.marbles, 7);
    assert_eq!(player.next_eat_time, 250);
    assert_eq!(registry.get(PlayerId(0)), Some(&player));
    assert_eq!(registry.get(PlayerId(1)), None);
}

#[test]
fn feeding_five_times_counts_from_one_to_five() {
    let mut ids = PlayerIdGenerator::new();
    let mut registry = PlayerRegistry::new();
    let p1 = register(&mut registry, &mut ids, "one");
    let p2 = register(&mut registry, &mut ids, "two");
    for expected in 1..=5usize {
        assert_eq!(registry.feed(p1), Ok(expected));
    }
    assert_eq!(registry.get(p1).unwrap().score, 5);
    assert_eq!(registry.get(p2).unwrap().score, 0);
    assert_eq!(registry.get(p1).unwrap().marbles, 3);
}

#[test]
fn feeding_a_removed_player_is_refused() {
    let mut ids = PlayerIdGenerator::new();
    let mut registry = PlayerRegistry::new();
    let p1 = register(&mut registry, &mut ids, "one");
    assert_eq!(registry.feed(p1), Ok(1));
    let removed = registry.remove(p1).expect("the player was there");
    assert_eq!(removed.id, p1);
    assert_eq!(removed.score, 1);
    assert_eq!(registry.feed(p1), Err(Error::InvalidPlayer(p1)));
}

#[test]
fn feeding_an_unknown_player_changes_nothing() {
    let mut ids = PlayerIdGenerator::new();
    let mut registry = PlayerRegistry::new();
    register(&mut registry, &mut ids, "one");
    register(&mut registry, &mut ids, "two");
    let before = registry.snapshot();
    assert_eq!(registry.feed(PlayerId(99)), Err(Error::InvalidPlayer(PlayerId(99))));
    assert_eq!(registry.snapshot(), before);
    assert_eq!(registry.len(), 2);
}

#[test]
fn removing_twice_finds_the_player_once() {
    let mut ids = PlayerIdGenerator::new();
    let mut registry = PlayerRegistry::new();
    let p1 = register(&mut registry, &mut ids, "one");
    let p2 = register(&mut registry, &mut ids, "two");
    assert!(registry.remove(p1).is_some());
    assert!(registry.remove(p1).is_none());
    assert!(!registry.contains(p1));
    assert!(registry.contains(p2));
    assert_eq!(registry.len(), 1);
}

#[test]
fn the_count_is_registrations_less_removals() {
    let mut ids = PlayerIdGenerator::new();
    let mut registry = PlayerRegistry::new();
    let mut registered = 0usize;
    let mut removed = 0usize;
    let mut live: Vec<PlayerId> = Vec::new();
    for round in 0..40u64 {
        let id = register(&mut registry, &mut ids, "player");
        registered += 1;
        live.push(id);
        if round % 3 == 0 {
            assert_eq!(registry.feed(id), Ok(1));
        }
        if round % 4 == 1 {
            let gone = live.remove(0);
            assert!(registry.remove(gone).is_some());
            removed += 1;
            assert!(registry.remove(gone).is_none());
        }
        assert_eq!(registry.len(), registered - removed);
    }
    let listed: Vec<PlayerId> = registry.ids();
    assert_eq!(listed, live);
    for (i, a) in listed.iter().enumerate() {
        for b in listed.iter().skip(i + 1) {
            assert_ne!(a, b);
        }
    }
}

#[test]
fn an_identifier_that_is_in_use_is_not_registered_again() {
    let mut ids = PlayerIdGenerator::new();
    let mut other_ids = PlayerIdGenerator::new();
    let mut registry = PlayerRegistry::new();
    let p1 = register(&mut registry, &mut ids, "one");
    let before = registry.snapshot();
    assert_eq!(
        registry.register(&mut other_ids, "two".to_string(), 3, 1_000),
        Err(Error::DuplicateId(p1))
    );
    assert_eq!(registry.snapshot(), before);
    assert!(registry.register(&mut other_ids, "two".to_string(), 3, 1_000).is_ok());
    assert_eq!(registry.len(), 2);
}

#[test]
fn the_leader_is_the_first_of_the_best() {
    let mut ids = PlayerIdGenerator::new();
    let mut registry = PlayerRegistry::new();
    assert_eq!(registry.leader(), None);
    let p1 = register(&mut registry, &mut ids, "one");
    let p2 = register(&mut registry, &mut ids, "two");
    let p3 = register(&mut registry, &mut ids, "three");
    assert_eq!(registry.leader(), Some(p1));
    registry.feed(p2).unwrap();
    assert_eq!(registry.leader(), Some(p2));
    registry.feed(p3).unwrap();
    assert_eq!(registry.leader(), Some(p2));
    registry.feed(p3).unwrap();
    assert_eq!(registry.leader(), Some(p3));
}

#[test]
fn remove_all_takes_out_the_players_named() {
    let mut ids = PlayerIdGenerator::new();
    let mut registry = PlayerRegistry::new();
    let p1 = register(&mut registry, &mut ids, "one");
    let p2 = register(&mut registry, &mut ids, "two");
    let p3 = register(&mut registry, &mut ids, "three");
    let removed = registry.remove_all(&vec![p3, PlayerId(77), p1]);
    let removed_ids: Vec<PlayerId> = removed.iter().map(|p| p.id).collect();
    assert_eq!(removed_ids, vec![p1, p3]);
    assert_eq!(registry.ids(), vec![p2]);
}
