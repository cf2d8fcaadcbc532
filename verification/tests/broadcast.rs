use hippo_party::broadcast::{Broadcaster, SubscriberId};

fn drain(broadcaster: &mut Broadcaster<u32>, id: SubscriberId) -> Vec<u32> {
    let mut received = Vec::new();
    while let Some(event) = broadcaster.recv(id) {
        received.push(*event);
    }
    received
}

#[test]
fn sending_without_subscribers_succeeds() {
    let mut broadcaster: Broadcaster<u32> = Broadcaster::new();
    broadcaster.send(1);
    broadcaster.send_all(vec![2, 3]);
    assert_eq!(broadcaster.subscriber_count(), 0);
}

#[test]
fn every_subscriber_gets_every_event_in_order() {
    let mut broadcaster: Broadcaster<u32> = Broadcaster::new();
    let a = broadcaster.subscribe();
    let b = broadcaster.subscribe();
    let c = broadcaster.subscribe();
    assert_eq!(broadcaster.subscriber_count(), 3);
    for event in 1..=5u32 {
        broadcaster.send(event);
    }
    assert_eq!(broadcaster.pending(a), Some(5));
    assert_eq!(drain(&mut broadcaster, a), vec![1, 2, 3, 4, 5]);
    assert_eq!(drain(&mut broadcaster, b), vec![1, 2, 3, 4, 5]);
    assert_eq!(drain(&mut broadcaster, c), vec![1, 2, 3, 4, 5]);
    assert_eq!(broadcaster.pending(a), Some(0));
}

#[test]
fn a_late_subscriber_sees_only_what_is_sent_later() {
    let mut broadcaster: Broadcaster<u32> = Broadcaster::new();
    let early = broadcaster.subscribe();
    broadcaster.send(1);
    broadcaster.send(2);
    let late = broadcaster.subscribe();
    assert_eq!(broadcaster.pending(late), Some(0));
    broadcaster.send(3);
    assert_eq!(drain(&mut broadcaster, late), vec![3]);
    assert_eq!(drain(&mut broadcaster, early), vec![1, 2, 3]);
}

#[test]
fn subscribers_read_at_their_own_pace() {
    let mut broadcaster: Broadcaster<u32> = Broadcaster::new();
    let fast = broadcaster.subscribe();
    let slow = broadcaster.subscribe();
    let mut seen_by_fast = Vec::new();
    for event in 0..100u32 {
        broadcaster.send(event);
        seen_by_fast.extend(drain(&mut broadcaster, fast));
    }
    assert_eq!(seen_by_fast, (0..100).collect::<Vec<u32>>());
    assert_eq!(broadcaster.pending(slow), Some(100));
    assert_eq!(drain(&mut broadcaster, slow), (0..100).collect::<Vec<u32>>());
    broadcaster.send(100);
    assert_eq!(drain(&mut broadcaster, slow), vec![100]);
    assert_eq!(drain(&mut broadcaster, fast), vec![100]);
}

#[test]
fn the_log_is_cut_back_without_losing_events() {
    let mut broadcaster: Broadcaster<u32> = Broadcaster::new();
    let a = broadcaster.subscribe();
    let b = broadcaster.subscribe();
    let mut from_a = Vec::new();
    let mut from_b = Vec::new();
    for event in 0..1_000u32 {
        broadcaster.send(event);
        if event % 2 == 0 {
            from_a.extend(drain(&mut broadcaster, a));
        }
        if event % 7 == 0 {
            if let Some(e) = broadcaster.recv(b) {
                from_b.push(*e);
            }
        }
    }
    from_a.extend(drain(&mut broadcaster, a));
    from_b.extend(drain(&mut broadcaster, b));
    assert_eq!(from_a, (0..1_000).collect::<Vec<u32>>());
    assert_eq!(from_b, (0..1_000).collect::<Vec<u32>>());
}

#[test]
fn a_subscriber_that_left_gets_nothing_and_harms_nobody() {
    let mut broadcaster: Broadcaster<u32> = Broadcaster::new();
    let stays = broadcaster.subscribe();
    let leaves = broadcaster.subscribe();
    broadcaster.send(1);
    assert!(broadcaster.unsubscribe(leaves));
    assert!(!broadcaster.unsubscribe(leaves));
    broadcaster.send(2);
    assert_eq!(broadcaster.subscriber_count(), 1);
    assert_eq!(broadcaster.pending(leaves), None);
    assert!(broadcaster.recv(leaves).is_none());
    assert_eq!(drain(&mut broadcaster, stays), vec![1, 2]);
}

#[test]
fn handles_are_never_given_out_twice() {
    let mut broadcaster: Broadcaster<u32> = Broadcaster::new();
    let first = broadcaster.subscribe();
    assert_eq!(first, SubscriberId(0));
    assert!(broadcaster.unsubscribe(first));
    let second = broadcaster.subscribe();
    assert_eq!(second, SubscriberId(1));
    assert!(!broadcaster.exhausted());
}

#[test]
fn send_all_is_sending_one_by_one() {
    let mut one_by_one: Broadcaster<u32> = Broadcaster::new();
    let mut at_once: Broadcaster<u32> = Broadcaster::new();
    let a = one_by_one.subscribe();
    let b = at_once.subscribe();
    one_by_one.send(4);
    one_by_one.send(5);
    one_by_one.send(6);
    at_once.send_all(vec![4, 5, 6]);
    assert_eq!(drain(&mut one_by_one, a), vec![4, 5, 6]);
    assert_eq!(drain(&mut at_once, b), vec![4, 5, 6]);
}
