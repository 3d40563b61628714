use feed_recovery::consumer::{classify_response, ConsumerAction, FeedConsumer, RecoveryOutcome};
use feed_recovery::publisher::{Emission, FeedPublisher};
use feed_recovery::store::RecoveryStore;
use feed_recovery::wire::{format_feed_message, format_recovered_payload, format_request};

fn seeded_store() -> RecoveryStore {
    let mut store = RecoveryStore::new();
    for s in [1u32, 10, 15, 20, 25] {
        store.insert(s, format_recovered_payload(s));
    }
    store
}

/// Runs the publisher up to `last`, delivering every message it sends, and
/// returns the consumer with the outcome of each recovery, in order.
fn run_feed(
    publisher: &mut FeedPublisher,
    last: u32,
    store: &RecoveryStore,
) -> (FeedConsumer, Vec<(u32, RecoveryOutcome)>) {
    let mut consumer = FeedConsumer::new();
    let mut outcomes = Vec::new();
    while publisher.next_sequence() <= last {
        if let Emission::Send { message, .. } = publisher.next_emission() {
            if let ConsumerAction::Recover(s) = consumer.on_message(&message) {
                let response = store.answer(&format_request(s));
                outcomes.push((s, classify_response(&response)));
            }
        }
    }
    (consumer, outcomes)
}

fn check_recovered(outcome: &(u32, RecoveryOutcome), s: u32) {
    assert_eq!(outcome.0, s);
    match &outcome.1 {
        RecoveryOutcome::Recovered(p) => assert_eq!(p, &format_recovered_payload(s)),
        other => panic!("expected a recovery of {}, got {:?}", s, other),
    }
}

#[test]
fn dropped_multiples_of_five_through_twenty_six() {
    let store = seeded_store();
    let mut publisher = FeedPublisher::new();
    let (consumer, outcomes) = run_feed(&mut publisher, 26, &store);
    assert_eq!(outcomes.len(), 5);
    assert_eq!(outcomes[0].0, 5);
    assert!(matches!(outcomes[0].1, RecoveryOutcome::NotFound));
    check_recovered(&outcomes[1], 10);
    check_recovered(&outcomes[2], 15);
    check_recovered(&outcomes[3], 20);
    check_recovered(&outcomes[4], 25);
    assert_eq!(consumer.expected_sequence(), 27);
}

#[test]
fn dropped_multiples_of_five_through_twenty_five() {
    let store = seeded_store();
    let mut publisher = FeedPublisher::new();
    let (consumer, outcomes) = run_feed(&mut publisher, 25, &store);
    let asked: Vec<u32> = outcomes.iter().map(|o| o.0).collect();
    assert_eq!(asked, vec![5, 10, 15, 20]);
    assert!(matches!(outcomes[0].1, RecoveryOutcome::NotFound));
    check_recovered(&outcomes[1], 10);
    check_recovered(&outcomes[2], 15);
    check_recovered(&outcomes[3], 20);
    // The last arrival is 24: 25 was withheld and nothing came after it.
    assert_eq!(consumer.expected_sequence(), 25);
}

#[test]
fn expected_follows_last_arrival_for_several_moduli() {
    let store = RecoveryStore::new();
    for modulus in [2u32, 3, 5, 7] {
        for last in [1u32, 6, 20, 21, 35] {
            let mut publisher = FeedPublisher::with_drop_modulus(modulus);
            let (consumer, _) = run_feed(&mut publisher, last, &store);
            let mut last_sent = last;
            while last_sent % modulus == 0 {
                last_sent -= 1;
            }
            assert_eq!(consumer.expected_sequence(), last_sent + 1);
        }
    }
}

#[test]
fn lost_sequence_is_asked_for_once() {
    let mut consumer = FeedConsumer::new();
    let asked = consumer.process_arrivals(&[1, 2, 3, 4, 6, 7, 8, 9, 11]);
    assert_eq!(asked, vec![5, 10]);
    assert_eq!(consumer.expected_sequence(), 12);
}

#[test]
fn consecutive_losses_ask_only_for_the_first() {
    let mut consumer = FeedConsumer::new();
    let asked = consumer.process_arrivals(&[1, 2, 6, 7]);
    assert_eq!(asked, vec![3]);
    assert_eq!(consumer.expected_sequence(), 8);
}

#[test]
fn empty_run_changes_nothing() {
    let mut consumer = FeedConsumer::new();
    assert_eq!(consumer.process_arrivals(&[]), Vec::<u32>::new());
    assert_eq!(consumer.expected_sequence(), 1);
}

#[test]
fn arrival_actions() {
    let mut consumer = FeedConsumer::new();
    assert_eq!(consumer.expected_sequence(), 1);
    assert_eq!(consumer.on_arrival(1), ConsumerAction::Accept);
    assert_eq!(consumer.expected_sequence(), 2);
    assert_eq!(consumer.on_arrival(4), ConsumerAction::Recover(2));
    assert_eq!(consumer.expected_sequence(), 5);
    // An older or repeated arrival is a gap too, and the consumer moves back.
    assert_eq!(consumer.on_arrival(3), ConsumerAction::Recover(5));
    assert_eq!(consumer.expected_sequence(), 4);
    assert_eq!(consumer.on_arrival(u32::MAX), ConsumerAction::Recover(4));
    assert_eq!(consumer.expected_sequence(), 0);
}

#[test]
fn unreadable_datagram_is_skipped() {
    let mut consumer = FeedConsumer::new();
    assert_eq!(consumer.on_message(b"garbage"), ConsumerAction::Skip);
    assert_eq!(consumer.on_message(b"SEQ:x|PRICE:1"), ConsumerAction::Skip);
    assert_eq!(consumer.expected_sequence(), 1);
    assert_eq!(consumer.on_message(&format_feed_message(1)), ConsumerAction::Accept);
    assert_eq!(consumer.on_message(b"SEQ:3|PRICE:103"), ConsumerAction::Recover(2));
    assert_eq!(consumer.expected_sequence(), 4);
}

#[test]
fn publisher_withholds_every_fifth() {
    let mut publisher = FeedPublisher::new();
    assert_eq!(publisher.next_sequence(), 1);
    assert_eq!(publisher.drop_modulus(), 5);
    for s in 1u32..=11 {
        match publisher.next_emission() {
            Emission::Send { sequence, message } => {
                assert_eq!(sequence, s);
                assert!(s % 5 != 0);
                assert_eq!(message, format!("SEQ:{}|PRICE:{}", s, 100 + s).into_bytes());
            }
            Emission::Withhold { sequence } => {
                assert_eq!(sequence, s);
                assert!(s % 5 == 0);
            }
        }
    }
    assert_eq!(publisher.next_sequence(), 12);
}

#[test]
fn publisher_with_other_modulus() {
    let mut publisher = FeedPublisher::with_drop_modulus(3);
    let mut withheld = Vec::new();
    for _ in 0..9 {
        if let Emission::Withhold { sequence } = publisher.next_emission() {
            withheld.push(sequence);
        }
    }
    assert_eq!(withheld, vec![3, 6, 9]);
    assert_eq!(publisher.drop_modulus(), 3);
}

#[test]
fn store_lookup_and_insert() {
    let mut store = RecoveryStore::new();
    assert_eq!(store.lookup(1), None);
    store.insert(1, b"one".to_vec());
    assert_eq!(store.lookup(1), Some(b"one".to_vec()));
    store.insert(1, b"uno".to_vec());
    assert_eq!(store.lookup(1), Some(b"uno".to_vec()));
    assert_eq!(store.lookup(2), None);
}

#[test]
fn service_answers() {
    let store = seeded_store();
    assert_eq!(store.answer(b"GET SEQ:10"), b"Recovered data for SEQ:10".to_vec());
    assert_eq!(store.answer(b"GET SEQ:5"), b"Not found".to_vec());
    assert_eq!(store.answer(b"GET SEQ:abc"), b"Not found".to_vec());
    assert_eq!(store.answer(b"HELLO"), b"Not found".to_vec());
    assert_eq!(store.answer(b""), b"Not found".to_vec());
}

#[test]
fn repeated_requests_get_the_same_payload() {
    let store = seeded_store();
    let first = store.answer(&format_request(15));
    for _ in 0..5 {
        assert_eq!(store.answer(&format_request(15)), first);
    }
    assert_eq!(first, b"Recovered data for SEQ:15".to_vec());
}

#[test]
fn response_classification() {
    assert!(matches!(classify_response(b""), RecoveryOutcome::NoData));
    assert!(matches!(classify_response(b"Not found"), RecoveryOutcome::NotFound));
    match classify_response(b"Recovered data for SEQ:1") {
        RecoveryOutcome::Recovered(p) => assert_eq!(p, b"Recovered data for SEQ:1".to_vec()),
        other => panic!("unexpected {:?}", other),
    }
    match classify_response(b"Not found!") {
        RecoveryOutcome::Recovered(p) => assert_eq!(p, b"Not found!".to_vec()),
        other => panic!("unexpected {:?}", other),
    }
}
