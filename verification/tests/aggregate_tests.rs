use crawler::aggregate::{Aggregator, drain};
use crawler::message::Message;
use crawler::worker::{DataResponse, worker_run};

#[test]
fn scenario_same_secondary_id_from_two_workers_written_once() {
    // two workers each discovered the identifier 42
    let msgs = vec![
        Message::SecondaryIdentifier(42),
        Message::Completion,
        Message::SecondaryIdentifier(42),
        Message::Completion,
    ];
    let out = drain(2, &msgs);
    assert!(out.done);
    assert_eq!(out.secondary_ids, vec![42]);
}

#[test]
fn scenario_three_workers_everything_rejected() {
    // every fetch was rejected by the filter: only the completion markers arrive
    let msgs = vec![Message::Completion, Message::Completion, Message::Completion];
    let out = drain(3, &msgs);
    assert!(out.done);
    assert_eq!(out.primaries, Vec::<String>::new());
    assert_eq!(out.secondary_ids, Vec::<usize>::new());
    assert_eq!(out.consumed, 3);
}

#[test]
fn scenario_failed_worker_still_counts_toward_done() {
    // one worker's only fetch failed; it still completes, and the run still
    // reaches done with both completions
    let failed: Vec<Option<String>> = vec![None];
    let mut msgs = worker_run(DataResponse::Actor, &failed);
    assert_eq!(msgs, vec![Message::Completion]);
    let busy = vec![Some("payload".to_string())];
    msgs.extend(worker_run(DataResponse::Actor, &busy));
    let out = drain(2, &msgs);
    assert!(out.done);
    assert_eq!(out.primaries, vec!["payload".to_string()]);
}

#[test]
fn not_done_until_every_completion_arrives() {
    let msgs = vec![Message::PrimaryRecord("p".to_string()), Message::Completion];
    let out = drain(2, &msgs);
    assert!(!out.done);
    assert_eq!(out.consumed, 2);
    assert_eq!(out.primaries, vec!["p".to_string()]);
}

#[test]
fn draining_stops_at_the_last_completion() {
    let msgs = vec![
        Message::Completion,
        Message::SecondaryIdentifier(1),
        Message::Completion,
        Message::SecondaryIdentifier(2),
    ];
    let out = drain(2, &msgs);
    assert!(out.done);
    // the message behind the second completion is left unread
    assert_eq!(out.consumed, 3);
    assert_eq!(out.secondary_ids, vec![1]);
}

#[test]
fn primaries_stream_through_in_arrival_order() {
    let msgs = vec![
        Message::PrimaryRecord("one".to_string()),
        Message::SecondaryIdentifier(5),
        Message::PrimaryRecord("two".to_string()),
        Message::Completion,
    ];
    let out = drain(1, &msgs);
    assert!(out.done);
    assert_eq!(out.primaries, vec!["one".to_string(), "two".to_string()]);
    assert_eq!(out.secondary_ids, vec![5]);
}

#[test]
fn duplicate_inserts_are_no_ops_and_order_is_first_arrival() {
    let msgs = vec![
        Message::SecondaryIdentifier(7),
        Message::SecondaryIdentifier(3),
        Message::SecondaryIdentifier(7),
        Message::SecondaryIdentifier(3),
        Message::SecondaryIdentifier(9),
        Message::Completion,
    ];
    let out = drain(1, &msgs);
    assert_eq!(out.secondary_ids, vec![7, 3, 9]);
}

#[test]
fn step_returns_primary_payloads_and_keeps_state() {
    let mut agg = Aggregator::new(2);
    assert!(!agg.is_done());
    assert_eq!(agg.step(Message::PrimaryRecord("text".to_string())), Some("text".to_string()));
    assert_eq!(agg.step(Message::SecondaryIdentifier(8)), None);
    assert_eq!(agg.step(Message::Completion), None);
    assert!(!agg.is_done());
    assert_eq!(agg.step(Message::Completion), None);
    assert!(agg.is_done());
    assert_eq!(agg.flush(), vec![8]);
}
