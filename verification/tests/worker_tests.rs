use crawler::message::Message;
use crawler::worker::{DataResponse, messages_for_response, parse_actor_string, parse_movie_string, worker_run};

const GOOD_MOVIE: &str = r#"{"budget":5000,"revenue":10000000,"genres":[{"id":1}],"credits":{"cast":[{"id":42},{"id":7}],"crew":[{"id":9}]}}"#;

#[test]
fn accepted_movie_emits_record_then_cast_ids() {
    let msgs = parse_movie_string(GOOD_MOVIE.to_string());
    assert_eq!(
        msgs,
        vec![
            Message::PrimaryRecord(GOOD_MOVIE.to_string()),
            Message::SecondaryIdentifier(42),
            Message::SecondaryIdentifier(7),
        ]
    );
}

#[test]
fn rejected_movie_emits_nothing() {
    // above the budget minimum but with zero revenue
    let text = r#"{"budget":5000,"revenue":0,"genres":[{"id":1}],"credits":{"cast":[{"id":42}],"crew":[{"id":9}]}}"#;
    assert_eq!(parse_movie_string(text.to_string()), Vec::<Message>::new());
}

#[test]
fn malformed_payload_is_rejection_not_an_error() {
    assert_eq!(parse_movie_string("not json at all".to_string()), Vec::<Message>::new());
    assert_eq!(parse_movie_string(r#"{"budget":5000}"#.to_string()), Vec::<Message>::new());
    assert_eq!(
        parse_movie_string(r#"{"budget":5000,"revenue":10000000,"genres":[{}],"credits":{"cast":[{"id":42}],"crew":[{"id":9}]}}"#.to_string()),
        Vec::<Message>::new()
    );
}

#[test]
fn actor_payload_passes_through_verbatim() {
    let msg = parse_actor_string("raw person payload".to_string());
    assert_eq!(msg, Message::PrimaryRecord("raw person payload".to_string()));
}

#[test]
fn failed_fetch_emits_no_message() {
    assert_eq!(messages_for_response(DataResponse::Movie, None), Vec::<Message>::new());
    assert_eq!(messages_for_response(DataResponse::Actor, None), Vec::<Message>::new());
}

#[test]
fn actor_mode_is_unfiltered() {
    let msgs = messages_for_response(DataResponse::Actor, Some("anything".to_string()));
    assert_eq!(msgs, vec![Message::PrimaryRecord("anything".to_string())]);
}

#[test]
fn worker_sends_exactly_one_completion_and_it_is_last() {
    let responses = vec![Some(GOOD_MOVIE.to_string()), None, Some("junk".to_string())];
    let msgs = worker_run(DataResponse::Movie, &responses);
    let completions = msgs.iter().filter(|m| matches!(m, Message::Completion)).count();
    assert_eq!(completions, 1);
    assert_eq!(msgs.last(), Some(&Message::Completion));
}

#[test]
fn scenario_worker_with_only_failed_fetch_still_completes() {
    let responses: Vec<Option<String>> = vec![None];
    let msgs = worker_run(DataResponse::Movie, &responses);
    assert_eq!(msgs, vec![Message::Completion]);
}
