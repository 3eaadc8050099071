use crawler::input::make_ids;
use crawler::urls::{make_actor_url, make_movie_url};

#[test]
fn movie_url_has_id_key_and_appended_responses() {
    let url = make_movie_url(&"abc123".to_string(), 550);
    assert_eq!(
        url,
        "https://api.themoviedb.org/3/movie/550?api_key=abc123&language=en-US&append_to_response=credits%2Ckeywords%2Csimilar%2Crecommendations"
    );
}

#[test]
fn actor_url_has_id_key_and_movie_credits() {
    let url = make_actor_url(&"k".to_string(), 0);
    assert_eq!(
        url,
        "https://api.themoviedb.org/3/person/0?api_key=k&language=en-US&append_to_response=movie_credits"
    );
}

#[test]
fn urls_carry_multi_digit_ids_in_decimal() {
    let url = make_movie_url(&"k".to_string(), 1048576);
    assert!(url.starts_with("https://api.themoviedb.org/3/movie/1048576?api_key=k"));
}

#[test]
fn make_ids_reads_one_id_per_line() {
    let lines = vec![
        r#"{"id": 603}"#.to_string(),
        r#"{"id": 604, "adult": false}"#.to_string(),
        r#"{"id": 605}"#.to_string(),
    ];
    assert_eq!(make_ids(&lines), Some(vec![603, 604, 605]));
}

#[test]
fn make_ids_fails_on_a_malformed_line() {
    let lines = vec![r#"{"id": 603}"#.to_string(), "garbage".to_string()];
    assert_eq!(make_ids(&lines), None);
    let missing = vec![r#"{"adult": false}"#.to_string()];
    assert_eq!(make_ids(&missing), None);
}

#[test]
fn make_ids_of_no_lines_is_empty() {
    assert_eq!(make_ids(&vec![]), Some(vec![]));
}
