use crawler::record::{Credits, FilterConfig, IdObject, Movie, filter_movie, filter_movie_with};

fn movie(budget: usize, revenue: usize, genres: usize, cast: usize, crew: usize) -> Movie {
    let ids = |n: usize| (0..n).map(|id| IdObject { id }).collect::<Vec<IdObject>>();
    Movie {
        budget,
        revenue,
        genres: ids(genres),
        credits: Credits { cast: ids(cast), crew: ids(crew) },
    }
}

#[test]
fn accepts_a_qualifying_record() {
    assert!(filter_movie(&movie(5000, 20000000, 2, 3, 4)));
}

#[test]
fn scenario_revenue_below_minimum_rejects() {
    // budget 5000 is above the minimum, but revenue 0 is below it
    assert!(!filter_movie(&movie(5000, 0, 2, 3, 4)));
}

#[test]
fn budget_must_strictly_exceed_minimum() {
    assert!(!filter_movie(&movie(1000, 20000000, 1, 1, 1)));
    assert!(filter_movie(&movie(1001, 20000000, 1, 1, 1)));
}

#[test]
fn revenue_at_minimum_is_accepted() {
    assert!(filter_movie(&movie(5000, 10000000, 1, 1, 1)));
    assert!(!filter_movie(&movie(5000, 9999999, 1, 1, 1)));
}

#[test]
fn empty_collections_reject() {
    assert!(!filter_movie(&movie(5000, 20000000, 0, 3, 4)));
    assert!(!filter_movie(&movie(5000, 20000000, 2, 0, 4)));
    assert!(!filter_movie(&movie(5000, 20000000, 2, 3, 0)));
}

#[test]
fn filter_is_referentially_transparent() {
    let m = movie(5000, 20000000, 2, 3, 4);
    let first = filter_movie(&m);
    let second = filter_movie(&m);
    assert_eq!(first, second);
    let r = movie(5000, 0, 2, 3, 4);
    assert_eq!(filter_movie(&r), filter_movie(&r));
}

#[test]
fn thresholds_come_from_the_configuration() {
    let lax = FilterConfig { min_budget: 0, min_revenue: 0 };
    assert!(filter_movie_with(&lax, &movie(1, 0, 1, 1, 1)));
    let strict = FilterConfig { min_budget: 1000000, min_revenue: 500000000 };
    assert!(!filter_movie_with(&strict, &movie(5000, 20000000, 2, 3, 4)));
}
