use crawler::partition::{make_ids_for_thread, stripe_lines};

#[test]
fn scenario_four_ids_two_workers() {
    let ids: Vec<usize> = vec![100, 200, 300, 400];
    assert_eq!(make_ids_for_thread(2, 0, &ids), vec![100, 300]);
    assert_eq!(make_ids_for_thread(2, 1, &ids), vec![200, 400]);
}

#[test]
fn empty_input_gives_empty_partitions() {
    let ids: Vec<usize> = vec![];
    assert_eq!(make_ids_for_thread(3, 0, &ids), Vec::<usize>::new());
    assert_eq!(make_ids_for_thread(3, 2, &ids), Vec::<usize>::new());
}

#[test]
fn single_worker_takes_everything_in_order() {
    let ids: Vec<usize> = vec![5, 4, 3, 2, 1];
    assert_eq!(make_ids_for_thread(1, 0, &ids), vec![5, 4, 3, 2, 1]);
}

#[test]
fn partitions_cover_input_exactly_once() {
    let ids: Vec<usize> = (0..17).collect();
    let w = 4;
    let parts: Vec<Vec<usize>> = (0..w).map(|k| make_ids_for_thread(w, k, &ids)).collect();
    let total: usize = parts.iter().map(|p| p.len()).sum();
    assert_eq!(total, ids.len());
    // merged by interleaving index order the stripes rebuild the input
    let mut merged = vec![];
    for j in 0..ids.len() {
        merged.push(parts[j % w][j / w]);
    }
    assert_eq!(merged, ids);
}

#[test]
fn start_beyond_input_gives_empty_partition() {
    let ids: Vec<usize> = vec![1, 2];
    assert_eq!(make_ids_for_thread(5, 4, &ids), Vec::<usize>::new());
}

#[test]
fn uneven_input_leaves_longer_early_stripes() {
    let ids: Vec<usize> = vec![10, 11, 12, 13, 14];
    assert_eq!(make_ids_for_thread(2, 0, &ids), vec![10, 12, 14]);
    assert_eq!(make_ids_for_thread(2, 1, &ids), vec![11, 13]);
}

#[test]
fn stripe_lines_shards_a_file() {
    let lines: Vec<String> = vec![
        "alpha".to_string(),
        "beta".to_string(),
        "gamma".to_string(),
        "delta".to_string(),
        "epsilon".to_string(),
    ];
    assert_eq!(stripe_lines(3, 0, &lines), vec!["alpha".to_string(), "delta".to_string()]);
    assert_eq!(stripe_lines(3, 1, &lines), vec!["beta".to_string(), "epsilon".to_string()]);
    assert_eq!(stripe_lines(3, 2, &lines), vec!["gamma".to_string()]);
}
