use window_tracker::tracker::{
    add_or_update_window, wt_cleanup, wt_get_all_windows, wt_get_window_count,
    wt_get_window_info, wt_init, wt_update, TrackerState,
};

const MS: u64 = 1_000_000;

fn focus_of(state: &TrackerState, title: &str) -> Option<u64> {
    wt_get_all_windows(state).into_iter().find(|(t, _)| t == title).map(|(_, nanos)| nanos)
}

fn sum_of(state: &TrackerState) -> u64 {
    wt_get_all_windows(state).iter().map(|(_, nanos)| *nanos).sum()
}

#[test]
fn new_tracker_is_empty() {
    let state = TrackerState::new(42);
    assert_eq!(wt_get_window_count(&state), 0);
    assert_eq!(wt_get_all_windows(&state), Vec::<(String, u64)>::new());
    assert_eq!(wt_get_window_info(&state, 0), None);
}

#[test]
fn first_observation_is_credited_since_creation() {
    let mut state = TrackerState::new(1_000);
    add_or_update_window(&mut state, "Editor", 1_750);
    assert_eq!(wt_get_all_windows(&state), vec![("Editor".to_string(), 750)]);
}

#[test]
fn repeated_title_accumulates_in_one_bucket() {
    let mut state = TrackerState::new(0);
    add_or_update_window(&mut state, "Editor", 10);
    add_or_update_window(&mut state, "Editor", 25);
    add_or_update_window(&mut state, "Editor", 25);
    assert_eq!(wt_get_window_count(&state), 1);
    assert_eq!(wt_get_window_info(&state, 0), Some(("Editor".to_string(), 25)));
}

#[test]
fn additivity_sum_equals_elapsed_time() {
    let start = 7 * MS;
    let mut state = TrackerState::new(0);
    wt_init(&mut state, start);
    let polls = [
        ("Editor", 100 * MS),
        ("Browser", 230 * MS),
        ("Editor", 231 * MS),
        ("Terminal", 400 * MS),
        ("Browser", 1_000 * MS),
    ];
    for (title, now) in polls {
        wt_update(&mut state, Some(title.to_string()), now);
        assert_eq!(sum_of(&state), now - start);
    }
    assert_eq!(wt_get_window_count(&state), 3);
    assert_eq!(focus_of(&state, "Editor"), Some(94 * MS));
    assert_eq!(focus_of(&state, "Browser"), Some(730 * MS));
    assert_eq!(focus_of(&state, "Terminal"), Some(169 * MS));
}

#[test]
fn init_twice_gives_empty_state_and_fresh_clock() {
    let mut state = TrackerState::new(0);
    add_or_update_window(&mut state, "Editor", 3);
    wt_init(&mut state, 5);
    assert_eq!(wt_get_window_count(&state), 0);
    wt_init(&mut state, 9);
    assert_eq!(wt_get_window_count(&state), 0);
    add_or_update_window(&mut state, "Editor", 12);
    assert_eq!(wt_get_all_windows(&state), vec![("Editor".to_string(), 3)]);
}

#[test]
fn failed_probe_changes_nothing() {
    let mut state = TrackerState::new(0);
    wt_update(&mut state, Some("Editor".to_string()), 100);
    let before = wt_get_all_windows(&state);
    wt_update(&mut state, None, 250);
    assert_eq!(wt_get_all_windows(&state), before);
    assert_eq!(wt_get_window_count(&state), 1);
    // The missed interval goes to the title that is seen next.
    wt_update(&mut state, Some("Browser".to_string()), 300);
    assert_eq!(focus_of(&state, "Editor"), Some(100));
    assert_eq!(focus_of(&state, "Browser"), Some(200));
}

#[test]
fn failed_probe_on_empty_tracker_records_nothing() {
    let mut state = TrackerState::new(10);
    wt_update(&mut state, None, 20);
    assert_eq!(wt_get_window_count(&state), 0);
}

#[test]
fn attribution_boundary_credits_title_seen_at_end_of_interval() {
    let mut state = TrackerState::new(0);
    wt_init(&mut state, 0);
    wt_update(&mut state, Some("A".to_string()), 0);
    wt_update(&mut state, Some("A".to_string()), 500 * MS);
    wt_update(&mut state, Some("B".to_string()), 600 * MS);
    assert_eq!(focus_of(&state, "A"), Some(500 * MS));
    assert_eq!(focus_of(&state, "B"), Some(100 * MS));
}

#[test]
fn snapshot_never_shrinks_between_boundaries() {
    let mut state = TrackerState::new(0);
    let polls = [
        (Some("Editor"), 10u64),
        (Some("Browser"), 20),
        (None, 30),
        (Some("Editor"), 25),
        (Some("Mail"), 60),
        (Some("Browser"), 61),
    ];
    let mut earlier = wt_get_all_windows(&state);
    for (observation, now) in polls {
        wt_update(&mut state, observation.map(|t| t.to_string()), now);
        let later = wt_get_all_windows(&state);
        assert!(later.len() >= earlier.len());
        for (index, (title, nanos)) in earlier.iter().enumerate() {
            assert_eq!(&later[index].0, title);
            assert!(later[index].1 >= *nanos);
        }
        earlier = later;
    }
    assert_eq!(
        earlier,
        vec![
            ("Editor".to_string(), 15),
            ("Browser".to_string(), 11),
            ("Mail".to_string(), 35),
        ]
    );
}

#[test]
fn snapshot_is_a_copy() {
    let mut state = TrackerState::new(0);
    add_or_update_window(&mut state, "Editor", 10);
    let snapshot = wt_get_all_windows(&state);
    add_or_update_window(&mut state, "Editor", 30);
    add_or_update_window(&mut state, "Browser", 40);
    assert_eq!(snapshot, vec![("Editor".to_string(), 10)]);
    assert_eq!(wt_get_window_count(&state), 2);
}

#[test]
fn cleanup_empties_records_but_keeps_last_transition() {
    let mut state = TrackerState::new(0);
    wt_init(&mut state, 100);
    wt_update(&mut state, Some("Editor".to_string()), 300);
    wt_cleanup(&mut state);
    assert_eq!(wt_get_window_count(&state), 0);
    assert_eq!(wt_get_all_windows(&state), Vec::<(String, u64)>::new());
    wt_update(&mut state, Some("Browser".to_string()), 450);
    assert_eq!(wt_get_all_windows(&state), vec![("Browser".to_string(), 150)]);
}

#[test]
fn cleanup_before_any_update_counts_from_init() {
    let mut state = TrackerState::new(0);
    wt_init(&mut state, 100);
    wt_cleanup(&mut state);
    wt_update(&mut state, Some("Editor".to_string()), 130);
    assert_eq!(wt_get_all_windows(&state), vec![("Editor".to_string(), 30)]);
}

#[test]
fn end_to_end_editor_editor_browser() {
    let mut state = TrackerState::new(0);
    wt_init(&mut state, 0);
    wt_update(&mut state, Some("Editor".to_string()), 0);
    wt_update(&mut state, Some("Editor".to_string()), 100 * MS);
    wt_update(&mut state, Some("Browser".to_string()), 200 * MS);
    assert_eq!(wt_get_window_count(&state), 2);
    assert_eq!(focus_of(&state, "Editor"), Some(100 * MS));
    assert_eq!(focus_of(&state, "Browser"), Some(100 * MS));
}

#[test]
fn clock_moving_backwards_credits_nothing() {
    let mut state = TrackerState::new(1_000);
    add_or_update_window(&mut state, "Editor", 400);
    assert_eq!(wt_get_all_windows(&state), vec![("Editor".to_string(), 0)]);
    // The backward reading still becomes the time of the last attribution.
    add_or_update_window(&mut state, "Editor", 900);
    assert_eq!(wt_get_all_windows(&state), vec![("Editor".to_string(), 500)]);
}

#[test]
fn bucket_stops_growing_at_the_largest_value() {
    let mut state = TrackerState::new(0);
    add_or_update_window(&mut state, "Editor", u64::MAX - 5);
    add_or_update_window(&mut state, "Editor", 0);
    add_or_update_window(&mut state, "Editor", 100);
    assert_eq!(wt_get_all_windows(&state), vec![("Editor".to_string(), u64::MAX)]);
    add_or_update_window(&mut state, "Browser", 130);
    assert_eq!(focus_of(&state, "Editor"), Some(u64::MAX));
    assert_eq!(focus_of(&state, "Browser"), Some(30));
}

#[test]
fn window_info_follows_first_seen_order() {
    let mut state = TrackerState::new(0);
    add_or_update_window(&mut state, "Editor", 1);
    add_or_update_window(&mut state, "Browser", 3);
    add_or_update_window(&mut state, "Editor", 6);
    add_or_update_window(&mut state, "Mail", 10);
    assert_eq!(wt_get_window_count(&state), 3);
    assert_eq!(wt_get_window_info(&state, 0), Some(("Editor".to_string(), 4)));
    assert_eq!(wt_get_window_info(&state, 1), Some(("Browser".to_string(), 2)));
    assert_eq!(wt_get_window_info(&state, 2), Some(("Mail".to_string(), 4)));
}

#[test]
fn window_info_out_of_range_is_none() {
    let mut state = TrackerState::new(0);
    add_or_update_window(&mut state, "Editor", 1);
    assert_eq!(wt_get_window_info(&state, 1), None);
    assert_eq!(wt_get_window_info(&state, usize::MAX), None);
}

#[test]
fn window_info_agrees_with_all_windows() {
    let mut state = TrackerState::new(0);
    for (title, now) in [("a", 2u64), ("b", 3), ("c", 5), ("a", 8), ("d", 13)] {
        add_or_update_window(&mut state, title, now);
    }
    let all = wt_get_all_windows(&state);
    assert_eq!(all.len(), wt_get_window_count(&state));
    for (index, pair) in all.iter().enumerate() {
        assert_eq!(wt_get_window_info(&state, index).as_ref(), Some(pair));
    }
}

#[test]
fn titles_are_compared_by_their_whole_text() {
    let mut state = TrackerState::new(0);
    add_or_update_window(&mut state, "Editor", 1);
    add_or_update_window(&mut state, "Editor ", 2);
    add_or_update_window(&mut state, "editor", 4);
    add_or_update_window(&mut state, "Edito", 8);
    add_or_update_window(&mut state, "", 16);
    add_or_update_window(&mut state, "Éditeur", 32);
    add_or_update_window(&mut state, "Editeur", 64);
    add_or_update_window(&mut state, "Éditeur", 128);
    assert_eq!(
        wt_get_all_windows(&state),
        vec![
            ("Editor".to_string(), 1),
            ("Editor ".to_string(), 1),
            ("editor".to_string(), 2),
            ("Edito".to_string(), 4),
            ("".to_string(), 8),
            ("Éditeur".to_string(), 16 + 64),
            ("Editeur".to_string(), 32),
        ]
    );
}
