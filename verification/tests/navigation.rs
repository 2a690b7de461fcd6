use file_manager_core::navigation::{
    first_index, move_by, preload_plan, preload_window, PRELOAD_AFTER, PRELOAD_BEFORE,
};
use std::collections::HashMap;

#[test]
fn the_first_entry_is_shown_first() {
    assert_eq!(Some(0), first_index(3));
    assert_eq!(None, first_index(0));
}

#[test]
fn moving_wraps_around_at_both_ends() {
    assert_eq!(Some(1), move_by(Some(0), 1, 3));
    assert_eq!(Some(0), move_by(Some(2), 1, 3));
    assert_eq!(Some(2), move_by(Some(0), -1, 3));
    assert_eq!(Some(1), move_by(Some(2), -1, 3));
    assert_eq!(Some(0), move_by(Some(0), 1, 1));
    assert_eq!(Some(0), move_by(Some(0), -1, 1));
    assert_eq!(Some(2), move_by(Some(2), 0, 3));
}

#[test]
fn moving_by_many_places_is_taken_modulo_the_length() {
    assert_eq!(Some(1), move_by(Some(0), 7, 3));
    assert_eq!(Some(2), move_by(Some(0), -7, 3));
    assert_eq!(Some(3), move_by(Some(8), 0, 5));
    assert_eq!(Some(7), move_by(Some(0), isize::MAX, 9));
    assert_eq!(Some(0), move_by(Some(8), isize::MIN, 9));
    assert_eq!(Some(usize::MAX - 1), move_by(Some(0), -1, usize::MAX));
    assert_eq!(Some(0), move_by(Some(usize::MAX - 1), 1, usize::MAX));
}

#[test]
fn there_is_nowhere_to_move_in_an_empty_list() {
    assert_eq!(None, move_by(None, 1, 3));
    assert_eq!(None, move_by(Some(0), 1, 0));
    assert_eq!(None, move_by(None, -1, 0));
}

#[test]
fn the_window_reaches_from_three_before_to_nine_after() {
    assert_eq!(3, PRELOAD_BEFORE);
    assert_eq!(10, PRELOAD_AFTER);
    assert_eq!(
        vec![17, 18, 19, 0, 1, 2, 3, 4, 5, 6, 7, 8, 9],
        preload_window(0, 20)
    );
    assert_eq!(
        vec![2, 3, 4, 5, 6, 7, 8, 9, 10, 11, 12, 13, 14],
        preload_window(5, 20)
    );
    assert_eq!(
        vec![1, 2, 3, 0, 1, 2, 3, 0, 1, 2, 3, 0, 1],
        preload_window(0, 4)
    );
    assert_eq!(Vec::<usize>::new(), preload_window(0, 0));
}

#[test]
fn the_plan_leaves_out_what_is_loaded_or_loading() {
    let loaded: HashMap<usize, &str> = [(0, "a.png"), (1, "b.png")].into_iter().collect();
    let loading: HashMap<usize, bool> = [(2, true), (19, false)].into_iter().collect();
    assert_eq!(
        vec![17, 18, 3, 4, 5, 6, 7, 8, 9],
        preload_plan(0, 20, &loaded, &loading)
    );
    let nothing: HashMap<usize, bool> = HashMap::new();
    assert_eq!(vec![1, 2, 3, 0], preload_plan(0, 4, &nothing, &nothing));
    assert_eq!(vec![2, 3], preload_plan(0, 4, &loaded, &nothing));
    assert_eq!(Vec::<usize>::new(), preload_plan(0, 0, &nothing, &nothing));
}
