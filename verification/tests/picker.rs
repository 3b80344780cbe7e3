use kirorunner::controller::{Reaction, SelectionController, UiEvent};
use kirorunner::matcher::{score, RATING_ONE};
use kirorunner::store::{EntryStore, HIDE_BELOW};

fn store_of(names: &[&str]) -> EntryStore {
    let lines: Vec<String> = names.iter().map(|s| s.to_string()).collect();
    EntryStore::load(&lines)
}

#[test]
fn score_stays_on_the_scale() {
    for (q, c) in [
        ("appl", "apple"),
        ("a", "a"),
        ("q", ""),
        ("longer query", "short"),
        ("banana", "apple"),
    ] {
        let r = score(q, c);
        assert!(r <= RATING_ONE);
    }
}

#[test]
fn score_of_identical_strings_is_full() {
    assert_eq!(score("a", "a"), RATING_ONE);
    assert_eq!(score("alpha", "alpha"), RATING_ONE);
}

#[test]
fn score_matches_the_underlying_similarity() {
    let expected = strsim::jaro_winkler("appl", "apple").to_bits();
    assert_eq!(score("appl", "apple"), expected);
    let expected = strsim::jaro_winkler("appl", "banana").to_bits();
    assert_eq!(score("appl", "banana"), expected);
}

#[test]
fn score_is_case_insensitive() {
    assert_eq!(score("APPL", "Apple"), score("appl", "apple"));
    assert_eq!(score("Banana", "bAnAnA"), score("banana", "banana"));
    assert_eq!(score("MiXeD", "case"), score("mixed", "CASE"));
}

#[test]
fn load_gives_neutral_ratings() {
    let store = store_of(&["one", "two", ""]);
    assert_eq!(store.len(), 3);
    for i in 0..3 {
        assert_eq!(store.rating(i), RATING_ONE);
        assert!(!store.hidden(i));
    }
    assert_eq!(store.name(2), "");
}

#[test]
fn update_scores_is_idempotent() {
    let mut store = store_of(&["apple", "apply", "banana"]);
    let first = store.update_scores("appl");
    let snapshot: Vec<(u64, bool)> = (0..3).map(|i| (store.rating(i), store.hidden(i))).collect();
    let second = store.update_scores("appl");
    let again: Vec<(u64, bool)> = (0..3).map(|i| (store.rating(i), store.hidden(i))).collect();
    assert_eq!(first, second);
    assert_eq!(snapshot, again);
}

#[test]
fn empty_query_resets_every_entry() {
    let mut store = store_of(&["apple", "apply", "banana"]);
    store.update_scores("xyzzy");
    let best = store.update_scores("");
    assert_eq!(best, Some(0));
    for i in 0..3 {
        assert_eq!(store.rating(i), RATING_ONE);
        assert!(!store.hidden(i));
    }
}

#[test]
fn hidden_follows_the_threshold() {
    let mut store = store_of(&["apple", "zzz", "apply", "qqqq"]);
    store.update_scores("apple");
    for i in 0..4 {
        assert_eq!(store.hidden(i), store.rating(i) < HIDE_BELOW);
    }
    // No character of "zzz" occurs in "apple": its similarity is zero.
    assert_eq!(store.rating(1), 0);
    assert!(store.hidden(1));
    assert!(!store.hidden(0));
}

#[test]
fn update_scores_on_empty_store_returns_none() {
    let mut store = store_of(&[]);
    assert_eq!(store.update_scores(""), None);
    assert_eq!(store.update_scores("abc"), None);
}

#[test]
fn best_match_breaks_ties_by_insertion_order() {
    // "apple" and "apply" score identically against "appl"; the first
    // one in insertion order wins.
    let mut store = store_of(&["apple", "apply", "banana"]);
    let best = store.update_scores("appl");
    assert_eq!(store.rating(0), store.rating(1));
    assert_eq!(best, Some(0));
}

#[test]
fn ordering_is_descending_with_stable_ties() {
    let mut store = store_of(&["banana", "apple", "apply"]);
    store.update_scores("appl");
    // apple and apply tie above banana; the tie keeps insertion order.
    assert_eq!(store.rating(1), store.rating(2));
    assert!(store.rating(1) > store.rating(0));
    assert_eq!(store.ordering(), vec![1, 2, 0]);
}

#[test]
fn ordering_on_neutral_store_is_insertion_order() {
    let store = store_of(&["c", "a", "b"]);
    assert_eq!(store.ordering(), vec![0, 1, 2]);
}

#[test]
fn visible_entries_never_yield_hidden() {
    let mut store = store_of(&["apple", "zzz", "apply"]);
    store.update_scores("apple");
    let visible = store.visible_entries();
    assert!(!visible.is_empty());
    for &id in &visible {
        assert!(!store.hidden(id));
    }
    assert!(!visible.contains(&1));
}

#[test]
fn scenario_ranked_query() {
    // Entries apple, apply, banana with query "appl": the two close
    // names score equally and far above banana, and the auto-selected
    // entry is apple, first in insertion order on the exact tie.
    let mut store = store_of(&["apple", "apply", "banana"]);
    let mut ctl = SelectionController::new();
    let r = ctl.handle_event(&mut store, UiEvent::QueryChanged("appl".to_string()));
    assert_eq!(r, Reaction::Stay);
    assert_eq!(store.rating(0), store.rating(1));
    assert!(store.rating(0) > store.rating(2));
    assert_eq!(ctl.selection, Some(0));
    // banana still shares characters with the query, so its rating
    // stays above the hiding bound.
    assert!(!store.hidden(2));
}

#[test]
fn scenario_single_entry_empty_query() {
    let mut store = store_of(&["alpha"]);
    let mut ctl = SelectionController::new();
    let r = ctl.handle_event(&mut store, UiEvent::QueryChanged(String::new()));
    assert_eq!(r, Reaction::Stay);
    assert_eq!(store.rating(0), RATING_ONE);
    assert!(!store.hidden(0));
    assert_eq!(ctl.selection, Some(0));
    assert_eq!(store.name(0), "alpha");
}

#[test]
fn scenario_commit_with_no_entries() {
    let mut store = store_of(&[]);
    let mut ctl = SelectionController::new();
    ctl.handle_event(&mut store, UiEvent::QueryChanged(String::new()));
    assert_eq!(ctl.selection, None);
    let r = ctl.handle_event(&mut store, UiEvent::Commit);
    assert_eq!(r, Reaction::Stay);
    assert!(!ctl.closed);
}

#[test]
fn scenario_cancel_emits_nothing() {
    let mut store = store_of(&["apple", "banana"]);
    let mut ctl = SelectionController::new();
    ctl.handle_event(&mut store, UiEvent::QueryChanged("app".to_string()));
    let r = ctl.handle_event(&mut store, UiEvent::Cancel);
    assert_eq!(r, Reaction::Quit);
    assert!(ctl.closed);
    // The session is closed: nothing is processed any more.
    let r = ctl.handle_event(&mut store, UiEvent::Commit);
    assert_eq!(r, Reaction::Stay);
    let r = ctl.handle_event(&mut store, UiEvent::NavigateDown);
    assert_eq!(r, Reaction::Stay);
}

#[test]
fn scenario_navigate_down_from_top_then_noop() {
    let mut store = store_of(&["first", "second", "third"]);
    let mut ctl = SelectionController::new();
    ctl.handle_event(&mut store, UiEvent::QueryChanged(String::new()));
    assert_eq!(ctl.selection, Some(0));
    let r = ctl.handle_event(&mut store, UiEvent::NavigateDown);
    assert_eq!(r, Reaction::Stay);
    assert_eq!(ctl.selection, Some(1));
    // The selection is no longer at visible position zero: no-op.
    let r = ctl.handle_event(&mut store, UiEvent::NavigateDown);
    assert_eq!(r, Reaction::Stay);
    assert_eq!(ctl.selection, Some(1));
}

#[test]
fn navigate_down_without_second_entry_is_noop() {
    let mut store = store_of(&["only"]);
    let mut ctl = SelectionController::new();
    ctl.handle_event(&mut store, UiEvent::QueryChanged(String::new()));
    assert_eq!(ctl.selection, Some(0));
    ctl.handle_event(&mut store, UiEvent::NavigateDown);
    assert_eq!(ctl.selection, Some(0));
}

#[test]
fn commit_emits_the_selected_line() {
    let mut store = store_of(&["apple", "apply", "banana"]);
    let mut ctl = SelectionController::new();
    ctl.handle_event(&mut store, UiEvent::QueryChanged("banana".to_string()));
    assert_eq!(ctl.selection, Some(2));
    let r = ctl.handle_event(&mut store, UiEvent::Commit);
    assert_eq!(r, Reaction::Emit("banana".to_string()));
    assert!(ctl.closed);
}

#[test]
fn query_hiding_everything_clears_the_selection() {
    let mut store = store_of(&["aaaa", "aaab"]);
    let mut ctl = SelectionController::new();
    ctl.handle_event(&mut store, UiEvent::QueryChanged("zzzz".to_string()));
    assert!(store.hidden(0));
    assert!(store.hidden(1));
    assert_eq!(ctl.selection, None);
    assert!(store.visible_entries().is_empty());
}
