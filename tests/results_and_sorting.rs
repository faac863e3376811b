use aur_browser::fetch::{first_result, select_recent, FetchKind, FetchOutcome, FetchPhase, FetchTracker};
use aur_browser::package::AurPackage;
use aur_browser::results::ResultState;
use aur_browser::sorting::{ranks_before_exec, sort_mode_at, sort_packages, SortMode};

fn pkg(name: &str, votes: Option<i32>, popularity: Option<f64>, last_modified: Option<i64>) -> AurPackage {
    AurPackage {
        name: name.to_string(),
        version: "1.0-1".to_string(),
        description: None,
        maintainer: None,
        votes,
        popularity_bits: popularity.map(|p| p.to_bits()),
        out_of_date: None,
        last_modified,
        url: None,
        url_path: None,
        depends: Some(vec!["glibc".to_string()]),
        makedepends: None,
        optdepends: None,
        conflicts: None,
        license: Some(vec!["MIT".to_string()]),
    }
}

fn names(v: &[AurPackage]) -> Vec<String> {
    v.iter().map(|p| p.name.clone()).collect()
}

fn foo_bar() -> Vec<AurPackage> {
    vec![pkg("foo", Some(10), Some(0.5), None), pkg("bar", Some(50), Some(0.1), None)]
}

#[test]
fn scenario_votes_alphabetical_popularity() {
    let mut v = foo_bar();
    sort_packages(&mut v, SortMode::Votes);
    assert_eq!(names(&v), vec!["bar", "foo"]);
    let mut v = foo_bar();
    sort_packages(&mut v, SortMode::Alphabetical);
    assert_eq!(names(&v), vec!["bar", "foo"]);
    let mut v = foo_bar();
    sort_packages(&mut v, SortMode::Popularity);
    assert_eq!(names(&v), vec!["foo", "bar"]);
}

#[test]
fn sorted_keeps_stored_order() {
    let mut state = ResultState::new();
    state.replace_results(foo_bar());
    let by_votes = state.sorted(SortMode::Votes);
    assert_eq!(names(&by_votes), vec!["bar", "foo"]);
    assert_eq!(names(state.results()), vec!["foo", "bar"]);
}

#[test]
fn sort_is_a_permutation_and_repeatable() {
    let input = vec![
        pkg("c", Some(3), Some(0.3), Some(30)),
        pkg("a", Some(1), None, Some(10)),
        pkg("b", Some(3), Some(2.5), None),
        pkg("a", None, Some(0.0), Some(10)),
    ];
    for mode in [SortMode::Popularity, SortMode::Votes, SortMode::Alphabetical, SortMode::LastModified] {
        let mut once: Vec<AurPackage> = input.iter().map(|p| p.duplicate()).collect();
        sort_packages(&mut once, mode);
        let mut sorted_names = names(&once);
        sorted_names.sort();
        let mut input_names = names(&input);
        input_names.sort();
        assert_eq!(sorted_names, input_names);
        let mut twice: Vec<AurPackage> = once.iter().map(|p| p.duplicate()).collect();
        sort_packages(&mut twice, mode);
        assert_eq!(names(&twice), names(&once));
        let mut again: Vec<AurPackage> = input.iter().map(|p| p.duplicate()).collect();
        sort_packages(&mut again, mode);
        assert_eq!(names(&again), names(&once));
    }
}

#[test]
fn alphabetical_is_case_sensitive_byte_order() {
    let mut v = vec![pkg("b", None, None, None), pkg("B", None, None, None), pkg("a", None, None, None), pkg("ab", None, None, None), pkg("", None, None, None)];
    sort_packages(&mut v, SortMode::Alphabetical);
    assert_eq!(names(&v), vec!["", "B", "a", "ab", "b"]);
    for w in v.windows(2) {
        assert!(w[0].name <= w[1].name);
    }
}

#[test]
fn alphabetical_non_ascii_names() {
    let mut v = vec![pkg("é", None, None, None), pkg("z", None, None, None), pkg("ä", None, None, None)];
    sort_packages(&mut v, SortMode::Alphabetical);
    assert_eq!(names(&v), vec!["z", "ä", "é"]);
}

#[test]
fn numeric_sorts_descending_and_stable() {
    let v = vec![
        pkg("one", Some(5), Some(1.0), Some(100)),
        pkg("two", None, None, None),
        pkg("three", Some(5), Some(1.0), Some(100)),
        pkg("four", Some(9), Some(0.25), Some(-5)),
    ];
    let mut by_votes: Vec<AurPackage> = v.iter().map(|p| p.duplicate()).collect();
    sort_packages(&mut by_votes, SortMode::Votes);
    assert_eq!(names(&by_votes), vec!["four", "one", "three", "two"]);
    let mut by_pop: Vec<AurPackage> = v.iter().map(|p| p.duplicate()).collect();
    sort_packages(&mut by_pop, SortMode::Popularity);
    assert_eq!(names(&by_pop), vec!["one", "three", "four", "two"]);
    let mut by_time: Vec<AurPackage> = v.iter().map(|p| p.duplicate()).collect();
    sort_packages(&mut by_time, SortMode::LastModified);
    assert_eq!(names(&by_time), vec!["one", "three", "two", "four"]);
}

#[test]
fn sort_empty_list() {
    let mut v: Vec<AurPackage> = Vec::new();
    sort_packages(&mut v, SortMode::Votes);
    assert!(v.is_empty());
}

#[test]
fn ranks_before_compares_fields() {
    let a = pkg("a", Some(1), Some(0.9), Some(1));
    let b = pkg("b", Some(2), Some(0.1), Some(1));
    assert!(ranks_before_exec(SortMode::Votes, &b, &a));
    assert!(!ranks_before_exec(SortMode::Votes, &a, &b));
    assert!(ranks_before_exec(SortMode::Popularity, &a, &b));
    assert!(ranks_before_exec(SortMode::Alphabetical, &a, &b));
    assert!(!ranks_before_exec(SortMode::LastModified, &a, &b));
    assert!(!ranks_before_exec(SortMode::LastModified, &b, &a));
}

#[test]
fn toggle_bookmark_idempotent() {
    let mut state = ResultState::new();
    let foo = "foo".to_string();
    state.toggle_bookmark(&foo, true);
    state.toggle_bookmark(&foo, true);
    assert_eq!(state.bookmarks(), &vec!["foo".to_string()]);
    assert!(state.is_bookmarked(&foo));
    let bar = "bar".to_string();
    state.toggle_bookmark(&bar, false);
    assert_eq!(state.bookmarks(), &vec!["foo".to_string()]);
    state.toggle_bookmark(&foo, false);
    assert!(state.bookmarks().is_empty());
    assert!(!state.is_bookmarked(&foo));
}

#[test]
fn bookmarked_view_keeps_result_order() {
    let mut state = ResultState::new();
    state.replace_results(vec![pkg("x", None, None, None), pkg("y", None, None, None), pkg("z", None, None, None)]);
    state.toggle_bookmark(&"z".to_string(), true);
    state.toggle_bookmark(&"x".to_string(), true);
    state.toggle_bookmark(&"gone".to_string(), true);
    assert_eq!(names(&state.bookmarked_view()), vec!["x", "z"]);
}

#[test]
fn bookmarked_view_after_empty_results() {
    let mut state = ResultState::new();
    state.replace_results(foo_bar());
    state.toggle_bookmark(&"foo".to_string(), true);
    state.replace_results(Vec::new());
    assert!(state.bookmarked_view().is_empty());
    assert_eq!(state.bookmarks(), &vec!["foo".to_string()]);
}

#[test]
fn search_with_no_match_is_empty_not_failed() {
    let mut tracker = FetchTracker::new();
    let mut state = ResultState::new();
    let ticket = tracker.begin(FetchKind::Search);
    assert!(tracker.phase == FetchPhase::Loading);
    assert!(tracker.finish(ticket, FetchOutcome::Loaded(Vec::new()), &mut state));
    assert!(tracker.phase == FetchPhase::Empty);
    assert!(state.results().is_empty());
}

#[test]
fn recent_with_no_packages_is_populated() {
    let mut tracker = FetchTracker::new();
    let mut state = ResultState::new();
    let ticket = tracker.begin(FetchKind::Recent);
    assert!(tracker.finish(ticket, FetchOutcome::Loaded(Vec::new()), &mut state));
    assert!(tracker.phase == FetchPhase::Populated);
}

#[test]
fn failed_fetch_keeps_results() {
    let mut tracker = FetchTracker::new();
    let mut state = ResultState::new();
    let t1 = tracker.begin(FetchKind::Recent);
    tracker.finish(t1, FetchOutcome::Loaded(foo_bar()), &mut state);
    assert!(tracker.phase == FetchPhase::Populated);
    let t2 = tracker.begin(FetchKind::Search);
    assert!(tracker.finish(t2, FetchOutcome::Failed, &mut state));
    assert!(tracker.phase == FetchPhase::Failed);
    assert_eq!(names(state.results()), vec!["foo", "bar"]);
}

#[test]
fn stale_response_is_dropped() {
    let mut tracker = FetchTracker::new();
    let mut state = ResultState::new();
    let a = tracker.begin(FetchKind::Search);
    let b = tracker.begin(FetchKind::Search);
    assert!(!tracker.is_current(a));
    assert!(tracker.finish(b, FetchOutcome::Loaded(vec![pkg("from_b", None, None, None)]), &mut state));
    assert!(!tracker.finish(a, FetchOutcome::Loaded(vec![pkg("from_a", None, None, None)]), &mut state));
    assert_eq!(names(state.results()), vec!["from_b"]);
    assert!(tracker.phase == FetchPhase::Populated);
}

#[test]
fn stale_failure_is_dropped() {
    let mut tracker = FetchTracker::new();
    let mut state = ResultState::new();
    let a = tracker.begin(FetchKind::Recent);
    let b = tracker.begin(FetchKind::Search);
    assert!(!tracker.finish(a, FetchOutcome::Failed, &mut state));
    assert!(tracker.phase == FetchPhase::Loading);
    assert!(tracker.finish(b, FetchOutcome::Loaded(foo_bar()), &mut state));
    assert!(!tracker.finish(b, FetchOutcome::Failed, &mut state));
    assert!(tracker.phase == FetchPhase::Populated);
}

#[test]
fn recent_selection_newest_first() {
    let v = vec![
        pkg("old", None, None, Some(10)),
        pkg("new", None, None, Some(300)),
        pkg("unknown", None, None, None),
        pkg("mid", None, None, Some(200)),
    ];
    assert_eq!(names(&select_recent(v, 2)), vec!["new", "mid"]);
    let w = vec![pkg("a", None, None, Some(1))];
    assert_eq!(names(&select_recent(w, 50)), vec!["a"]);
}

#[test]
fn first_result_of_listing() {
    assert!(first_result(Vec::new()).is_none());
    let p = first_result(foo_bar()).unwrap();
    assert_eq!(p.name, "foo");
}

#[test]
fn duplicate_keeps_content() {
    let p = pkg("foo", Some(3), Some(1.5), Some(7));
    let q = p.duplicate();
    assert_eq!(q.name, "foo");
    assert_eq!(q.votes, Some(3));
    assert_eq!(q.popularity_bits.map(f64::from_bits), Some(1.5));
    assert_eq!(q.depends, Some(vec!["glibc".to_string()]));
    assert_eq!(q.license, Some(vec!["MIT".to_string()]));
}

#[test]
fn sort_menu_positions() {
    assert!(sort_mode_at(0) == SortMode::Popularity);
    assert!(sort_mode_at(1) == SortMode::Votes);
    assert!(sort_mode_at(2) == SortMode::Alphabetical);
    assert!(sort_mode_at(3) == SortMode::LastModified);
    assert!(sort_mode_at(7) == SortMode::Popularity);
}
