use zedis::states::{Route, ZedisAppState};

#[test]
fn the_home_page_is_shown_first() {
    let state = ZedisAppState::new();
    assert_eq!(state.route(), Route::Home);
    assert_eq!(Route::default(), Route::Home);
}

#[test]
fn go_to_reports_a_change_only() {
    let mut state = ZedisAppState::new();
    assert!(!state.go_to(Route::Home));
    assert_eq!(state.route(), Route::Home);
    assert!(state.go_to(Route::Editor));
    assert_eq!(state.route(), Route::Editor);
    assert!(!state.go_to(Route::Editor));
    assert!(state.go_to(Route::Home));
    assert_eq!(state.route(), Route::Home);
}
