use ndir::{handle_key, Action, Entry, KeyCode, KeyEvent, KeyModifiers, NavState, Request};
use tempfile::TempDir;

fn make_key(code: KeyCode, modifiers: KeyModifiers) -> KeyEvent {
    KeyEvent::new(code, modifiers)
}

fn path_text(p: &std::path::Path) -> String {
    p.to_string_lossy().into_owned()
}

fn make_state(cwd: String) -> NavState {
    NavState {
        cwd,
        selected: 0,
        query: String::new(),
        show_hidden: false,
        show_files: false,
        scroll_offset: 0,
    }
}

fn sample_entries() -> Vec<Entry> {
    vec![
        Entry { name: "alpha".into(), is_dir: true },
        Entry { name: "beta".into(), is_dir: true },
        Entry { name: "gamma".into(), is_dir: false },
    ]
}

/// Carries out a `Resolve` action as the program does once the path has been
/// made canonical; here the path is taken to be canonical already.
fn resolve(state: &mut NavState, action: Action) -> Action {
    match action {
        Action::Resolve(request, target) => state.resolved(request, Some(target)),
        other => other,
    }
}

#[test]
fn handle_key_esc_cancels() {
    let tmp = TempDir::new().unwrap();
    let mut state = make_state(path_text(tmp.path()));
    let entries = sample_entries();
    let key = make_key(KeyCode::Esc, KeyModifiers::none());
    assert!(matches!(handle_key(key, &mut state, &entries), Action::Cancel));
}

#[test]
fn handle_key_ctrl_c_cancels() {
    let tmp = TempDir::new().unwrap();
    let mut state = make_state(path_text(tmp.path()));
    let entries = sample_entries();
    let key = make_key(KeyCode::Char('c'), KeyModifiers::control());
    assert!(matches!(handle_key(key, &mut state, &entries), Action::Cancel));
}

#[test]
fn handle_key_down_increments_selected() {
    let tmp = TempDir::new().unwrap();
    let mut state = make_state(path_text(tmp.path()));
    let entries = sample_entries();
    let key = make_key(KeyCode::Down, KeyModifiers::none());
    handle_key(key, &mut state, &entries);
    assert_eq!(state.selected, 1);
}

#[test]
fn handle_key_down_wraps_around() {
    let tmp = TempDir::new().unwrap();
    let mut state = make_state(path_text(tmp.path()));
    state.selected = 2;
    let entries = sample_entries();
    let key = make_key(KeyCode::Down, KeyModifiers::none());
    handle_key(key, &mut state, &entries);
    assert_eq!(state.selected, 0);
}

#[test]
fn handle_key_up_decrements_selected() {
    let tmp = TempDir::new().unwrap();
    let mut state = make_state(path_text(tmp.path()));
    state.selected = 2;
    let entries = sample_entries();
    let key = make_key(KeyCode::Up, KeyModifiers::none());
    handle_key(key, &mut state, &entries);
    assert_eq!(state.selected, 1);
}

#[test]
fn handle_key_up_wraps_to_bottom() {
    let tmp = TempDir::new().unwrap();
    let mut state = make_state(path_text(tmp.path()));
    let entries = sample_entries();
    let key = make_key(KeyCode::Up, KeyModifiers::none());
    handle_key(key, &mut state, &entries);
    assert_eq!(state.selected, 2);
}

#[test]
fn handle_key_char_appends_to_query() {
    let tmp = TempDir::new().unwrap();
    let mut state = make_state(path_text(tmp.path()));
    let entries = sample_entries();
    let key = make_key(KeyCode::Char('a'), KeyModifiers::none());
    handle_key(key, &mut state, &entries);
    assert_eq!(state.query, "a");
}

#[test]
fn handle_key_backspace_removes_from_query() {
    let tmp = TempDir::new().unwrap();
    let mut state = make_state(path_text(tmp.path()));
    state.query = "abc".into();
    let entries = sample_entries();
    let key = make_key(KeyCode::Backspace, KeyModifiers::none());
    handle_key(key, &mut state, &entries);
    assert_eq!(state.query, "ab");
}

#[test]
fn handle_key_ctrl_h_toggles_hidden() {
    let tmp = TempDir::new().unwrap();
    let mut state = make_state(path_text(tmp.path()));
    let entries = sample_entries();
    let key = make_key(KeyCode::Char('h'), KeyModifiers::control());
    handle_key(key, &mut state, &entries);
    assert!(state.show_hidden);
    handle_key(key, &mut state, &entries);
    assert!(!state.show_hidden);
}

#[test]
fn handle_key_ctrl_f_toggles_files() {
    let tmp = TempDir::new().unwrap();
    let mut state = make_state(path_text(tmp.path()));
    let entries = sample_entries();
    let key = make_key(KeyCode::Char('f'), KeyModifiers::control());
    handle_key(key, &mut state, &entries);
    assert!(state.show_files);
}

#[test]
fn handle_key_tab_accepts_cwd() {
    let tmp = TempDir::new().unwrap();
    let cwd = path_text(tmp.path());
    let mut state = make_state(cwd.clone());
    let entries = sample_entries();
    let key = make_key(KeyCode::Tab, KeyModifiers::none());
    let action = handle_key(key, &mut state, &entries);
    assert!(matches!(action, Action::Accept(p) if p == cwd));
}

#[test]
fn handle_key_enter_on_dir_accepts() {
    let tmp = TempDir::new().unwrap();
    let mut state = make_state(path_text(tmp.path()));
    let entries = vec![Entry { name: "subdir".into(), is_dir: true }];
    let key = make_key(KeyCode::Enter, KeyModifiers::none());
    let action = handle_key(key, &mut state, &entries);
    let action = resolve(&mut state, action);
    assert!(matches!(action, Action::Accept(p) if p == path_text(&tmp.path().join("subdir"))));
}

#[test]
fn handle_key_enter_on_file_continues() {
    let tmp = TempDir::new().unwrap();
    let mut state = make_state(path_text(tmp.path()));
    let entries = vec![Entry { name: "file.txt".into(), is_dir: false }];
    let key = make_key(KeyCode::Enter, KeyModifiers::none());
    let action = handle_key(key, &mut state, &entries);
    assert!(matches!(action, Action::Continue));
}

#[test]
fn handle_key_right_navigates_into_dir() {
    let tmp = TempDir::new().unwrap();
    let sub = path_text(&tmp.path().join("child"));
    let mut state = make_state(path_text(tmp.path()));
    state.query = "ch".into();
    let entries = vec![Entry { name: "child".into(), is_dir: true }];
    let key = make_key(KeyCode::Right, KeyModifiers::none());
    let action = handle_key(key, &mut state, &entries);
    resolve(&mut state, action);
    assert_eq!(state.cwd, sub);
    assert_eq!(state.selected, 0);
    assert!(state.query.is_empty());
}

#[test]
fn handle_key_left_goes_to_parent() {
    let tmp = TempDir::new().unwrap();
    let sub = path_text(&tmp.path().join("child"));
    let mut state = make_state(sub);
    let entries = sample_entries();
    let key = make_key(KeyCode::Left, KeyModifiers::none());
    let action = handle_key(key, &mut state, &entries);
    assert_eq!(state.cwd, path_text(tmp.path()));
    assert!(matches!(action, Action::Relist(n) if n == "child"));
}

#[test]
fn handle_key_vim_ctrl_j_moves_down() {
    let tmp = TempDir::new().unwrap();
    let mut state = make_state(path_text(tmp.path()));
    let entries = sample_entries();
    let key = make_key(KeyCode::Char('j'), KeyModifiers::control());
    handle_key(key, &mut state, &entries);
    assert_eq!(state.selected, 1);
}

#[test]
fn handle_key_vim_ctrl_k_moves_up() {
    let tmp = TempDir::new().unwrap();
    let mut state = make_state(path_text(tmp.path()));
    state.selected = 1;
    let entries = sample_entries();
    let key = make_key(KeyCode::Char('k'), KeyModifiers::control());
    handle_key(key, &mut state, &entries);
    assert_eq!(state.selected, 0);
}

// ── more cases ──

#[test]
fn enter_asks_to_resolve_the_selected_directory() {
    let mut state = make_state("/work".to_string());
    state.selected = 1;
    let action = handle_key(make_key(KeyCode::Enter, KeyModifiers::none()), &mut state, &sample_entries());
    assert!(matches!(action, Action::Resolve(Request::Accept, ref p) if p == "/work/beta"));
}

#[test]
fn enter_with_empty_list_continues() {
    let mut state = make_state("/work".to_string());
    let action = handle_key(make_key(KeyCode::Enter, KeyModifiers::none()), &mut state, &[]);
    assert!(matches!(action, Action::Continue));
}

#[test]
fn right_on_file_continues() {
    let mut state = make_state("/work".to_string());
    state.selected = 2;
    let action = handle_key(make_key(KeyCode::Right, KeyModifiers::none()), &mut state, &sample_entries());
    assert!(matches!(action, Action::Continue));
    assert_eq!(state.cwd, "/work");
}

#[test]
fn y_copies_file_path_too() {
    let mut state = make_state("/work".to_string());
    state.selected = 2;
    let action = handle_key(make_key(KeyCode::Char('Y'), KeyModifiers::none()), &mut state, &sample_entries());
    assert!(matches!(action, Action::Resolve(Request::Copy, ref p) if p == "/work/gamma"));
    assert!(state.query.is_empty());
}

#[test]
fn copy_resolves_to_copy_path() {
    let mut state = make_state("/work".to_string());
    let action = state.resolved(Request::Copy, Some("/real/gamma".to_string()));
    assert!(matches!(action, Action::CopyPath(ref p) if p == "/real/gamma"));
    let action = state.resolved(Request::Copy, None);
    assert!(matches!(action, Action::Continue));
}

#[test]
fn failed_resolution_changes_nothing() {
    let mut state = make_state("/work".to_string());
    state.query = "ab".into();
    state.selected = 1;
    let action = state.resolved(Request::Enter, None);
    assert!(matches!(action, Action::Continue));
    assert_eq!(state.cwd, "/work");
    assert_eq!(state.query, "ab");
    assert_eq!(state.selected, 1);
}

#[test]
fn ctrl_char_other_than_commands_is_ignored() {
    let mut state = make_state("/work".to_string());
    let action = handle_key(make_key(KeyCode::Char('x'), KeyModifiers::control()), &mut state, &sample_entries());
    assert!(matches!(action, Action::Continue));
    assert!(state.query.is_empty());
}

#[test]
fn plain_c_is_typed_not_cancel() {
    let mut state = make_state("/work".to_string());
    state.selected = 2;
    let action = handle_key(make_key(KeyCode::Char('c'), KeyModifiers::none()), &mut state, &sample_entries());
    assert!(matches!(action, Action::Continue));
    assert_eq!(state.query, "c");
    assert_eq!(state.selected, 0);
}

#[test]
fn backspace_on_empty_query_keeps_it_empty() {
    let mut state = make_state("/work".to_string());
    state.selected = 2;
    state.scroll_offset = 1;
    handle_key(make_key(KeyCode::Backspace, KeyModifiers::none()), &mut state, &sample_entries());
    assert!(state.query.is_empty());
    assert_eq!(state.selected, 0);
    assert_eq!(state.scroll_offset, 0);
}

#[test]
fn arrows_on_empty_list_keep_cursor() {
    let mut state = make_state("/work".to_string());
    handle_key(make_key(KeyCode::Down, KeyModifiers::none()), &mut state, &[]);
    handle_key(make_key(KeyCode::Up, KeyModifiers::none()), &mut state, &[]);
    assert_eq!(state.selected, 0);
}

#[test]
fn up_then_down_returns_to_start() {
    let entries = sample_entries();
    for start in 0..entries.len() {
        let mut state = make_state("/work".to_string());
        state.selected = start;
        handle_key(make_key(KeyCode::Up, KeyModifiers::none()), &mut state, &entries);
        handle_key(make_key(KeyCode::Down, KeyModifiers::none()), &mut state, &entries);
        assert_eq!(state.selected, start);
    }
}

#[test]
fn down_total_times_cycles() {
    let entries = sample_entries();
    let mut state = make_state("/work".to_string());
    state.selected = 1;
    for _ in 0..entries.len() {
        handle_key(make_key(KeyCode::Down, KeyModifiers::none()), &mut state, &entries);
    }
    assert_eq!(state.selected, 1);
}

#[test]
fn type_then_erase_restores_query() {
    let mut state = make_state("/work".to_string());
    state.query = "do".into();
    handle_key(make_key(KeyCode::Char('c'), KeyModifiers::none()), &mut state, &sample_entries());
    assert_eq!(state.query, "doc");
    handle_key(make_key(KeyCode::Backspace, KeyModifiers::none()), &mut state, &sample_entries());
    assert_eq!(state.query, "do");
}

#[test]
fn toggle_clears_query_and_cursor() {
    let mut state = make_state("/work".to_string());
    state.query = "al".into();
    state.selected = 2;
    state.scroll_offset = 1;
    handle_key(make_key(KeyCode::Char('f'), KeyModifiers::control()), &mut state, &sample_entries());
    handle_key(make_key(KeyCode::Char('f'), KeyModifiers::control()), &mut state, &sample_entries());
    assert!(!state.show_files);
    assert!(state.query.is_empty());
    assert_eq!(state.selected, 0);
    assert_eq!(state.scroll_offset, 0);
}

#[test]
fn left_then_relist_selects_previous_directory() {
    let mut state = make_state("/home/user/projects".to_string());
    state.query = "pro".into();
    let action = handle_key(make_key(KeyCode::Left, KeyModifiers::none()), &mut state, &sample_entries());
    assert!(matches!(action, Action::Relist(ref n) if n == "projects"));
    assert_eq!(state.cwd, "/home/user");
    assert!(state.query.is_empty());
    let parent = vec![
        Entry { name: "docs".into(), is_dir: true },
        Entry { name: "projects".into(), is_dir: true },
    ];
    state.relisted(&parent, "projects");
    assert_eq!(state.selected, 1);
}

#[test]
fn relisted_without_the_name_selects_first() {
    let mut state = make_state("/home".to_string());
    state.selected = 4;
    state.relisted(&sample_entries(), "missing");
    assert_eq!(state.selected, 0);
}

#[test]
fn left_at_root_stays() {
    let mut state = make_state("/".to_string());
    state.query = "x".into();
    let action = handle_key(make_key(KeyCode::Left, KeyModifiers::none()), &mut state, &sample_entries());
    assert!(matches!(action, Action::Continue));
    assert_eq!(state.cwd, "/");
    assert_eq!(state.query, "x");
}

#[test]
fn settle_clamps_and_scrolls() {
    let mut state = make_state("/".to_string());
    state.selected = 40;
    state.scroll_offset = 0;
    state.settle(30);
    assert_eq!(state.selected, 29);
    assert_eq!(state.scroll_offset, 15);
    state.settle(0);
    assert_eq!(state.selected, 0);
    assert_eq!(state.scroll_offset, 0);
}

#[test]
fn other_keys_do_nothing() {
    let mut state = make_state("/work".to_string());
    state.selected = 1;
    let action = handle_key(make_key(KeyCode::Other, KeyModifiers::none()), &mut state, &sample_entries());
    assert!(matches!(action, Action::Continue));
    assert_eq!(state.selected, 1);
}
