use herdr::projects::{
    discover_project_entries, picker_label_width, picker_status_width, picker_tab_name_room,
    picker_visible_rows, right_aligned, AcceptAction, App, AppState, Mode, PickerKey,
    PickerKeyCode, ProjectCandidate, ProjectOpenOutcome, ProjectPicker, ProjectPickerEntry,
    WorkspaceIdentity, CONTROL, SHIFT,
};
use herdr::paths::{project_name, same_path_str};
use herdr::width::truncate_end;

fn state_with(entries: Vec<ProjectPickerEntry>, query: &str) -> AppState {
    AppState {
        mode: Mode::ProjectPicker,
        project_picker: ProjectPicker {
            query: query.to_string(),
            selected: 0,
            scroll: 0,
            error: None,
            entries,
        },
        project_command: String::new(),
    }
}

fn two_entries() -> Vec<ProjectPickerEntry> {
    vec![
        ProjectPickerEntry::new("Herdr".into(), "/repos/herdr".into(), Some(0)),
        ProjectPickerEntry::new("Storefront".into(), "/clients/acme/storefront".into(), None),
    ]
}

#[test]
fn project_filter_matches_name_and_path_case_insensitively() {
    let mut state = state_with(two_entries(), "");
    state.project_picker.query = "HERD".into();
    assert_eq!(state.filtered_project_indices(), vec![0]);
    state.project_picker.query = "acme".into();
    assert_eq!(state.filtered_project_indices(), vec![1]);
}

#[test]
fn empty_or_blank_query_matches_every_entry() {
    let state = state_with(two_entries(), "   ");
    assert_eq!(state.filtered_project_indices(), vec![0, 1]);
    let visible = state.project_picker_visible_entries();
    assert_eq!(visible.len(), 2);
    assert_eq!(visible[1].name, "Storefront");
}

#[test]
fn query_is_trimmed_before_matching() {
    let state = state_with(two_entries(), "  store ");
    assert_eq!(state.filtered_project_indices(), vec![1]);
}

fn app_with(entries: Vec<ProjectPickerEntry>, query: &str) -> App {
    App { state: state_with(entries, query) }
}

#[test]
fn open_resets_query_selection_and_error() {
    let mut app = app_with(Vec::new(), "old");
    app.state.mode = Mode::Terminal;
    app.state.project_picker.selected = 4;
    app.state.project_picker.scroll = 2;
    app.state.project_picker.error = Some("boom".into());
    app.open_project_picker(two_entries());
    assert_eq!(app.state.project_picker.query, "");
    assert_eq!(app.state.project_picker.selected, 0);
    assert_eq!(app.state.project_picker.scroll, 0);
    assert_eq!(app.state.project_picker.error, None);
    assert_eq!(app.state.project_picker.entries.len(), 2);
    assert_eq!(app.state.mode, Mode::ProjectPicker);
}

#[test]
fn moving_stays_within_the_matches_and_in_view() {
    let entries: Vec<ProjectPickerEntry> = (0..10)
        .map(|i| ProjectPickerEntry::new(format!("p{i}"), format!("/r/p{i}"), None))
        .collect();
    let mut app = app_with(entries, "");
    app.move_project_picker_selection(-1, 3);
    assert_eq!(app.state.project_picker.selected, 0);
    for _ in 0..5 {
        app.move_project_picker_selection(1, 3);
    }
    assert_eq!(app.state.project_picker.selected, 5);
    assert_eq!(app.state.project_picker.scroll, 3);
    for _ in 0..20 {
        app.move_project_picker_selection(1, 3);
    }
    assert_eq!(app.state.project_picker.selected, 9);
    assert_eq!(app.state.project_picker.scroll, 7);
    app.move_project_picker_selection(-9, 3);
    assert_eq!(app.state.project_picker.selected, 0);
    assert_eq!(app.state.project_picker.scroll, 0);
}

#[test]
fn moving_without_matches_selects_the_first_row() {
    let mut app = app_with(two_entries(), "nothing matches this");
    app.state.project_picker.selected = 1;
    app.move_project_picker_selection(1, 5);
    assert_eq!(app.state.project_picker.selected, 0);
}

#[test]
fn typing_narrows_and_clamps_the_selection() {
    let mut app = app_with(two_entries(), "");
    app.state.project_picker.selected = 1;
    app.state.project_picker.error = Some("stale".into());
    let key = |c| PickerKey { code: PickerKeyCode::Char(c), modifiers: 0 };
    app.handle_project_picker_key(key('h'), 5);
    assert_eq!(app.state.project_picker.query, "h");
    assert_eq!(app.state.project_picker.selected, 0);
    assert_eq!(app.state.project_picker.error, None);
    app.handle_project_picker_key(PickerKey { code: PickerKeyCode::Char('E'), modifiers: SHIFT }, 5);
    assert_eq!(app.state.project_picker.query, "hE");
    app.handle_project_picker_key(PickerKey { code: PickerKeyCode::Backspace, modifiers: 0 }, 5);
    assert_eq!(app.state.project_picker.query, "h");
    app.handle_project_picker_key(PickerKey { code: PickerKeyCode::Char('u'), modifiers: CONTROL }, 5);
    assert_eq!(app.state.project_picker.query, "");
    app.handle_project_picker_key(PickerKey { code: PickerKeyCode::Char('n'), modifiers: CONTROL }, 5);
    assert_eq!(app.state.project_picker.selected, 1);
    app.handle_project_picker_key(PickerKey { code: PickerKeyCode::Char('p'), modifiers: CONTROL }, 5);
    assert_eq!(app.state.project_picker.selected, 0);
    app.handle_project_picker_key(PickerKey { code: PickerKeyCode::Down, modifiers: 0 }, 5);
    assert_eq!(app.state.project_picker.selected, 1);
    app.handle_project_picker_key(PickerKey { code: PickerKeyCode::Up, modifiers: 0 }, 5);
    assert_eq!(app.state.project_picker.selected, 0);
    app.handle_project_picker_key(PickerKey { code: PickerKeyCode::Char('x'), modifiers: 4 }, 5);
    assert_eq!(app.state.project_picker.query, "");
    app.handle_project_picker_key(PickerKey { code: PickerKeyCode::Esc, modifiers: 0 }, 5);
    assert_eq!(app.state.mode, Mode::Terminal);
}

#[test]
fn accepting_an_open_workspace_focuses_it_and_closes() {
    let mut app = app_with(two_entries(), "");
    match app.handle_project_picker_key(PickerKey { code: PickerKeyCode::Enter, modifiers: 0 }, 5) {
        AcceptAction::Focus { workspace_idx } => assert_eq!(workspace_idx, 0),
        _ => panic!("expected focus"),
    }
    assert_eq!(app.state.mode, Mode::Terminal);
}

#[test]
fn accepting_a_repository_asks_to_open_it() {
    let mut app = app_with(two_entries(), "acme");
    match app.accept_project_picker_selection() {
        AcceptAction::Open { cwd, label } => {
            assert_eq!(cwd, "/clients/acme/storefront");
            assert_eq!(label, "Storefront");
        }
        _ => panic!("expected open"),
    }
    assert_eq!(app.state.mode, Mode::ProjectPicker);
}

#[test]
fn accepting_without_a_match_does_nothing() {
    let mut app = app_with(two_entries(), "zzz");
    assert!(matches!(app.accept_project_picker_selection(), AcceptAction::Nothing));
    assert_eq!(app.state.mode, Mode::ProjectPicker);
}

#[test]
fn open_answer_with_root_pane_closes_and_sends_trimmed_command() {
    let mut app = app_with(two_entries(), "");
    app.state.project_command = "  just dev  ".into();
    let outcome = app.complete_project_open(r#"{"result":{"root_pane":{"pane_id":"w2:p1"}}}"#);
    match outcome {
        ProjectOpenOutcome::Opened { pane_id, command } => {
            assert_eq!(pane_id, "w2:p1");
            assert_eq!(command.as_deref(), Some("just dev"));
        }
        ProjectOpenOutcome::Failed => panic!("expected opened"),
    }
    assert_eq!(app.state.mode, Mode::Terminal);
}

#[test]
fn open_answer_with_blank_command_sends_nothing() {
    let mut app = app_with(two_entries(), "");
    app.state.project_command = "   ".into();
    match app.complete_project_open(r#"{"result":{"root_pane":{"pane_id":"p"}}}"#) {
        ProjectOpenOutcome::Opened { command, .. } => assert_eq!(command, None),
        ProjectOpenOutcome::Failed => panic!("expected opened"),
    }
}

#[test]
fn open_answer_errors_stay_in_the_picker() {
    let mut app = app_with(two_entries(), "");
    assert!(matches!(
        app.complete_project_open(r#"{"error":{"message":"no such directory"}}"#),
        ProjectOpenOutcome::Failed
    ));
    assert_eq!(app.state.project_picker.error.as_deref(), Some("no such directory"));
    assert_eq!(app.state.mode, Mode::ProjectPicker);

    assert!(matches!(app.complete_project_open(r#"{"result":{}}"#), ProjectOpenOutcome::Failed));
    assert_eq!(
        app.state.project_picker.error.as_deref(),
        Some("project opened without a root pane")
    );

    assert!(matches!(app.complete_project_open("not json"), ProjectOpenOutcome::Failed));
    let error = app.state.project_picker.error.clone().unwrap();
    assert!(error.starts_with("failed to open project: "), "{error}");
}

#[test]
fn project_names_are_the_last_path_component() {
    assert_eq!(project_name("/repos/herdr"), "herdr");
    assert_eq!(project_name("/repos/herdr/"), "herdr");
    assert_eq!(project_name("/repos/herdr/."), "herdr");
    assert_eq!(project_name("/"), "/");
    assert_eq!(project_name("/repos/.."), "/repos/..");
}

#[test]
fn discovered_entries_put_open_workspaces_first_and_drop_duplicates() {
    let repos = vec![
        ProjectCandidate { path: "/r/zeta".into(), canonical: "/r/zeta".into() },
        ProjectCandidate { path: "/r/Alpha".into(), canonical: "/r/Alpha".into() },
        ProjectCandidate { path: "/r/beta".into(), canonical: "/r/beta".into() },
    ];
    let workspaces = vec![WorkspaceIdentity {
        identity_cwd: "/r/zeta".into(),
        canonical_cwd: "/r/zeta".into(),
        display_name: "Zeta workspace".into(),
    }];
    let entries = discover_project_entries(repos, &workspaces);
    let names: Vec<&str> = entries.iter().map(|e| e.name.as_str()).collect();
    assert_eq!(names, vec!["Zeta workspace", "Alpha", "beta"]);
    assert_eq!(entries[0].workspace_idx, Some(0));
    assert_eq!(entries[1].workspace_idx, None);
    assert_eq!(entries[2].path, "/r/beta");
}

#[test]
fn picker_row_columns() {
    assert_eq!(picker_label_width(80), 68);
    assert_eq!(picker_label_width(10), 0);
    assert_eq!(picker_tab_name_room(68, 5), Some(62));
    assert_eq!(picker_tab_name_room(6, 5), None);
    assert_eq!(picker_status_width(80, 19), 59);
    assert_eq!(picker_status_width(10, 19), 0);
    assert_eq!(right_aligned("open", 7), "   open");
    assert_eq!(right_aligned("repo", 2), "repo");
    assert_eq!(picker_visible_rows(3, 10, 4), (3, 7));
    assert_eq!(picker_visible_rows(12, 10, 4), (10, 10));
}

#[test]
fn filter_ignores_the_case_of_the_query() {
    let mut state = state_with(two_entries(), "herd");
    let lower = state.filtered_project_indices();
    state.project_picker.query = "HeRd".into();
    assert_eq!(state.filtered_project_indices(), lower);
    assert_eq!(lower, vec![0]);
    state.project_picker.query = "STOREFRONT".into();
    assert_eq!(state.filtered_project_indices(), vec![1]);
}

#[test]
fn ensure_visible_scrolls_only_when_needed() {
    let mut app = app_with(two_entries(), "");
    app.state.project_picker.selected = 5;
    app.state.project_picker.scroll = 4;
    app.ensure_project_picker_selection_visible(3);
    assert_eq!(app.state.project_picker.scroll, 4);
    app.state.project_picker.selected = 9;
    app.ensure_project_picker_selection_visible(3);
    assert_eq!(app.state.project_picker.scroll, 7);
    app.state.project_picker.selected = 2;
    app.ensure_project_picker_selection_visible(3);
    assert_eq!(app.state.project_picker.scroll, 2);
    app.ensure_project_picker_selection_visible(0);
    assert_eq!(app.state.project_picker.scroll, 0);
}

#[test]
fn clamping_keeps_the_selection_on_a_match_and_clears_the_error() {
    let mut app = app_with(two_entries(), "store");
    app.state.project_picker.selected = 7;
    app.state.project_picker.scroll = 6;
    app.state.project_picker.error = Some("old".into());
    app.clamp_project_picker_selection(4);
    assert_eq!(app.state.project_picker.selected, 0);
    assert_eq!(app.state.project_picker.scroll, 0);
    assert_eq!(app.state.project_picker.error, None);
}

#[test]
fn checked_keys_refuse_positions_at_the_integer_limits() {
    let mut app = app_with(two_entries(), "");
    let down = PickerKey { code: PickerKeyCode::Down, modifiers: 0 };
    assert!(matches!(app.handle_project_picker_key_checked(down, 5), Some(AcceptAction::Nothing)));
    assert_eq!(app.state.project_picker.selected, 1);
    app.state.project_picker.scroll = usize::MAX;
    assert!(app.handle_project_picker_key_checked(down, 5).is_none());
    assert_eq!(app.state.project_picker.selected, 1);
    app.state.project_picker.scroll = 0;
    app.state.project_picker.selected = isize::MAX as usize;
    assert!(app.handle_project_picker_key_checked(down, 5).is_none());
}

#[test]
fn truncate_end_keeps_the_longest_start_that_fits() {
    assert_eq!(truncate_end("release-notes", 7), "release");
    assert_eq!(truncate_end("herdr", 10), "herdr");
    assert_eq!(truncate_end("herdr", 0), "");
    // Wide characters take two columns and are not split.
    assert_eq!(truncate_end("提交反馈", 3), "提");
    assert_eq!(truncate_end("提交反馈", 4), "提交");
    // Control characters count no columns.
    assert_eq!(truncate_end("a\u{1}bc", 2), "a\u{1}b");
}

#[test]
fn discovered_paths_compare_component_by_component() {
    let repos = vec![
        ProjectCandidate { path: "/r/alpha/".into(), canonical: "/r/alpha/".into() },
        ProjectCandidate { path: "/r/beta".into(), canonical: "/r/beta".into() },
        ProjectCandidate { path: "/r/./beta/".into(), canonical: "/r/./beta/".into() },
    ];
    let workspaces = vec![WorkspaceIdentity {
        identity_cwd: "/r/alpha".into(),
        canonical_cwd: "/r/alpha".into(),
        display_name: "Alpha workspace".into(),
    }];
    let entries = discover_project_entries(repos, &workspaces);
    let names: Vec<&str> = entries.iter().map(|e| e.name.as_str()).collect();
    assert_eq!(names, vec!["Alpha workspace", "beta"]);
    assert_eq!(entries[0].workspace_idx, Some(0));
    assert_eq!(entries[0].path, "/r/alpha/");
    assert_eq!(entries[0].tab_idx, None);
    assert_eq!(entries[1].path, "/r/beta");
}

#[test]
fn paths_are_equal_when_their_components_are() {
    assert!(same_path_str("/a/b", "/a/b/"));
    assert!(same_path_str("/a//b", "/a/./b"));
    assert!(same_path_str("./a", "./a/."));
    assert!(!same_path_str("./a", "a"));
    assert!(!same_path_str("/a", "a"));
    assert!(!same_path_str("/a/../b", "/b"));
    assert!(!same_path_str("", "."));
}
