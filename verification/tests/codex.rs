use herdr::codex::{
    codex_composer_is_empty, handle_codex_thread_rename_current, rename_submitted, CallerPane,
    CodexThreadRenameCurrentParams, CursorState, RenameError,
};

fn codex_pane(cursor: Option<CursorState>) -> CallerPane {
    CallerPane {
        pane_found: true,
        has_terminal: true,
        agent_label: Some("codex".to_string()),
        has_runtime: true,
        cursor,
    }
}

fn params(name: &str) -> CodexThreadRenameCurrentParams {
    CodexThreadRenameCurrentParams { caller_pane_id: "w1-1".to_string(), name: name.to_string() }
}

#[test]
fn rename_atomically_injects_slash_command_into_calling_codex_pane() {
    let caller = codex_pane(Some(CursorState { visible: true, x: 2 }));
    let command = handle_codex_thread_rename_current(&params(" API cleanup "), &caller).unwrap();
    assert_eq!(command.name, "API cleanup");
    assert_eq!(command.command, "/rename API cleanup");
}

#[test]
fn rename_skips_non_empty_codex_input() {
    let caller = codex_pane(Some(CursorState { visible: true, x: 13 }));
    let err = handle_codex_thread_rename_current(&params("API cleanup"), &caller).unwrap_err();
    assert_eq!(err, RenameError::CodexInputNotEmpty);
    assert_eq!(err.code(), "codex_input_not_empty");
}

#[test]
fn rename_rejects_panes_without_codex_session() {
    let caller = CallerPane {
        pane_found: true,
        has_terminal: true,
        agent_label: None,
        has_runtime: true,
        cursor: Some(CursorState { visible: true, x: 2 }),
    };
    let err = handle_codex_thread_rename_current(&params("API cleanup"), &caller).unwrap_err();
    assert_eq!(err.code(), "not_a_codex_thread");
}

#[test]
fn rename_rejects_control_characters_before_writing() {
    let caller = codex_pane(Some(CursorState { visible: true, x: 2 }));
    let err = handle_codex_thread_rename_current(&params("safe\n/quit"), &caller).unwrap_err();
    assert_eq!(err, RenameError::ControlCharacters);
    assert_eq!(err.code(), "invalid_name");
    assert_eq!(err.message(), "Codex thread name must not contain control characters");
}

#[test]
fn rename_rejects_blank_names() {
    let caller = codex_pane(Some(CursorState { visible: true, x: 2 }));
    let err = handle_codex_thread_rename_current(&params(" \t "), &caller).unwrap_err();
    assert_eq!(err, RenameError::EmptyName);
    assert_eq!(err.code(), "invalid_name");
    assert_eq!(err.message(), "Codex thread name must not be empty");
}

#[test]
fn rename_checks_the_pane_lookups_in_order() {
    let mut caller = codex_pane(None);
    caller.pane_found = false;
    caller.has_terminal = false;
    let err = handle_codex_thread_rename_current(&params("x"), &caller).unwrap_err();
    assert_eq!(err, RenameError::CallerPaneNotFound);
    assert_eq!(err.code(), "caller_pane_not_found");
    assert_eq!(err.message(), "the calling Herdr pane is no longer available");

    caller.pane_found = true;
    let err = handle_codex_thread_rename_current(&params("x"), &caller).unwrap_err();
    assert_eq!(err, RenameError::CallerPaneHasNoTerminal);
    assert_eq!(err.message(), "the calling Herdr pane has no terminal");

    caller.has_terminal = true;
    caller.agent_label = Some("aider".to_string());
    let err = handle_codex_thread_rename_current(&params("x"), &caller).unwrap_err();
    assert_eq!(err, RenameError::NotACodexThread);
    assert_eq!(err.message(), "the calling pane is not running Codex");

    caller.agent_label = Some("codex".to_string());
    caller.has_runtime = false;
    let err = handle_codex_thread_rename_current(&params("x"), &caller).unwrap_err();
    assert_eq!(err, RenameError::CallerPaneHasNoRuntime);
    assert_eq!(err.code(), "caller_pane_not_found");
    assert_eq!(err.message(), "the calling Herdr pane has no terminal runtime");

    caller.has_runtime = true;
    let err = handle_codex_thread_rename_current(&params("x"), &caller).unwrap_err();
    assert_eq!(err, RenameError::CodexInputNotEmpty);
    assert_eq!(err.message(), "the Codex input is not empty; thread rename was skipped");
}

#[test]
fn composer_is_empty_only_with_visible_cursor_after_prompt() {
    assert!(codex_composer_is_empty(Some(CursorState { visible: true, x: 2 })));
    assert!(!codex_composer_is_empty(Some(CursorState { visible: false, x: 2 })));
    assert!(!codex_composer_is_empty(Some(CursorState { visible: true, x: 3 })));
    assert!(!codex_composer_is_empty(None));
}

#[test]
fn accepted_commands_are_a_single_line() {
    let caller = codex_pane(Some(CursorState { visible: true, x: 2 }));
    let command = handle_codex_thread_rename_current(&params("\u{3000}Release notes \t"), &caller).unwrap();
    assert_eq!(command.command, "/rename Release notes");
    assert!(!command.command.chars().any(char::is_control));
    let err = handle_codex_thread_rename_current(&params("a\u{7f}b"), &caller).unwrap_err();
    assert_eq!(err, RenameError::ControlCharacters);
}

#[test]
fn a_failed_submission_is_reported() {
    let caller = codex_pane(Some(CursorState { visible: true, x: 2 }));
    let command = handle_codex_thread_rename_current(&params("x"), &caller).unwrap();
    let err = rename_submitted(command, Err("channel closed".into())).unwrap_err();
    assert_eq!(err.code(), "codex_thread_rename_failed");
    assert_eq!(err.message(), "failed to submit rename command: channel closed");
    let command = handle_codex_thread_rename_current(&params("y"), &caller).unwrap();
    assert_eq!(rename_submitted(command, Ok(())).unwrap().name, "y");
}
