use herdr::cli::{
    parse_request_args, rename_thread_name, rename_thread_request, run_codex_command, run_secret_command, CliDispatch,
    RenameThreadArgsError,
};

fn args(words: &[&str]) -> Vec<String> {
    words.iter().map(|w| w.to_string()).collect()
}

#[test]
fn codex_command_dispatch() {
    assert_eq!(run_codex_command(&args(&["rename-thread", "--current", "x"])), CliDispatch::Run);
    assert_eq!(run_codex_command(&args(&["--help"])), CliDispatch::Help);
    assert_eq!(run_codex_command(&args(&["-h"])), CliDispatch::Help);
    assert_eq!(run_codex_command(&args(&["help"])), CliDispatch::Help);
    assert_eq!(run_codex_command(&args(&["rename"])), CliDispatch::Usage);
    assert_eq!(run_codex_command(&args(&[])), CliDispatch::Usage);
    assert_eq!(CliDispatch::Help.exit_code(), 0);
    assert_eq!(CliDispatch::Usage.exit_code(), 2);
}

#[test]
fn secret_command_dispatch() {
    assert_eq!(run_secret_command(&args(&["request", "API_KEY"])), CliDispatch::Run);
    assert_eq!(run_secret_command(&args(&["help"])), CliDispatch::Help);
    assert_eq!(run_secret_command(&args(&["rename-thread"])), CliDispatch::Usage);
}

#[test]
fn rename_thread_joins_the_words_after_current() {
    assert_eq!(rename_thread_name(&args(&["--current", "API", "cleanup"])), Ok("API cleanup".to_string()));
    assert_eq!(rename_thread_name(&args(&["--current", " spaced "])), Ok(" spaced ".to_string()));
}

#[test]
fn rename_thread_usage_errors() {
    assert_eq!(rename_thread_name(&args(&["--current"])), Err(RenameThreadArgsError::Usage));
    assert_eq!(rename_thread_name(&args(&["name", "--current"])), Err(RenameThreadArgsError::Usage));
    assert_eq!(rename_thread_name(&args(&[])), Err(RenameThreadArgsError::Usage));
    assert_eq!(rename_thread_name(&args(&["--current", " ", ""])), Err(RenameThreadArgsError::EmptyName));
    assert_eq!(
        RenameThreadArgsError::Usage.message(),
        "usage: herdr codex rename-thread --current <name>"
    );
    assert_eq!(RenameThreadArgsError::EmptyName.message(), "Codex thread name must not be empty");
}

#[test]
fn secret_request_defaults_to_dot_env() {
    let params = parse_request_args(&args(&["API_KEY"]), Some("w1-2".into())).unwrap();
    assert_eq!(params.name, "API_KEY");
    assert_eq!(params.pane_id, "w1-2");
    assert_eq!(params.file, ".env");
    assert_eq!(params.label, None);
}

#[test]
fn secret_request_options_last_one_wins() {
    let params = parse_request_args(
        &args(&["TOKEN", "--file", "a.env", "--label", "Token", "--file", "config/.env"]),
        Some("p".into()),
    )
    .unwrap();
    assert_eq!(params.file, "config/.env");
    assert_eq!(params.label, Some("Token".to_string()));
}

#[test]
fn secret_request_errors() {
    assert_eq!(parse_request_args(&args(&[]), Some("p".into())).unwrap_err(), "missing secret variable name");
    assert_eq!(parse_request_args(&args(&["--help"]), Some("p".into())).unwrap_err(), "missing secret variable name");
    assert_eq!(
        parse_request_args(&args(&["A"]), None).unwrap_err(),
        "secret requests must run inside a Herdr pane"
    );
    assert_eq!(
        parse_request_args(&args(&["A", "--file"]), Some("p".into())).unwrap_err(),
        "missing value for --file"
    );
    assert_eq!(
        parse_request_args(&args(&["A", "--mode", "x"]), Some("p".into())).unwrap_err(),
        "unknown option: --mode"
    );
}

#[test]
fn rename_thread_needs_a_herdr_pane() {
    let params =
        rename_thread_request(&args(&["--current", "API", "cleanup"]), Some("w1-2".into())).unwrap();
    assert_eq!(params.caller_pane_id, "w1-2");
    assert_eq!(params.name, "API cleanup");
    for pane in [None, Some(String::new()), Some("  \t".to_string())] {
        let error = rename_thread_request(&args(&["--current", "x"]), pane).unwrap_err();
        assert_eq!(error, RenameThreadArgsError::PaneUnavailable);
        assert_eq!(error.exit_code(), 1);
        assert_eq!(
            error.message(),
            "current Herdr pane is unavailable; run this command from a Herdr pane"
        );
    }
    // The arguments are checked before the pane.
    assert_eq!(
        rename_thread_request(&args(&["--current"]), None).unwrap_err(),
        RenameThreadArgsError::Usage
    );
    assert_eq!(RenameThreadArgsError::Usage.exit_code(), 2);
    assert_eq!(RenameThreadArgsError::EmptyName.exit_code(), 2);
}
