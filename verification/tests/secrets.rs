use herdr::env_file::{env_contains_name, env_line_name, upsert_env_contents};
use herdr::secrets::{
    handle_deferred_secret_request, handle_secret_request_value, path_probe_refusal,
    prepare_secret_request, prepared_secret, valid_env_name, validate_env_file, PathProbe,
    SecretRequestError, SecretRequestOutcome, SecretRequestParams,
};

#[test]
fn env_name_validation_is_strict() {
    assert!(valid_env_name("STRIPE_SECRET_KEY"));
    assert!(valid_env_name("_TOKEN_2"));
    assert!(!valid_env_name("2_TOKEN"));
    assert!(!valid_env_name("TOKEN-NAME"));
}

#[test]
fn env_file_must_be_relative_and_dot_env_named() {
    assert_eq!(validate_env_file(".env").expect("valid"), ".env");
    assert!(validate_env_file("config/.env.local").is_ok());
    assert!(validate_env_file("../.env").is_err());
    assert!(validate_env_file("/tmp/.env").is_err());
    assert!(validate_env_file("secrets.txt").is_err());
}

#[test]
fn env_file_edge_cases() {
    assert!(validate_env_file("").is_err());
    assert!(validate_env_file("./.env").is_err());
    assert!(validate_env_file("config/../.env").is_err());
    assert!(validate_env_file("config/./.env").is_ok());
    assert!(validate_env_file(".env/").is_ok());
    assert!(validate_env_file(".environment").is_err());
    assert_eq!(validate_env_file("x.env"), Err(SecretRequestError::InvalidSecretFile));
}

#[test]
fn env_upsert_replaces_one_assignment_without_exposing_other_values() {
    assert_eq!(
        upsert_env_contents("OTHER=keep\nexport TOKEN=old\nTOKEN=duplicate\n", "TOKEN", "new"),
        "OTHER=keep\nTOKEN=new\n"
    );
}

#[test]
fn env_upsert_appends_a_missing_variable() {
    assert_eq!(upsert_env_contents("", "TOKEN", "v"), "TOKEN=v\n");
    assert_eq!(upsert_env_contents("A=1", "TOKEN", "v"), "A=1\nTOKEN=v\n");
    assert_eq!(upsert_env_contents("A=1\r\nB=2\r\n", "B", "3"), "A=1\nB=3\n");
}

#[test]
fn env_upsert_is_idempotent() {
    let once = upsert_env_contents("A=1\n  TOKEN = x\nB=2\n", "TOKEN", "y");
    assert_eq!(once, "A=1\nTOKEN=y\nB=2\n");
    assert_eq!(upsert_env_contents(&once, "TOKEN", "y"), once);
    // An assignment of the variable that ends in a carriage return is replaced.
    let crlf = upsert_env_contents("A=1\nTOKEN=x\r", "TOKEN", "y");
    assert_eq!(crlf, "A=1\nTOKEN=y\n");
    assert_eq!(upsert_env_contents(&crlf, "TOKEN", "y"), crlf);
}

#[test]
fn env_upsert_rewrites_another_line_ending_in_a_carriage_return() {
    let once = upsert_env_contents("X\r", "TOKEN", "y");
    assert_eq!(once, "X\r\nTOKEN=y\n");
    assert_eq!(upsert_env_contents(&once, "TOKEN", "y"), "X\nTOKEN=y\n");
}

#[test]
fn env_lines_name_their_variable() {
    assert_eq!(env_line_name("  export API_KEY = 1").as_deref(), Some("API_KEY"));
    assert_eq!(env_line_name("NAME=").as_deref(), Some("NAME"));
    assert_eq!(env_line_name("# comment"), None);
    assert_eq!(env_line_name("a=b=c").as_deref(), Some("a"));
    assert!(env_contains_name("A=1\nexport B=2\n", "B"));
    assert!(!env_contains_name("A=1\nexport B=2\n", "C"));
    assert!(!env_contains_name("", "A"));
}

fn params(name: &str, file: &str, label: Option<&str>) -> SecretRequestParams {
    SecretRequestParams {
        name: name.into(),
        pane_id: "w1:p1".into(),
        file: file.into(),
        label: label.map(str::to_string),
    }
}

#[test]
fn request_checks_come_in_order() {
    assert_eq!(
        prepare_secret_request(&params("2X", "../x", None), None, 0),
        Err(SecretRequestError::InvalidSecretName)
    );
    assert_eq!(
        prepare_secret_request(&params("X", "../x", Some("a\nb")), None, 0),
        Err(SecretRequestError::InvalidSecretLabel)
    );
    let long = "x".repeat(121);
    assert_eq!(
        prepare_secret_request(&params("X", ".env", Some(&long)), Some(0), 1),
        Err(SecretRequestError::InvalidSecretLabel)
    );
    assert_eq!(
        prepare_secret_request(&params("X", "../x", None), None, 0),
        Err(SecretRequestError::PaneNotFound)
    );
    assert_eq!(
        prepare_secret_request(&params("X", "../x", None), Some(0), 0),
        Err(SecretRequestError::InvalidSecretFile)
    );
    assert_eq!(
        prepare_secret_request(&params("X", ".env", None), Some(3), 2),
        Err(SecretRequestError::WorkspaceNotFound)
    );
    let label = "x".repeat(120);
    assert_eq!(
        prepare_secret_request(&params("X", "app/.env.local", Some(&label)), Some(1), 2),
        Ok("app/.env.local".to_string())
    );
}

#[test]
fn clipboard_values_are_checked_after_the_request() {
    let ok = Ok(prepared_secret(".env".into(), "OPENAI_API_KEY=old\n", "OPENAI_API_KEY"));
    assert_eq!(handle_secret_request_value(&ok, "v"), Ok(SecretRequestOutcome::Replaced));
    let fresh = Ok(prepared_secret(".env".into(), "", "OPENAI_API_KEY"));
    assert_eq!(handle_secret_request_value(&fresh, "test-value"), Ok(SecretRequestOutcome::Added));
    assert_eq!(handle_secret_request_value(&fresh, ""), Err(SecretRequestError::ClipboardEmpty));
    assert_eq!(
        handle_secret_request_value(&fresh, "must-not-leak\nsecond-line"),
        Err(SecretRequestError::InvalidClipboardSecret)
    );
    assert_eq!(
        handle_secret_request_value(&fresh, "nul\0"),
        Err(SecretRequestError::InvalidClipboardSecret)
    );
    let refused = Err(SecretRequestError::PaneNotFound);
    assert_eq!(handle_secret_request_value(&refused, ""), Err(SecretRequestError::PaneNotFound));
    assert_eq!(
        handle_deferred_secret_request(None),
        Err(SecretRequestError::ClipboardUnavailable)
    );
    assert_eq!(handle_deferred_secret_request(Some("v".into())), Ok("v".to_string()));
}

#[test]
fn error_codes_and_messages() {
    assert_eq!(SecretRequestError::ClipboardUnavailable.code(), "clipboard_unavailable");
    assert_eq!(SecretRequestError::ClipboardEmpty.code(), "clipboard_empty");
    assert_eq!(SecretRequestError::InvalidClipboardSecret.code(), "invalid_clipboard_secret");
    assert_eq!(SecretRequestError::InvalidSecretName.code(), "invalid_secret_name");
    assert_eq!(SecretRequestError::InvalidSecretLabel.code(), "invalid_secret_label");
    assert_eq!(SecretRequestError::PaneNotFound.code(), "pane_not_found");
    assert_eq!(SecretRequestError::InvalidSecretFile.code(), "invalid_secret_file");
    assert_eq!(
        SecretRequestError::UncontainedSecretFile("x".into()).code(),
        "invalid_secret_file"
    );
    assert_eq!(SecretRequestError::WorkspaceNotFound.code(), "workspace_not_found");
    assert_eq!(
        SecretRequestError::SecretRequestFailed("disk full".into()).code(),
        "secret_request_failed"
    );
    assert_eq!(SecretRequestError::PaneNotFound.message("w1:p9"), "pane w1:p9 not found");
    assert_eq!(
        SecretRequestError::SecretRequestFailed("disk full".into()).message(""),
        "could not update file: disk full"
    );
    assert_eq!(
        SecretRequestError::InvalidSecretName.message(""),
        "variable name must match [A-Za-z_][A-Za-z0-9_]*"
    );
}

#[test]
fn secret_path_rejects_intermediate_symbolic_link() {
    let refusal = path_probe_refusal("/work/root/linked", &PathProbe::SymbolicLink)
        .expect("intermediate symlink must be rejected");
    assert!(refusal.contains("symbolic link"));
    assert_eq!(refusal, "refusing symbolic link in secret file path: /work/root/linked");
}

#[test]
fn path_steps_that_exist_or_are_missing_pass() {
    assert_eq!(path_probe_refusal("/w/.env", &PathProbe::Present), None);
    assert_eq!(path_probe_refusal("/w/.env", &PathProbe::Missing), None);
    assert_eq!(
        path_probe_refusal("/w", &PathProbe::Outside).as_deref(),
        Some("secret file must remain inside the pane workspace")
    );
    assert_eq!(
        path_probe_refusal("/w/a", &PathProbe::Failed("permission denied".into())).as_deref(),
        Some("could not inspect secret file path /w/a: permission denied")
    );
}

#[test]
fn secret_request_adds_value_and_returns_only_metadata() {
    let params = SecretRequestParams {
        name: "OPENAI_API_KEY".into(),
        pane_id: "w1:p1".into(),
        file: ".env".into(),
        label: Some("OpenAI API key".into()),
    };
    let relative = prepare_secret_request(&params, Some(0), 1).expect("checked");
    assert_eq!(relative, ".env");
    let prepared = Ok(prepared_secret(relative, "", &params.name));
    let outcome = handle_secret_request_value(&prepared, "test-value");
    assert_eq!(outcome, Ok(SecretRequestOutcome::Added));
    assert!(!format!("{outcome:?}").contains("test-value"));
    assert_eq!(
        upsert_env_contents("", &params.name, "test-value"),
        "OPENAI_API_KEY=test-value\n"
    );
}

#[test]
fn invalid_clipboard_value_is_rejected_without_exposure() {
    let params = SecretRequestParams {
        name: "TOKEN".into(),
        pane_id: "w1:p1".into(),
        file: ".env".into(),
        label: None,
    };
    let relative = prepare_secret_request(&params, Some(0), 1).expect("checked");
    let prepared = Ok(prepared_secret(relative, "", &params.name));
    let err = handle_secret_request_value(&prepared, "must-not-leak\nsecond-line").unwrap_err();
    assert_eq!(err.code(), "invalid_clipboard_secret");
    assert!(!err.message(&params.pane_id).contains("must-not-leak"));
    assert!(!format!("{err:?}").contains("must-not-leak"));
}

#[test]
fn a_written_variable_reads_back() {
    let updated = upsert_env_contents("A=1\nexport B=2", "C", "x\ry");
    assert!(env_contains_name(&updated, "C"));
    assert!(env_contains_name(&updated, "A"));
    assert!(env_contains_name(&updated, "B"));
    let replaced = upsert_env_contents(&updated, "B", "3");
    assert_eq!(replaced, "A=1\nB=3\nC=x\ry\n");
}

#[test]
fn answers_do_not_depend_on_the_secret() {
    let prepared = Ok(prepared_secret(".env".into(), "TOKEN=1\n", "TOKEN"));
    assert_eq!(
        handle_secret_request_value(&prepared, "first-secret"),
        handle_secret_request_value(&prepared, "another one entirely")
    );
    assert_eq!(
        handle_secret_request_value(&prepared, "a\nb"),
        handle_secret_request_value(&prepared, "\0")
    );
}
