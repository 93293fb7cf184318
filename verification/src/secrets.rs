//! Secret requests: a value read from the clipboard is written into a `.env`
//! file of the pane's workspace. This module decides which requests are
//! refused and with which error, and what the file becomes.
use vstd::prelude::*;
use crate::env_file;
use crate::paths;
use crate::text;

verus! {

/// What a pane asks for: set variable `name` in `file` (relative to the
/// workspace), with an optional label shown to the user.
#[derive(Debug)]
pub struct SecretRequestParams {
    pub name: String,
    pub pane_id: String,
    pub file: String,
    pub label: Option<String>,
}

/// Whether a request set a new variable or replaced an existing assignment.
#[derive(Clone, Copy, Debug, PartialEq, Eq, Structural)]
pub enum SecretRequestOutcome {
    Added,
    Replaced,
}

/// Why a secret request was refused.
#[derive(Debug, PartialEq, Eq)]
pub enum SecretRequestError {
    ClipboardUnavailable,
    ClipboardEmpty,
    InvalidClipboardSecret,
    InvalidSecretName,
    InvalidSecretLabel,
    PaneNotFound,
    InvalidSecretFile,
    /// The target path leaves the workspace or passes through a symbolic
    /// link; the text says where.
    UncontainedSecretFile(String),
    WorkspaceNotFound,
    /// Writing the file failed; the text is the cause.
    SecretRequestFailed(String),
}

impl Clone for SecretRequestError {
    fn clone(&self) -> (r: Self)
        ensures
            r == *self,
    {
        match self {
            SecretRequestError::ClipboardUnavailable => SecretRequestError::ClipboardUnavailable,
            SecretRequestError::ClipboardEmpty => SecretRequestError::ClipboardEmpty,
            SecretRequestError::InvalidClipboardSecret => SecretRequestError::InvalidClipboardSecret,
            SecretRequestError::InvalidSecretName => SecretRequestError::InvalidSecretName,
            SecretRequestError::InvalidSecretLabel => SecretRequestError::InvalidSecretLabel,
            SecretRequestError::PaneNotFound => SecretRequestError::PaneNotFound,
            SecretRequestError::InvalidSecretFile => SecretRequestError::InvalidSecretFile,
            SecretRequestError::UncontainedSecretFile(m) => SecretRequestError::UncontainedSecretFile(
                m.clone(),
            ),
            SecretRequestError::WorkspaceNotFound => SecretRequestError::WorkspaceNotFound,
            SecretRequestError::SecretRequestFailed(m) => SecretRequestError::SecretRequestFailed(
                m.clone(),
            ),
        }
    }
}

impl SecretRequestError {
    /// The error code a client sees.
    pub open spec fn code_spec(self) -> Seq<char> {
        match self {
            SecretRequestError::ClipboardUnavailable => "clipboard_unavailable"@,
            SecretRequestError::ClipboardEmpty => "clipboard_empty"@,
            SecretRequestError::InvalidClipboardSecret => "invalid_clipboard_secret"@,
            SecretRequestError::InvalidSecretName => "invalid_secret_name"@,
            SecretRequestError::InvalidSecretLabel => "invalid_secret_label"@,
            SecretRequestError::PaneNotFound => "pane_not_found"@,
            SecretRequestError::InvalidSecretFile => "invalid_secret_file"@,
            SecretRequestError::UncontainedSecretFile(_) => "invalid_secret_file"@,
            SecretRequestError::WorkspaceNotFound => "workspace_not_found"@,
            SecretRequestError::SecretRequestFailed(_) => "secret_request_failed"@,
        }
    }

    pub fn code(&self) -> (r: &'static str)
        ensures
            r@ == self.code_spec(),
    {
        match self {
            SecretRequestError::ClipboardUnavailable => "clipboard_unavailable",
            SecretRequestError::ClipboardEmpty => "clipboard_empty",
            SecretRequestError::InvalidClipboardSecret => "invalid_clipboard_secret",
            SecretRequestError::InvalidSecretName => "invalid_secret_name",
            SecretRequestError::InvalidSecretLabel => "invalid_secret_label",
            SecretRequestError::PaneNotFound => "pane_not_found",
            SecretRequestError::InvalidSecretFile => "invalid_secret_file",
            SecretRequestError::UncontainedSecretFile(_) => "invalid_secret_file",
            SecretRequestError::WorkspaceNotFound => "workspace_not_found",
            SecretRequestError::SecretRequestFailed(_) => "secret_request_failed",
        }
    }

    /// The message a client sees; `pane_id` names the pane of the request.
    pub open spec fn message_spec(self, pane_id: Seq<char>) -> Seq<char> {
        match self {
            SecretRequestError::ClipboardUnavailable => "could not read text from the clipboard"@,
            SecretRequestError::ClipboardEmpty =>
                "copy a secret value to the clipboard and try again"@,
            SecretRequestError::InvalidClipboardSecret =>
                "clipboard secret must be a single line without NUL characters"@,
            SecretRequestError::InvalidSecretName =>
                "variable name must match [A-Za-z_][A-Za-z0-9_]*"@,
            SecretRequestError::InvalidSecretLabel =>
                "label must be one line and no longer than 120 characters"@,
            SecretRequestError::PaneNotFound => "pane "@ + pane_id + " not found"@,
            SecretRequestError::InvalidSecretFile =>
                "file must be a relative .env or .env.* path within the pane workspace"@,
            SecretRequestError::UncontainedSecretFile(m) => m@,
            SecretRequestError::WorkspaceNotFound => "workspace not found"@,
            SecretRequestError::SecretRequestFailed(cause) => "could not update file: "@ + cause@,
        }
    }

    pub fn message(&self, pane_id: &str) -> (r: String)
        ensures
            r@ == self.message_spec(pane_id@),
    {
        match self {
            SecretRequestError::ClipboardUnavailable => String::from_str(
                "could not read text from the clipboard",
            ),
            SecretRequestError::ClipboardEmpty => String::from_str(
                "copy a secret value to the clipboard and try again",
            ),
            SecretRequestError::InvalidClipboardSecret => String::from_str(
                "clipboard secret must be a single line without NUL characters",
            ),
            SecretRequestError::InvalidSecretName => String::from_str(
                "variable name must match [A-Za-z_][A-Za-z0-9_]*",
            ),
            SecretRequestError::InvalidSecretLabel => String::from_str(
                "label must be one line and no longer than 120 characters",
            ),
            SecretRequestError::PaneNotFound => {
                let mut m = String::from_str("pane ");
                m.append(pane_id);
                m.append(" not found");
                m
            },
            SecretRequestError::InvalidSecretFile => String::from_str(
                "file must be a relative .env or .env.* path within the pane workspace",
            ),
            SecretRequestError::UncontainedSecretFile(m) => m.clone(),
            SecretRequestError::WorkspaceNotFound => String::from_str("workspace not found"),
            SecretRequestError::SecretRequestFailed(cause) => {
                let mut m = String::from_str("could not update file: ");
                m.append(cause.as_str());
                m
            },
        }
    }
}

/// `[A-Za-z_][A-Za-z0-9_]*`: the names a variable may have.
pub open spec fn valid_env_name_spec(s: Seq<char>) -> bool {
    &&& s.len() > 0
    &&& (s[0] == '_' || text::is_ascii_alphabetic(s[0]))
    &&& forall|i: int| 1 <= i < s.len() ==> (#[trigger] s[i] == '_' || text::is_ascii_alphanumeric(s[i]))
}

pub fn valid_env_name(name: &str) -> (r: bool)
    ensures
        r == valid_env_name_spec(name@),
{
    let chars = text::chars_of(name);
    if chars.len() == 0 {
        return false;
    }
    if !(chars[0] == '_' || text::char_is_ascii_alphabetic(chars[0])) {
        return false;
    }
    let mut k: usize = 1;
    while k < chars.len()
        invariant
            1 <= k <= chars.len(),
            chars@ == name@,
            forall|i: int|
                1 <= i < k ==> (#[trigger] chars@[i] == '_' || text::is_ascii_alphanumeric(chars@[i])),
        decreases chars.len() - k,
    {
        if !(chars[k] == '_' || text::char_is_ascii_alphanumeric(chars[k])) {
            return false;
        }
        k = k + 1;
    }
    true
}

/// A carriage return, a newline or a NUL occurs in the text.
pub open spec fn has_line_break_or_nul(s: Seq<char>) -> bool {
    exists|i: int| 0 <= i < s.len() && (#[trigger] s[i] == '\r' || s[i] == '\n' || s[i] == '\0')
}

pub fn contains_line_break_or_nul(s: &str) -> (r: bool)
    ensures
        r == has_line_break_or_nul(s@),
{
    let chars = text::chars_of(s);
    let mut k: usize = 0;
    while k < chars.len()
        invariant
            k <= chars.len(),
            chars@ == s@,
            forall|i: int| 0 <= i < k ==> !(#[trigger] chars@[i] == '\r' || chars@[i] == '\n' || chars@[i] == '\0'),
        decreases chars.len() - k,
    {
        if chars[k] == '\r' || chars[k] == '\n' || chars[k] == '\0' {
            return true;
        }
        k = k + 1;
    }
    false
}

/// A label is one line without NUL and at most 120 characters long.
pub open spec fn valid_label_spec(label: Seq<char>) -> bool {
    !has_line_break_or_nul(label) && label.len() <= 120
}

pub open spec fn env_file_name_prefix() -> Seq<char> {
    seq!['.', 'e', 'n', 'v', '.']
}

/// `.env`, or a name that starts with `.env.`.
pub open spec fn is_env_file_name(n: Seq<char>) -> bool {
    n == seq!['.', 'e', 'n', 'v'] || (n.len() >= 5 && n.take(5) == env_file_name_prefix())
}

/// A relative path of normal components only, whose file name is an env
/// file name.
pub open spec fn valid_env_file_spec(raw: Seq<char>) -> bool {
    &&& paths::all_components_normal(raw)
    &&& paths::file_name(raw) matches Some(n) && is_env_file_name(n)
}

fn env_file_name_chars(n: &Vec<char>) -> (r: bool)
    ensures
        r == is_env_file_name(n@),
{
    let is_env = n.len() == 4 && n[0] == '.' && n[1] == 'e' && n[2] == 'n' && n[3] == 'v';
    assert(is_env ==> n@ =~= seq!['.', 'e', 'n', 'v']);
    let has_prefix = n.len() >= 5 && n[0] == '.' && n[1] == 'e' && n[2] == 'n' && n[3] == 'v'
        && n[4] == '.';
    assert(has_prefix ==> n@.take(5) =~= env_file_name_prefix());
    assert(n@.len() >= 5 && n@.take(5) == env_file_name_prefix() ==> n@.take(5)[0] == n@[0]
        && n@.take(5)[1] == n@[1] && n@.take(5)[2] == n@[2] && n@.take(5)[3] == n@[3] && n@.take(
        5,
    )[4] == n@[4]);
    assert(n@ == seq!['.', 'e', 'n', 'v'] ==> n@.len() == 4 && n@[0] == '.' && n@[1] == 'e'
        && n@[2] == 'n' && n@[3] == 'v');
    is_env || has_prefix
}

/// The relative env file a request names, or `InvalidSecretFile`.
pub fn validate_env_file(raw: &str) -> (r: Result<String, SecretRequestError>)
    ensures
        valid_env_file_spec(raw@) <==> r is Ok,
        r matches Ok(p) ==> p@ == raw@,
        r matches Err(e) ==> e == SecretRequestError::InvalidSecretFile,
{
    let chars = text::chars_of(raw);
    let components_ok = paths::components_all_normal(&chars);
    let name_ok = match paths::file_name_chars(&chars) {
        Some(n) => env_file_name_chars(&n),
        None => false,
    };
    if !components_ok || !name_ok {
        return Err(SecretRequestError::InvalidSecretFile);
    }
    Ok(String::from_str(raw))
}

/// The outcome of the checks that come before the clipboard value is
/// looked at, in the order they are made.
pub open spec fn prepare_spec(
    name: Seq<char>,
    label: Option<Seq<char>>,
    file: Seq<char>,
    pane_workspace: Option<usize>,
    workspace_count: usize,
) -> Result<Seq<char>, SecretRequestError> {
    if !valid_env_name_spec(name) {
        Err(SecretRequestError::InvalidSecretName)
    } else if label matches Some(l) && !valid_label_spec(l) {
        Err(SecretRequestError::InvalidSecretLabel)
    } else if pane_workspace is None {
        Err(SecretRequestError::PaneNotFound)
    } else if !valid_env_file_spec(file) {
        Err(SecretRequestError::InvalidSecretFile)
    } else if pane_workspace->0 >= workspace_count {
        Err(SecretRequestError::WorkspaceNotFound)
    } else {
        Ok(file)
    }
}

/// Checks a request before anything is read from disk: the variable name,
/// the label, the pane (`pane_workspace` is the workspace index its id names,
/// if any), the file, and the workspace. Gives the relative file path.
pub fn prepare_secret_request(
    params: &SecretRequestParams,
    pane_workspace: Option<usize>,
    workspace_count: usize,
) -> (r: Result<String, SecretRequestError>)
    ensures
        match (r, prepare_spec(
            params.name@,
            text::opt_view(params.label),
            params.file@,
            pane_workspace,
            workspace_count,
        )) {
            (Ok(p), Ok(q)) => p@ == q,
            (Err(e), Err(f)) => e == f,
            _ => false,
        },
{
    if !valid_env_name(params.name.as_str()) {
        return Err(SecretRequestError::InvalidSecretName);
    }
    match &params.label {
        Some(label) => {
            if contains_line_break_or_nul(label.as_str()) || text::chars_of(label.as_str()).len()
                > 120 {
                return Err(SecretRequestError::InvalidSecretLabel);
            }
        },
        None => {},
    }
    let ws = match pane_workspace {
        Some(ws) => ws,
        None => {
            return Err(SecretRequestError::PaneNotFound);
        },
    };
    let relative = validate_env_file(params.file.as_str());
    match relative {
        Err(e) => Err(e),
        Ok(relative) => {
            if ws >= workspace_count {
                Err(SecretRequestError::WorkspaceNotFound)
            } else {
                Ok(relative)
            }
        },
    }
}

/// What checking one step of the secret file's path found: the path is not
/// under the workspace root at all, or the entry at the step is a symbolic
/// link, exists, is missing, or could not be inspected (with the cause).
pub enum PathProbe {
    Outside,
    SymbolicLink,
    Present,
    Missing,
    Failed(String),
}

/// The refusal a step of the path gives, if any: only entries that exist and
/// are not links, or that do not exist yet, let the walk along the path go on.
pub open spec fn path_probe_refusal_spec(candidate: Seq<char>, probe: PathProbe) -> Option<Seq<char>> {
    match probe {
        PathProbe::Outside => Some("secret file must remain inside the pane workspace"@),
        PathProbe::SymbolicLink => Some("refusing symbolic link in secret file path: "@ + candidate),
        PathProbe::Present => None,
        PathProbe::Missing => None,
        PathProbe::Failed(cause) => Some(
            "could not inspect secret file path "@ + candidate + ": "@ + cause@,
        ),
    }
}

/// Checks one step of the secret file's path, `candidate` being the path up
/// to and including that step.
pub fn path_probe_refusal(candidate: &str, probe: &PathProbe) -> (r: Option<String>)
    ensures
        match r {
            Some(m) => path_probe_refusal_spec(candidate@, *probe) == Some(m@),
            None => path_probe_refusal_spec(candidate@, *probe) is None,
        },
{
    match probe {
        PathProbe::Outside => Some(
            String::from_str("secret file must remain inside the pane workspace"),
        ),
        PathProbe::SymbolicLink => {
            let mut m = String::from_str("refusing symbolic link in secret file path: ");
            m.append(candidate);
            Some(m)
        },
        PathProbe::Present => None,
        PathProbe::Missing => None,
        PathProbe::Failed(cause) => {
            let mut m = String::from_str("could not inspect secret file path ");
            m.append(candidate);
            m.append(": ");
            m.append(cause.as_str());
            Some(m)
        },
    }
}

/// A request that passed its checks: the relative file and whether the file
/// already assigns the variable.
#[derive(Debug)]
pub struct PreparedSecret {
    pub relative: String,
    pub replaces_existing: bool,
}

/// Completes a checked request from the file's current contents (empty where
/// it does not exist yet).
pub fn prepared_secret(relative: String, existing: &str, name: &str) -> (r: PreparedSecret)
    ensures
        r.relative == relative,
        r.replaces_existing == env_file::env_contains_name_spec(existing@, name@),
{
    let replaces_existing = env_file::env_contains_name(existing, name);
    PreparedSecret { relative, replaces_existing }
}

/// The clipboard text, or `ClipboardUnavailable` where none could be read.
pub fn handle_deferred_secret_request(clipboard: Option<String>) -> (r: Result<
    String,
    SecretRequestError,
>)
    ensures
        clipboard is None ==> r == Err::<String, _>(SecretRequestError::ClipboardUnavailable),
        clipboard matches Some(v) ==> r == Ok::<_, SecretRequestError>(v),
{
    match clipboard {
        Some(v) => Ok(v),
        None => Err(SecretRequestError::ClipboardUnavailable),
    }
}

/// The answer to a request once the clipboard value is known: the earlier
/// refusal if any, then `ClipboardEmpty`, then `InvalidClipboardSecret` for a
/// value with a line break or NUL; otherwise whether the write adds or
/// replaces the variable.
pub open spec fn secret_answer(
    prepared: Result<PreparedSecret, SecretRequestError>,
    value: Seq<char>,
) -> Result<SecretRequestOutcome, SecretRequestError> {
    match prepared {
        Err(e) => Err(e),
        Ok(p) => if value.len() == 0 {
            Err(SecretRequestError::ClipboardEmpty)
        } else if has_line_break_or_nul(value) {
            Err(SecretRequestError::InvalidClipboardSecret)
        } else if p.replaces_existing {
            Ok(SecretRequestOutcome::Replaced)
        } else {
            Ok(SecretRequestOutcome::Added)
        },
    }
}

pub fn handle_secret_request_value(
    prepared: &Result<PreparedSecret, SecretRequestError>,
    value: &str,
) -> (r: Result<SecretRequestOutcome, SecretRequestError>)
    ensures
        r == secret_answer(*prepared, value@),
{
    match prepared {
        Err(e) => Err(e.clone()),
        Ok(p) => {
            if value.unicode_len() == 0 {
                Err(SecretRequestError::ClipboardEmpty)
            } else if contains_line_break_or_nul(value) {
                Err(SecretRequestError::InvalidClipboardSecret)
            } else if p.replaces_existing {
                Ok(SecretRequestOutcome::Replaced)
            } else {
                Ok(SecretRequestOutcome::Added)
            }
        },
    }
}

/// The answer never reveals the secret: any two values that are accepted get
/// the same answer, and so do any two that are refused for a line break.
pub proof fn lemma_answer_hides_value(
    prepared: Result<PreparedSecret, SecretRequestError>,
    first: Seq<char>,
    second: Seq<char>,
)
    requires
        first.len() > 0,
        second.len() > 0,
        has_line_break_or_nul(first) == has_line_break_or_nul(second),
    ensures
        secret_answer(prepared, first) == secret_answer(prepared, second),
{
}

} // verus!
