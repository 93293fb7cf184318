//! Renaming the Codex thread of the calling pane: which requests are
//! refused, and the slash command typed into Codex otherwise.
use vstd::prelude::*;
use crate::text;

verus! {

/// A request to rename the Codex thread running in the calling pane.
#[derive(Debug)]
pub struct CodexThreadRenameCurrentParams {
    pub caller_pane_id: String,
    pub name: String,
}

/// Where the terminal's cursor is and whether it shows.
#[derive(Clone, Copy, Debug, PartialEq, Eq, Structural)]
pub struct CursorState {
    pub visible: bool,
    pub x: u16,
}

/// What the application found for the calling pane, lookup by lookup: the
/// pane, its terminal, the agent detected in it, its runtime and the
/// runtime's cursor. A later lookup only counts where the earlier succeeded.
#[derive(Debug)]
pub struct CallerPane {
    pub pane_found: bool,
    pub has_terminal: bool,
    pub agent_label: Option<String>,
    pub has_runtime: bool,
    pub cursor: Option<CursorState>,
}

/// Why a rename was refused.
#[derive(Debug, PartialEq, Eq)]
pub enum RenameError {
    EmptyName,
    ControlCharacters,
    CallerPaneNotFound,
    CallerPaneHasNoTerminal,
    NotACodexThread,
    CallerPaneHasNoRuntime,
    CodexInputNotEmpty,
    /// Typing the command into the pane failed; the text is the cause.
    SubmitFailed(String),
}

impl RenameError {
    pub open spec fn code_spec(self) -> Seq<char> {
        match self {
            RenameError::EmptyName => "invalid_name"@,
            RenameError::ControlCharacters => "invalid_name"@,
            RenameError::CallerPaneNotFound => "caller_pane_not_found"@,
            RenameError::CallerPaneHasNoTerminal => "caller_pane_not_found"@,
            RenameError::NotACodexThread => "not_a_codex_thread"@,
            RenameError::CallerPaneHasNoRuntime => "caller_pane_not_found"@,
            RenameError::CodexInputNotEmpty => "codex_input_not_empty"@,
            RenameError::SubmitFailed(_) => "codex_thread_rename_failed"@,
        }
    }

    /// The error code a client sees.
    pub fn code(&self) -> (r: &'static str)
        ensures
            r@ == self.code_spec(),
    {
        match self {
            RenameError::EmptyName => "invalid_name",
            RenameError::ControlCharacters => "invalid_name",
            RenameError::CallerPaneNotFound => "caller_pane_not_found",
            RenameError::CallerPaneHasNoTerminal => "caller_pane_not_found",
            RenameError::NotACodexThread => "not_a_codex_thread",
            RenameError::CallerPaneHasNoRuntime => "caller_pane_not_found",
            RenameError::CodexInputNotEmpty => "codex_input_not_empty",
            RenameError::SubmitFailed(_) => "codex_thread_rename_failed",
        }
    }

    pub open spec fn message_spec(self) -> Seq<char> {
        match self {
            RenameError::EmptyName => "Codex thread name must not be empty"@,
            RenameError::ControlCharacters =>
                "Codex thread name must not contain control characters"@,
            RenameError::CallerPaneNotFound => "the calling Herdr pane is no longer available"@,
            RenameError::CallerPaneHasNoTerminal => "the calling Herdr pane has no terminal"@,
            RenameError::NotACodexThread => "the calling pane is not running Codex"@,
            RenameError::CallerPaneHasNoRuntime =>
                "the calling Herdr pane has no terminal runtime"@,
            RenameError::CodexInputNotEmpty =>
                "the Codex input is not empty; thread rename was skipped"@,
            RenameError::SubmitFailed(cause) => "failed to submit rename command: "@ + cause@,
        }
    }

    /// The message a client sees.
    pub fn message(&self) -> (r: String)
        ensures
            r@ == self.message_spec(),
    {
        match self {
            RenameError::EmptyName => String::from_str("Codex thread name must not be empty"),
            RenameError::ControlCharacters => String::from_str(
                "Codex thread name must not contain control characters",
            ),
            RenameError::CallerPaneNotFound => String::from_str(
                "the calling Herdr pane is no longer available",
            ),
            RenameError::CallerPaneHasNoTerminal => String::from_str(
                "the calling Herdr pane has no terminal",
            ),
            RenameError::NotACodexThread => String::from_str("the calling pane is not running Codex"),
            RenameError::CallerPaneHasNoRuntime => String::from_str(
                "the calling Herdr pane has no terminal runtime",
            ),
            RenameError::CodexInputNotEmpty => String::from_str(
                "the Codex input is not empty; thread rename was skipped",
            ),
            RenameError::SubmitFailed(cause) => {
                let mut m = String::from_str("failed to submit rename command: ");
                m.append(cause.as_str());
                m
            },
        }
    }
}

/// Codex's input line is empty when the cursor shows right after its
/// two-column prompt.
pub open spec fn composer_is_empty_spec(cursor: Option<CursorState>) -> bool {
    cursor matches Some(c) && c.visible && c.x == 2
}

pub fn codex_composer_is_empty(cursor: Option<CursorState>) -> (r: bool)
    ensures
        r == composer_is_empty_spec(cursor),
{
    match cursor {
        Some(c) => c.visible && c.x == 2,
        None => false,
    }
}

pub open spec fn has_control(s: Seq<char>) -> bool {
    exists|i: int| 0 <= i < s.len() && text::is_control(#[trigger] s[i])
}

pub open spec fn rename_prefix() -> Seq<char> {
    "/rename "@
}

/// The outcome of a rename request, checks in order: the trimmed name must
/// not be empty nor hold control characters, then the pane, its terminal, a
/// Codex agent, its runtime, and an empty Codex input.
pub open spec fn rename_spec(name: Seq<char>, caller: CallerPane) -> Result<Seq<char>, RenameError> {
    let n = text::trim(name);
    if n.len() == 0 {
        Err(RenameError::EmptyName)
    } else if has_control(n) {
        Err(RenameError::ControlCharacters)
    } else if !caller.pane_found {
        Err(RenameError::CallerPaneNotFound)
    } else if !caller.has_terminal {
        Err(RenameError::CallerPaneHasNoTerminal)
    } else if !(caller.agent_label matches Some(l) && l@ == "codex"@) {
        Err(RenameError::NotACodexThread)
    } else if !caller.has_runtime {
        Err(RenameError::CallerPaneHasNoRuntime)
    } else if !composer_is_empty_spec(caller.cursor) {
        Err(RenameError::CodexInputNotEmpty)
    } else {
        Ok(n)
    }
}

/// A rename that is accepted types a single line: neither the name nor the
/// command holds a control character, so nothing else can be submitted with
/// it, and the name is not empty.
pub proof fn lemma_rename_command_is_one_line(name: Seq<char>, caller: CallerPane)
    requires
        rename_spec(name, caller) is Ok,
    ensures
        ({
            let n = rename_spec(name, caller)->Ok_0;
            &&& n.len() > 0
            &&& !has_control(n)
            &&& !has_control(rename_prefix() + n)
        }),
{
    let n = rename_spec(name, caller)->Ok_0;
    reveal_strlit("/rename ");
    let c = rename_prefix() + n;
    assert forall|i: int| 0 <= i < c.len() implies !text::is_control(#[trigger] c[i]) by {
        if i >= 8 {
            assert(c[i] == n[i - 8]);
        }
    }
}

/// An accepted rename: the thread's new name and the command that sets it.
#[derive(Debug)]
pub struct RenameCommand {
    pub name: String,
    pub command: String,
}

/// Decides a rename request; on success gives the trimmed name and the
/// `/rename <name>` command to type into Codex.
pub fn handle_codex_thread_rename_current(
    params: &CodexThreadRenameCurrentParams,
    caller: &CallerPane,
) -> (r: Result<RenameCommand, RenameError>)
    ensures
        match (r, rename_spec(params.name@, *caller)) {
            (Ok(c), Ok(n)) => c.name@ == n && c.command@ == rename_prefix() + n,
            (Err(e), Err(f)) => e == f,
            _ => false,
        },
{
    let name = text::trim_chars(&text::chars_of(params.name.as_str()));
    if name.len() == 0 {
        return Err(RenameError::EmptyName);
    }
    let mut k: usize = 0;
    while k < name.len()
        invariant
            k <= name.len(),
            name@ == text::trim(params.name@),
            forall|i: int| 0 <= i < k ==> !text::is_control(#[trigger] name@[i]),
        decreases name.len() - k,
    {
        if text::char_is_control(name[k]) {
            assert(text::is_control(name@[k as int]));
            return Err(RenameError::ControlCharacters);
        }
        k = k + 1;
    }
    if !caller.pane_found {
        return Err(RenameError::CallerPaneNotFound);
    }
    if !caller.has_terminal {
        return Err(RenameError::CallerPaneHasNoTerminal);
    }
    let is_codex = match &caller.agent_label {
        Some(label) => text::str_equal(label.as_str(), "codex"),
        None => false,
    };
    if !is_codex {
        return Err(RenameError::NotACodexThread);
    }
    if !caller.has_runtime {
        return Err(RenameError::CallerPaneHasNoRuntime);
    }
    if !codex_composer_is_empty(caller.cursor) {
        return Err(RenameError::CodexInputNotEmpty);
    }
    let mut command = String::from_str("/rename ");
    let name = text::string_from_chars(name.as_slice());
    command.append(name.as_str());
    Ok(RenameCommand { name, command })
}

/// The answer once the command was typed into the pane: the accepted rename,
/// or `SubmitFailed` with the cause where typing it failed.
pub fn rename_submitted(command: RenameCommand, submitted: Result<(), String>) -> (r: Result<
    RenameCommand,
    RenameError,
>)
    ensures
        match submitted {
            Ok(()) => r == Ok::<_, RenameError>(command),
            Err(cause) => r == Err::<RenameCommand, _>(RenameError::SubmitFailed(cause)),
        },
{
    match submitted {
        Ok(()) => Ok(command),
        Err(cause) => Err(RenameError::SubmitFailed(cause)),
    }
}

} // verus!
