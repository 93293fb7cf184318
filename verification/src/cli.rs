//! The `herdr codex` and `herdr secret` command lines: which subcommand
//! runs, and the arguments each takes.
use vstd::prelude::*;
use crate::codex::CodexThreadRenameCurrentParams;
use crate::secrets::SecretRequestParams;
use crate::text;

verus! {

/// What a command line asks for: run its subcommand, or print the help and
/// exit with 0 (help asked for) or 2 (not understood).
#[derive(Clone, Copy, Debug, PartialEq, Eq, Structural)]
pub enum CliDispatch {
    Run,
    Help,
    Usage,
}

impl CliDispatch {
    /// The exit status after printing the help.
    pub fn exit_code(&self) -> (r: i32)
        ensures
            r == if *self == CliDispatch::Help {
                0i32
            } else {
                2i32
            },
    {
        match self {
            CliDispatch::Help => 0,
            _ => 2,
        }
    }
}

pub open spec fn is_help(s: Seq<char>) -> bool {
    s == "help"@ || s == "--help"@ || s == "-h"@
}

fn arg_is_help(s: &str) -> (r: bool)
    ensures
        r == is_help(s@),
{
    text::str_equal(s, "help") || text::str_equal(s, "--help") || text::str_equal(s, "-h")
}

pub open spec fn dispatch_spec(args: Seq<String>, subcommand: Seq<char>) -> CliDispatch {
    if args.len() > 0 && args[0]@ == subcommand {
        CliDispatch::Run
    } else if args.len() > 0 && is_help(args[0]@) {
        CliDispatch::Help
    } else {
        CliDispatch::Usage
    }
}

fn dispatch(args: &Vec<String>, subcommand: &str) -> (r: CliDispatch)
    ensures
        r == dispatch_spec(args@, subcommand@),
{
    if args.len() > 0 && text::str_equal(args[0].as_str(), subcommand) {
        CliDispatch::Run
    } else if args.len() > 0 && arg_is_help(args[0].as_str()) {
        CliDispatch::Help
    } else {
        CliDispatch::Usage
    }
}

/// `herdr codex`: `rename-thread` runs with the remaining arguments.
pub fn run_codex_command(args: &Vec<String>) -> (r: CliDispatch)
    ensures
        r == dispatch_spec(args@, "rename-thread"@),
{
    dispatch(args, "rename-thread")
}

/// `herdr secret`: `request` runs with the remaining arguments.
pub fn run_secret_command(args: &Vec<String>) -> (r: CliDispatch)
    ensures
        r == dispatch_spec(args@, "request"@),
{
    dispatch(args, "request")
}

/// Why `herdr codex rename-thread` was refused: bad arguments exit with 2,
/// a command run outside a Herdr pane with 1.
#[derive(Clone, Copy, Debug, PartialEq, Eq, Structural)]
pub enum RenameThreadArgsError {
    Usage,
    EmptyName,
    PaneUnavailable,
}

impl RenameThreadArgsError {
    pub open spec fn message_spec(self) -> Seq<char> {
        match self {
            RenameThreadArgsError::Usage => "usage: herdr codex rename-thread --current <name>"@,
            RenameThreadArgsError::EmptyName => "Codex thread name must not be empty"@,
            RenameThreadArgsError::PaneUnavailable =>
                "current Herdr pane is unavailable; run this command from a Herdr pane"@,
        }
    }

    /// The exit status after printing the message.
    pub fn exit_code(&self) -> (r: i32)
        ensures
            r == if *self == RenameThreadArgsError::PaneUnavailable {
                1i32
            } else {
                2i32
            },
    {
        match self {
            RenameThreadArgsError::PaneUnavailable => 1,
            _ => 2,
        }
    }

    pub fn message(&self) -> (r: &'static str)
        ensures
            r@ == self.message_spec(),
    {
        match self {
            RenameThreadArgsError::Usage => "usage: herdr codex rename-thread --current <name>",
            RenameThreadArgsError::EmptyName => "Codex thread name must not be empty",
            RenameThreadArgsError::PaneUnavailable =>
                "current Herdr pane is unavailable; run this command from a Herdr pane",
        }
    }
}

pub open spec fn arg_views(args: Seq<String>) -> Seq<Seq<char>> {
    args.map_values(|a: String| a@)
}

/// `--current <name...>`: the words after `--current`, joined by spaces,
/// are the name, which must not be blank.
pub open spec fn rename_thread_args_spec(args: Seq<String>) -> Result<
    Seq<char>,
    RenameThreadArgsError,
> {
    if !(args.len() >= 2 && args[0]@ == "--current"@) {
        Err(RenameThreadArgsError::Usage)
    } else {
        let name = text::join_with(arg_views(args).skip(1), ' ');
        if text::trim(name).len() == 0 {
            Err(RenameThreadArgsError::EmptyName)
        } else {
            Ok(name)
        }
    }
}

/// The new thread name that `herdr codex rename-thread` arguments give.
#[verifier::rlimit(30)]
pub fn rename_thread_name(args: &Vec<String>) -> (r: Result<String, RenameThreadArgsError>)
    ensures
        match (r, rename_thread_args_spec(args@)) {
            (Ok(n), Ok(m)) => n@ == m,
            (Err(e), Err(f)) => e == f,
            _ => false,
        },
{
    if !(args.len() >= 2 && text::str_equal(args[0].as_str(), "--current")) {
        return Err(RenameThreadArgsError::Usage);
    }
    let mut words: Vec<Vec<char>> = Vec::new();
    let mut k: usize = 1;
    assert(arg_views(args@).skip(1).take(0) =~= text::views(words@));
    while k < args.len()
        invariant
            1 <= k <= args.len(),
            text::views(words@) =~= arg_views(args@).skip(1).take(k - 1),
        decreases args.len() - k,
    {
        let ghost before = words@;
        let w = text::chars_of(args[k].as_str());
        words.push(w);
        assert(text::views(words@) =~= text::views(before).push(w@));
        assert(arg_views(args@).skip(1).take(k as int) =~= arg_views(args@).skip(1).take(k - 1).push(
            args@[k as int]@,
        ));
        k = k + 1;
    }
    assert(arg_views(args@).skip(1).take(args.len() - 1) =~= arg_views(args@).skip(1));
    let name = text::join_with_chars(&words, ' ');
    if text::trim_chars(&name).len() == 0 {
        return Err(RenameThreadArgsError::EmptyName);
    }
    Ok(text::string_from_chars(name.as_slice()))
}

/// The rename request that `herdr codex rename-thread` arguments give, run
/// in the pane `pane_id` (the `HERDR_PANE_ID` variable, where it is set):
/// the arguments are checked first, then that the pane id is not blank.
pub open spec fn rename_request_spec(args: Seq<String>, pane_id: Option<Seq<char>>) -> Result<
    (Seq<char>, Seq<char>),
    RenameThreadArgsError,
> {
    match rename_thread_args_spec(args) {
        Err(e) => Err(e),
        Ok(name) => match pane_id {
            Some(p) => if text::trim(p).len() > 0 {
                Ok((p, name))
            } else {
                Err(RenameThreadArgsError::PaneUnavailable)
            },
            None => Err(RenameThreadArgsError::PaneUnavailable),
        },
    }
}

/// The API parameters of a `herdr codex rename-thread` command.
pub fn rename_thread_request(args: &Vec<String>, pane_id: Option<String>) -> (r: Result<
    CodexThreadRenameCurrentParams,
    RenameThreadArgsError,
>)
    ensures
        match (r, rename_request_spec(args@, text::opt_view(pane_id))) {
            (Ok(p), Ok((pane, name))) => p.caller_pane_id@ == pane && p.name@ == name,
            (Err(e), Err(f)) => e == f,
            _ => false,
        },
{
    let name = match rename_thread_name(args) {
        Ok(name) => name,
        Err(e) => {
            return Err(e);
        },
    };
    match pane_id {
        Some(pane) => {
            let pane_chars = text::chars_of(pane.as_str());
            if text::trim_chars(&pane_chars).len() > 0 {
                Ok(CodexThreadRenameCurrentParams { caller_pane_id: pane, name })
            } else {
                Err(RenameThreadArgsError::PaneUnavailable)
            }
        },
        None => Err(RenameThreadArgsError::PaneUnavailable),
    }
}

/// The options after the variable name, from `i` on: `--file` and `--label`
/// each take the next argument; the last of each wins.
pub open spec fn request_options_spec(
    args: Seq<Seq<char>>,
    i: int,
    file: Seq<char>,
    label: Option<Seq<char>>,
) -> Result<(Seq<char>, Option<Seq<char>>), Seq<char>>
    decreases args.len() - i,
{
    if i >= args.len() {
        Ok((file, label))
    } else if i + 1 >= args.len() {
        Err("missing value for "@ + args[i])
    } else if args[i] == "--file"@ {
        request_options_spec(args, i + 2, args[i + 1], label)
    } else if args[i] == "--label"@ {
        request_options_spec(args, i + 2, file, Some(args[i + 1]))
    } else {
        Err("unknown option: "@ + args[i])
    }
}

/// `<VARIABLE_NAME> [--file .env] [--label TEXT]`: the first argument is the
/// variable (not a help flag); `pane_id` is the calling pane, where the
/// command runs inside one; the file defaults to `.env`.
pub open spec fn request_args_spec(args: Seq<String>, pane_id: Option<Seq<char>>) -> Result<
    (Seq<char>, Seq<char>, Seq<char>, Option<Seq<char>>),
    Seq<char>,
> {
    if args.len() == 0 || is_help(args[0]@) {
        Err("missing secret variable name"@)
    } else if pane_id is None {
        Err("secret requests must run inside a Herdr pane"@)
    } else {
        match request_options_spec(arg_views(args), 1, ".env"@, None) {
            Ok((file, label)) => Ok((args[0]@, pane_id->0, file, label)),
            Err(m) => Err(m),
        }
    }
}

/// The secret request that `herdr secret request` arguments describe, or the
/// message to print.
#[verifier::rlimit(30)]
pub fn parse_request_args(args: &Vec<String>, pane_id: Option<String>) -> (r: Result<
    SecretRequestParams,
    String,
>)
    ensures
        match (r, request_args_spec(args@, text::opt_view(pane_id))) {
            (Ok(p), Ok((name, pane, file, label))) => p.name@ == name && p.pane_id@ == pane
                && p.file@ == file && text::opt_view(p.label) == label,
            (Err(m), Err(n)) => m@ == n,
            _ => false,
        },
{
    if args.len() == 0 || arg_is_help(args[0].as_str()) {
        return Err(String::from_str("missing secret variable name"));
    }
    let name = args[0].clone();
    let ghost pane_view = text::opt_view(pane_id);
    let pane = match pane_id {
        Some(p) => p,
        None => {
            return Err(String::from_str("secret requests must run inside a Herdr pane"));
        },
    };
    let ghost av = arg_views(args@);
    let mut file = String::from_str(".env");
    let mut label: Option<String> = None;
    let mut index: usize = 1;
    while index < args.len()
        invariant
            1 <= index,
            av == arg_views(args@),
            args.len() > 0,
            !is_help(args@[0]@),
            pane_view is Some,
            pane_view == text::opt_view(pane_id),
            request_options_spec(av, 1, ".env"@, None) == request_options_spec(
                av,
                index as int,
                file@,
                text::opt_view(label),
            ),
        decreases args.len() - index,
    {
        let option = &args[index];
        assert(av[index as int] == option@);
        if index + 1 >= args.len() {
            let mut m = String::from_str("missing value for ");
            m.append(option.as_str());
            return Err(m);
        }
        let value = &args[index + 1];
        assert(av[index + 1] == value@);
        if text::str_equal(option.as_str(), "--file") {
            file = value.clone();
        } else if text::str_equal(option.as_str(), "--label") {
            label = Some(value.clone());
        } else {
            let mut m = String::from_str("unknown option: ");
            m.append(option.as_str());
            return Err(m);
        }
        index = index + 2;
    }
    Ok(SecretRequestParams { name, pane_id: pane, file, label })
}

} // verus!
