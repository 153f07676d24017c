//! The command-line interface's own rules: exit codes, error text, and the
//! labels of its plain-text output.
use vstd::prelude::*;

use crate::error::{ErrorSpec, MiniChainError, error_message};
use crate::text::push_str;

verus! {

/// A failure reported by the command line: the process's exit code, a
/// message, and optionally the underlying reason.
#[derive(Debug)]
pub struct CliError {
    pub exit_code: i32,
    pub message: String,
    pub reason: Option<String>,
}

/// The exit code for an error of the library: 3 for invalid data or
/// configuration, 4 for an unavailable service, 5 for a failed sync, and 1
/// otherwise.
pub open spec fn exit_code_of(e: ErrorSpec) -> i32 {
    match e {
        ErrorSpec::InvalidBlockHash { .. }
        | ErrorSpec::InvalidBlockIndex { .. }
        | ErrorSpec::InvalidPreviousHash { .. }
        | ErrorSpec::InvalidGenesis
        | ErrorSpec::InvalidTransactionHash { .. }
        | ErrorSpec::InvalidMerkleRoot { .. }
        | ErrorSpec::InvalidSignature
        | ErrorSpec::InvalidConfiguration
        | ErrorSpec::SnapshotInvalid { .. }
        | ErrorSpec::SnapshotIncompatible => 3,
        ErrorSpec::StorageUnavailable | ErrorSpec::PeerUnavailable { .. } | ErrorSpec::NetworkTimeout => 4,
        ErrorSpec::SyncFailed | ErrorSpec::DivergenceDetected { .. } => 5,
        _ => 1,
    }
}

impl CliError {
    /// A failure with `exit_code` and `message`, and no reason.
    pub fn new(exit_code: i32, message: &str) -> (e: Self)
        ensures
            e.exit_code == exit_code,
            e.message@ == message@,
            e.reason is None,
    {
        CliError { exit_code, message: message.to_owned(), reason: None }
    }

    /// This failure with `reason`.
    pub fn reason(self, reason: &str) -> (e: Self)
        ensures
            e.exit_code == self.exit_code,
            e.message == self.message,
            e.reason matches Some(r) && r@ == reason@,
    {
        CliError { reason: Some(reason.to_owned()), ..self }
    }

    /// Invalid input (exit code 3).
    pub fn validation(message: &str) -> (e: Self)
        ensures
            e.exit_code == 3,
            e.message@ == message@,
            e.reason is None,
    {
        Self::new(3, message)
    }

    /// An unavailable service (exit code 4).
    pub fn unavailable(message: &str) -> (e: Self)
        ensures
            e.exit_code == 4,
            e.message@ == message@,
            e.reason is None,
    {
        Self::new(4, message)
    }

    /// A failed synchronization (exit code 5).
    pub fn synchronization(message: &str) -> (e: Self)
        ensures
            e.exit_code == 5,
            e.message@ == message@,
            e.reason is None,
    {
        Self::new(5, message)
    }

    /// The command-line failure for an error of the library: its exit code
    /// and its message.
    pub fn from_error(error: MiniChainError) -> (e: Self)
        ensures
            e.exit_code == exit_code_of(error@),
            e.message@ == error_message(error@),
            e.reason is None,
    {
        let exit_code: i32 = match error {
            MiniChainError::InvalidBlockHash { .. }
            | MiniChainError::InvalidBlockIndex { .. }
            | MiniChainError::InvalidPreviousHash { .. }
            | MiniChainError::InvalidGenesis
            | MiniChainError::InvalidTransactionHash { .. }
            | MiniChainError::InvalidMerkleRoot { .. }
            | MiniChainError::InvalidSignature
            | MiniChainError::InvalidConfiguration
            | MiniChainError::SnapshotInvalid { .. }
            | MiniChainError::SnapshotIncompatible => 3,
            MiniChainError::StorageUnavailable
            | MiniChainError::PeerUnavailable { .. }
            | MiniChainError::NetworkTimeout => 4,
            MiniChainError::SyncFailed | MiniChainError::DivergenceDetected { .. } => 5,
            _ => 1,
        };
        CliError { exit_code, message: error.message(), reason: None }
    }

    /// The text of this failure: `Error: ` and the message, then the reason
    /// after a blank line and a `Reason:` line, if there is one.
    pub fn render(&self) -> (text: String)
        ensures
            text@ == "Error: "@ + self.message@ + match self.reason {
                Some(r) => "\n\nReason:\n"@ + r@,
                None => Seq::<char>::empty(),
            },
    {
        let mut text = String::new();
        push_str(&mut text, "Error: ");
        push_str(&mut text, self.message.as_str());
        match &self.reason {
            Some(reason) => {
                push_str(&mut text, "\n\nReason:\n");
                push_str(&mut text, reason.as_str());
                assert(text@ =~= "Error: "@ + self.message@ + ("\n\nReason:\n"@ + reason@));
            },
            None => {
                assert(text@ =~= "Error: "@ + self.message@ + Seq::<char>::empty());
            },
        }
        text
    }
}

/// How the command line was started: the configuration file and whether
/// output is JSON.
#[derive(Clone, Debug)]
pub struct CliContext {
    pub config_path: String,
    pub json: bool,
}

/// The uppercase form of a character, as `char::to_uppercase` gives it.
pub uninterp spec fn uppercase_of(c: char) -> Seq<char>;

/// The uppercase mapping of `c` (`char::to_uppercase`, collected). It yields
/// at least one character; an ASCII lowercase letter becomes its capital,
/// and another ASCII character has no uppercase mapping and stays itself.
#[verifier::external_body]
fn uppercase(c: char) -> (s: String)
    ensures
        s@ == uppercase_of(c),
        s@.len() >= 1,
        'a' <= c <= 'z' ==> s@ == seq![((c as u32) - 32) as char],
        (c as u32) < 128 && !('a' <= c <= 'z') ==> s@ == seq![c],
{
    c.to_uppercase().collect::<String>()
}

/// The label form of a text: its first character in uppercase, the rest unchanged.
pub open spec fn title_case_of(value: Seq<char>) -> Seq<char> {
    if value.len() == 0 {
        Seq::empty()
    } else {
        uppercase_of(value[0]) + value.drop_first()
    }
}

/// `value` with its first character in uppercase.
pub fn title_case(value: &str) -> (text: String)
    ensures
        text@ == title_case_of(value@),
{
    let n = value.unicode_len();
    if n == 0 {
        return String::new();
    }
    let first = value.get_char(0);
    let mut text = uppercase(first);
    let rest = value.substring_char(1, n);
    push_str(&mut text, rest);
    assert(rest@ =~= value@.drop_first());
    text
}

/// The exit code for an API answer with HTTP status `status` that is not a success.
pub open spec fn status_exit_code(status: u16) -> i32 {
    if status == 400 || status == 422 {
        3
    } else if status == 503 {
        4
    } else if status == 409 {
        5
    } else {
        1
    }
}

/// The error for an API answer with HTTP status `status` that is not a
/// success, carrying the answer's error message, if it has one.
pub fn api_failure(status: u16, message: Option<&str>) -> (e: CliError)
    ensures
        e.exit_code == status_exit_code(status),
        e.message@ == match message {
            Some(m) => m@,
            None => "The node rejected the request"@,
        },
        e.reason is None,
{
    let code: i32 = if status == 400 || status == 422 {
        3
    } else if status == 503 {
        4
    } else if status == 409 {
        5
    } else {
        1
    };
    match message {
        Some(m) => CliError::new(code, m),
        None => CliError::new(code, "The node rejected the request"),
    }
}

/// The outcome of one diagnostic check.
#[derive(Clone, Copy, Debug, PartialEq, Eq, Structural)]
pub enum CheckStatus {
    Pass,
    Warn,
    Fail,
}

impl CheckStatus {
    /// The name of the outcome.
    pub fn name(self) -> (text: &'static str)
        ensures
            text@ == match self {
                CheckStatus::Pass => "pass"@,
                CheckStatus::Warn => "warn"@,
                CheckStatus::Fail => "fail"@,
            },
    {
        match self {
            CheckStatus::Pass => "pass",
            CheckStatus::Warn => "warn",
            CheckStatus::Fail => "fail",
        }
    }
}

/// The outcome of a check: a failure when the service could not be asked, a
/// warning when it answered in a degraded state, a pass otherwise.
pub fn check_status(answered: bool, passes: bool) -> (s: CheckStatus)
    ensures
        !answered ==> s == CheckStatus::Fail,
        answered && !passes ==> s == CheckStatus::Warn,
        answered && passes ==> s == CheckStatus::Pass,
{
    if !answered {
        CheckStatus::Fail
    } else if !passes {
        CheckStatus::Warn
    } else {
        CheckStatus::Pass
    }
}

/// The overall result of the diagnostic checks: `fail` if any failed, else
/// `warning` if any warned, else `pass`.
pub fn overall_status(checks: &[CheckStatus]) -> (text: &'static str)
    ensures
        checks@.contains(CheckStatus::Fail) ==> text@ == "fail"@,
        !checks@.contains(CheckStatus::Fail) && checks@.contains(CheckStatus::Warn) ==> text@
            == "warning"@,
        !checks@.contains(CheckStatus::Fail) && !checks@.contains(CheckStatus::Warn) ==> text@
            == "pass"@,
{
    let mut failed = false;
    let mut warned = false;
    let mut i: usize = 0;
    while i < checks.len()
        invariant
            i <= checks@.len(),
            failed <==> exists|k: int| 0 <= k < i && checks@[k] == CheckStatus::Fail,
            warned <==> exists|k: int| 0 <= k < i && checks@[k] == CheckStatus::Warn,
        decreases checks@.len() - i,
    {
        if checks[i] == CheckStatus::Fail {
            failed = true;
        }
        if checks[i] == CheckStatus::Warn {
            warned = true;
        }
        i = i + 1;
    }
    if failed {
        "fail"
    } else if warned {
        "warning"
    } else {
        "pass"
    }
}

} // verus!
