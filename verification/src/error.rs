//! Errors of the command line tool.
use vstd::prelude::*;

verus! {

/// What went wrong: a failed read or write, unreadable JSON, or a request
/// that cannot be served. `source` is the text of the underlying cause.
#[derive(Debug)]
pub enum CliError {
    Io { context: String, source: String },
    Json { context: String, source: String },
    Message(String),
}

impl CliError {
    /// The text shown to the user.
    pub open spec fn shown(self) -> Seq<char> {
        match self {
            CliError::Io { context, source } => context@ + ": "@ + source@,
            CliError::Json { context, source } => context@ + ": "@ + source@,
            CliError::Message(message) => message@,
        }
    }

    /// Whether this is a refused request that says `message`.
    pub open spec fn says(self, message: Seq<char>) -> bool {
        self matches CliError::Message(text) && text@ == message
    }

    /// The exit code of the process: 2 for a refused request, 1 for I/O and
    /// JSON errors.
    pub fn exit_code(&self) -> (r: i32)
        ensures
            r == if self is Message {
                2int
            } else {
                1int
            },
    {
        match self {
            CliError::Message(_) => 2,
            CliError::Io { .. } => 1,
            CliError::Json { .. } => 1,
        }
    }

    /// The text shown to the user.
    pub fn text(&self) -> (r: String)
        ensures
            r@ == self.shown(),
    {
        match self {
            CliError::Io { context, source } => context.clone().concat(": ").concat(
                source.as_str(),
            ),
            CliError::Json { context, source } => context.clone().concat(": ").concat(
                source.as_str(),
            ),
            CliError::Message(message) => message.clone(),
        }
    }
}

/// A refused request.
pub fn refuse(message: &str) -> (r: CliError)
    ensures
        r.says(message@),
{
    CliError::Message(message.to_owned())
}

} // verus!
