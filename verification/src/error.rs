//! The library's error type.

use vstd::prelude::*;

use crate::text::{copy_of, decimal_i64, decimal_int, join2, join3};

verus! {

/// What can go wrong in a turn.
#[derive(Debug, PartialEq)]
pub enum Error {
    Provider(String),
    Tool(String),
    Storage(String),
    Config(String),
    ContextWindowExceeded { used: i64, limit: i64 },
    ChannelClosed(String),
    /// The user cancelled the turn.
    Cancelled,
    /// A budget of the turn ran out, or a runaway loop was stopped.
    BudgetExceeded(String),
    /// Another turn is running.
    Busy,
    Other(String),
}

/// What an [`Error`] stands for.
#[verifier::ext_equal]
pub enum ErrorView {
    Provider(Seq<char>),
    Tool(Seq<char>),
    Storage(Seq<char>),
    Config(Seq<char>),
    ContextWindowExceeded { used: i64, limit: i64 },
    ChannelClosed(Seq<char>),
    Cancelled,
    BudgetExceeded(Seq<char>),
    Busy,
    Other(Seq<char>),
}

impl View for Error {
    type V = ErrorView;

    open spec fn view(&self) -> ErrorView {
        match self {
            Error::Provider(s) => ErrorView::Provider(s@),
            Error::Tool(s) => ErrorView::Tool(s@),
            Error::Storage(s) => ErrorView::Storage(s@),
            Error::Config(s) => ErrorView::Config(s@),
            Error::ContextWindowExceeded { used, limit } => ErrorView::ContextWindowExceeded {
                used: *used,
                limit: *limit,
            },
            Error::ChannelClosed(s) => ErrorView::ChannelClosed(s@),
            Error::Cancelled => ErrorView::Cancelled,
            Error::BudgetExceeded(s) => ErrorView::BudgetExceeded(s@),
            Error::Busy => ErrorView::Busy,
            Error::Other(s) => ErrorView::Other(s@),
        }
    }
}

/// The text that the user sees for an error.
pub open spec fn error_text(e: ErrorView) -> Seq<char> {
    match e {
        ErrorView::Provider(s) => "provider error: "@ + s,
        ErrorView::Tool(s) => "tool error: "@ + s,
        ErrorView::Storage(s) => "storage error: "@ + s,
        ErrorView::Config(s) => "config error: "@ + s,
        ErrorView::ContextWindowExceeded { used, limit } => "context window exceeded (used ~"@
            + decimal_int(used as int) + ", limit "@ + decimal_int(limit as int) + ")"@,
        ErrorView::ChannelClosed(s) => "channel closed: "@ + s,
        ErrorView::Cancelled => "cancelled by user"@,
        ErrorView::BudgetExceeded(s) => "budget exceeded: "@ + s,
        ErrorView::Busy => "a turn is already running"@,
        ErrorView::Other(s) => s,
    }
}

impl Error {
    /// The API rejected the request because the conversation no longer fits
    /// the context window. Providers map their own error shapes onto this.
    pub fn is_context_window_exceeded(&self) -> (r: bool)
        ensures
            r == (self@ is ContextWindowExceeded),
    {
        match self {
            Error::ContextWindowExceeded { .. } => true,
            _ => false,
        }
    }

    /// The text that the user sees for this error.
    pub fn message(&self) -> (r: String)
        ensures
            r@ == error_text(self@),
    {
        match self {
            Error::Provider(s) => join2("provider error: ", s),
            Error::Tool(s) => join2("tool error: ", s),
            Error::Storage(s) => join2("storage error: ", s),
            Error::Config(s) => join2("config error: ", s),
            Error::ContextWindowExceeded { used, limit } => {
                let head = join3("context window exceeded (used ~", &decimal_i64(*used), ", limit ");
                join3(&head, &decimal_i64(*limit), ")")
            },
            Error::ChannelClosed(s) => join2("channel closed: ", s),
            Error::Cancelled => copy_of("cancelled by user"),
            Error::BudgetExceeded(s) => join2("budget exceeded: ", s),
            Error::Busy => copy_of("a turn is already running"),
            Error::Other(s) => copy_of(s),
        }
    }
}

impl Clone for Error {
    fn clone(&self) -> (r: Self)
        ensures
            r@ == self@,
    {
        match self {
            Error::Provider(s) => Error::Provider(copy_of(s)),
            Error::Tool(s) => Error::Tool(copy_of(s)),
            Error::Storage(s) => Error::Storage(copy_of(s)),
            Error::Config(s) => Error::Config(copy_of(s)),
            Error::ContextWindowExceeded { used, limit } => Error::ContextWindowExceeded {
                used: *used,
                limit: *limit,
            },
            Error::ChannelClosed(s) => Error::ChannelClosed(copy_of(s)),
            Error::Cancelled => Error::Cancelled,
            Error::BudgetExceeded(s) => Error::BudgetExceeded(copy_of(s)),
            Error::Busy => Error::Busy,
            Error::Other(s) => Error::Other(copy_of(s)),
        }
    }
}

/// The user sees what went wrong: the message of an error stands in the text
/// that is shown for it, behind its kind, and a full window is shown with
/// its numbers.
pub proof fn law_error_text_holds_the_message(s: Seq<char>, used: i64, limit: i64)
    ensures
        error_text(ErrorView::Provider(s)) == "provider error: "@ + s,
        error_text(ErrorView::Tool(s)) == "tool error: "@ + s,
        error_text(ErrorView::Storage(s)) == "storage error: "@ + s,
        error_text(ErrorView::Config(s)) == "config error: "@ + s,
        error_text(ErrorView::ChannelClosed(s)) == "channel closed: "@ + s,
        error_text(ErrorView::BudgetExceeded(s)) == "budget exceeded: "@ + s,
        error_text(ErrorView::Other(s)) == s,
        error_text(ErrorView::Cancelled) == "cancelled by user"@,
        error_text(ErrorView::ContextWindowExceeded { used, limit })
            == "context window exceeded (used ~"@ + decimal_int(used as int) + ", limit "@
            + decimal_int(limit as int) + ")"@,
{
}

} // verus!
