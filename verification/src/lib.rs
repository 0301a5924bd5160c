//! Verified core of a file manager: copying, syncing, searching, sharing,
//! archiving and writing bootable media.

pub mod archive;
pub mod big_folders;
pub mod bootable;
pub mod bytes;
pub mod calendar;
pub mod copy;
pub mod dialog;
pub mod diskusage;
pub mod dnd;
pub mod drives;
pub mod duplicates;
pub mod fsops;
pub mod hash;
pub mod index;
pub mod ipc;
pub mod json;
pub mod large_files;
pub mod order;
pub mod paths;
pub mod platform;
pub mod search;
pub mod share;
pub mod sync;
pub mod text;
pub mod ui;
pub mod util;

use vstd::prelude::*;

use crate::paths::{FilePath, PathView};

verus! {

/// Why an operation stopped.
#[derive(Debug, PartialEq, Eq)]
pub enum EngineError {
    /// The file system refused something at `path`.
    Io { path: FilePath, message: String },
    /// The user asked to stop.
    Cancelled,
    Other(String),
}

/// What an error holds, as characters.
#[verifier::ext_equal]
pub ghost enum ErrorView {
    Io { path: PathView, message: Seq<char> },
    Cancelled,
    Other(Seq<char>),
}

impl View for EngineError {
    type V = ErrorView;

    open spec fn view(&self) -> ErrorView {
        match self {
            EngineError::Io { path, message } => ErrorView::Io { path: path@, message: message@ },
            EngineError::Cancelled => ErrorView::Cancelled,
            EngineError::Other(text) => ErrorView::Other(text@),
        }
    }
}

pub type EngineResult<T> = Result<T, EngineError>;

/// How the standard library writes a path with quotes and escapes.
pub uninterp spec fn quoted_path(shown: Seq<char>) -> Seq<char>;

/// The `Debug` form of `std::path::Path`: the path in quotes, with what
/// cannot be printed escaped.
#[verifier::external_body]
pub(crate) fn quote_path(shown: &str) -> (r: String)
    ensures
        r@ == quoted_path(shown@),
{
    format!("{:?}", std::path::Path::new(shown))
}

impl ErrorView {
    /// The sentence shown for an error.
    pub open spec fn sentence(self) -> Seq<char> {
        match self {
            ErrorView::Io { path, message } => "io error at "@ + quoted_path(path.shown()) + ": "@
                + message,
            ErrorView::Cancelled => "operation cancelled"@,
            ErrorView::Other(text) => text,
        }
    }
}

impl EngineError {
    /// The same error once more.
    pub fn copy(&self) -> (r: EngineError)
        ensures
            r@ == self@,
    {
        match self {
            EngineError::Io { path, message } => EngineError::Io {
                path: path.clone(),
                message: message.clone(),
            },
            EngineError::Cancelled => EngineError::Cancelled,
            EngineError::Other(text) => EngineError::Other(text.clone()),
        }
    }

    /// The sentence shown for this error.
    pub fn message(&self) -> (r: String)
        ensures
            r@ == self@.sentence(),
    {
        match self {
            EngineError::Io { path, message } => {
                let shown = path.display();
                let mut r = "io error at ".to_owned();
                r.append(quote_path(shown.as_str()).as_str());
                r.append(": ");
                r.append(message.as_str());
                r
            },
            EngineError::Cancelled => "operation cancelled".to_owned(),
            EngineError::Other(text) => text.clone(),
        }
    }
}

/// The error for a failed file system call at `path`.
pub fn io_err(path: &FilePath, message: String) -> (e: EngineError)
    ensures
        e@ == (ErrorView::Io { path: path@, message: message@ }),
{
    EngineError::Io { path: path.clone(), message }
}

/// A request to stop an operation early. It starts unset and, once set,
/// stays set; operations look at it between files and between buffers.
/// A token stands for the request as it is at one moment: what several threads
/// share is a flag of the program, which makes a token from it for each look.
#[derive(Debug)]
pub struct CancelToken {
    requested: bool,
}

impl View for CancelToken {
    type V = bool;

    closed spec fn view(&self) -> bool {
        self.requested
    }
}

impl CancelToken {
    pub fn new() -> (r: CancelToken)
        ensures
            !r@,
    {
        CancelToken { requested: false }
    }

    /// Asks for a stop.
    pub fn cancel(&mut self)
        ensures
            final(self)@,
    {
        self.requested = true;
    }

    pub fn is_cancelled(&self) -> (r: bool)
        ensures
            r == self@,
    {
        self.requested
    }
}

/// Going on, unless a stop was asked for.
pub(crate) fn go_on_unless(cancel: &CancelToken) -> (r: EngineResult<()>)
    ensures
        cancel@ ==> r == Err::<(), EngineError>(EngineError::Cancelled),
        !cancel@ ==> r is Ok,
{
    if cancel.is_cancelled() {
        Err(EngineError::Cancelled)
    } else {
        Ok(())
    }
}

impl Default for CancelToken {
    fn default() -> (r: CancelToken)
        ensures
            !r@,
    {
        CancelToken::new()
    }
}

/// A request to stop is seen by every later look, and there is none at first.
pub proof fn law_stop_stays(
    token: &mut CancelToken,
    u: (),
    later: &CancelToken,
    seen: bool,
    fresh: CancelToken,
)
    requires
        call_ensures(CancelToken::cancel, (token,), u),
        *later == *final(token),
        call_ensures(CancelToken::is_cancelled, (later,), seen),
        call_ensures(CancelToken::new, (), fresh),
    ensures
        seen,
        !fresh@,
{
}

/// An error that names a place says where and what, one in words is shown as it
/// is, and a copy says the same.
pub proof fn law_errors_say_what_happened(
    path: &FilePath,
    reason: String,
    e: EngineError,
    shown: String,
    again: EngineError,
    other: &EngineError,
    words: String,
)
    requires
        call_ensures(io_err, (path, reason), e),
        call_ensures(EngineError::message, (&e,), shown),
        call_ensures(EngineError::copy, (&e,), again),
        call_ensures(EngineError::message, (other,), words),
    ensures
        e matches EngineError::Io { path: p, message: m } && p@ == path@ && m@ == reason@,
        shown@ == "io error at "@ + quoted_path(path@.shown()) + ": "@ + reason@,
        again@ == e@,
        *other matches EngineError::Other(text) ==> words@ == text@,
        *other is Cancelled ==> words@ == "operation cancelled"@,
{
}

} // verus!
