//! The library's error type and the text a command reports for it.

use vstd::prelude::*;

use crate::trusted::clipboard_error_text;

verus! {

/// What can go wrong in the authenticator.
#[derive(Debug)]
pub enum AppError {
    /// Input that the rules refuse; the text is shown as it stands.
    Validation(String),
    /// A missing item: "account" or "secret".
    NotFound(String),
    /// The secret vault cannot be used.
    SecureStore(String),
    /// Reading or writing stored data failed.
    Persistence(String),
    /// The system clipboard refused an operation.
    Clipboard(arboard::Error),
    /// A window operation failed.
    Window(String),
    /// Anything else.
    Other(String),
}

/// [`AppError`] with its texts as character sequences.
pub enum AppErrorView {
    Validation(Seq<char>),
    NotFound(Seq<char>),
    SecureStore(Seq<char>),
    Persistence(Seq<char>),
    Clipboard,
    Window(Seq<char>),
    Other(Seq<char>),
}

impl View for AppError {
    type V = AppErrorView;

    open spec fn view(&self) -> AppErrorView {
        match self {
            AppError::Validation(m) => AppErrorView::Validation(m@),
            AppError::NotFound(m) => AppErrorView::NotFound(m@),
            AppError::SecureStore(m) => AppErrorView::SecureStore(m@),
            AppError::Persistence(m) => AppErrorView::Persistence(m@),
            AppError::Clipboard(_) => AppErrorView::Clipboard,
            AppError::Window(m) => AppErrorView::Window(m@),
            AppError::Other(m) => AppErrorView::Other(m@),
        }
    }
}

/// Results of the library's fallible operations.
pub type AppResult<T> = Result<T, AppError>;

/// A result with the success value and the error taken by their views.
pub open spec fn outcome<T: View>(r: AppResult<T>) -> Result<T::V, AppErrorView> {
    match r {
        Ok(v) => Ok(v@),
        Err(e) => Err(e@),
    }
}

/// A validation failure with the given text.
pub open spec fn invalid<T>(message: Seq<char>) -> Result<T, AppErrorView> {
    Err(AppErrorView::Validation(message))
}

/// What a clock reading before the Unix epoch is reported as.
pub open spec fn clock_error() -> AppErrorView {
    AppErrorView::Other("system time should be after unix epoch"@)
}

/// The error for a clock reading before the Unix epoch.
pub fn clock_error_value() -> (e: AppError)
    ensures
        e@ == clock_error(),
{
    AppError::Other(String::from_str("system time should be after unix epoch"))
}

/// Builds a validation error from a message.
pub fn validation_error(message: &str) -> (e: AppError)
    ensures
        e@ == AppErrorView::Validation(message@),
{
    AppError::Validation(String::from_str(message))
}

/// `prefix` followed by `rest`, as a new string.
fn joined(prefix: &str, rest: &String) -> (r: String)
    ensures
        r@ == prefix@ + rest@,
{
    let mut r = String::from_str(prefix);
    r.append(rest.as_str());
    r
}

impl AppError {
    /// The text that a command reports for this error.
    pub fn into_command(self) -> (r: String)
        ensures
            match self@ {
                AppErrorView::Validation(m) => r@ == m,
                AppErrorView::NotFound(m) => r@ == "Could not find "@ + m,
                AppErrorView::SecureStore(m) => r@ == "Secure storage is unavailable: "@ + m,
                AppErrorView::Persistence(m) => r@ == "Persistence failed: "@ + m,
                AppErrorView::Clipboard => exists|t: Seq<char>| r@ == "Clipboard error: "@ + t,
                AppErrorView::Window(m) => r@ == "Window operation failed: "@ + m,
                AppErrorView::Other(m) => r@ == "Unexpected error: "@ + m,
            },
    {
        match self {
            AppError::Validation(m) => m,
            AppError::NotFound(m) => joined("Could not find ", &m),
            AppError::SecureStore(m) => joined("Secure storage is unavailable: ", &m),
            AppError::Persistence(m) => joined("Persistence failed: ", &m),
            AppError::Clipboard(e) => {
                let t = clipboard_error_text(&e);
                joined("Clipboard error: ", &t)
            },
            AppError::Window(m) => joined("Window operation failed: ", &m),
            AppError::Other(m) => joined("Unexpected error: ", &m),
        }
    }
}

} // verus!
