//! The library's error type.

use vstd::prelude::*;

verus! {

/// Errors of the J-Link bootstrap and runner; each carries its message.
#[derive(Debug, PartialEq, Eq)]
pub enum AppError {
    /// A file-system operation failed.
    Io(String),
    /// A platform facility (elevation, udev, Git LFS payload) failed.
    Platform(String),
    /// An internal consistency check failed.
    Internal(String),
    /// The J-Link executable could not be started.
    JLinkNotFound(String),
    /// The J-Link executable ran and failed.
    JLinkFailed(String),
}

/// An error as a value of specifications: its kind and message.
pub enum ErrorView {
    Io(Seq<char>),
    Platform(Seq<char>),
    Internal(Seq<char>),
    JLinkNotFound(Seq<char>),
    JLinkFailed(Seq<char>),
}

impl View for AppError {
    type V = ErrorView;

    open spec fn view(&self) -> ErrorView {
        match self {
            AppError::Io(m) => ErrorView::Io(m@),
            AppError::Platform(m) => ErrorView::Platform(m@),
            AppError::Internal(m) => ErrorView::Internal(m@),
            AppError::JLinkNotFound(m) => ErrorView::JLinkNotFound(m@),
            AppError::JLinkFailed(m) => ErrorView::JLinkFailed(m@),
        }
    }
}

/// The view of an optional error.
pub open spec fn opt_error_view(e: Option<AppError>) -> Option<ErrorView> {
    match e {
        Some(x) => Some(x@),
        None => None,
    }
}

impl AppError {
    /// The message the error carries.
    pub open spec fn message(self) -> Seq<char> {
        match self {
            AppError::Io(m) => m@,
            AppError::Platform(m) => m@,
            AppError::Internal(m) => m@,
            AppError::JLinkNotFound(m) => m@,
            AppError::JLinkFailed(m) => m@,
        }
    }
}

} // verus!
