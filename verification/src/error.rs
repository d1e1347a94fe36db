//! The ways in which a request can be turned down.

use vstd::prelude::*;

verus! {

/// Why a request was turned down.
#[derive(Debug, Clone, PartialEq, Eq)]
pub enum AppError {
    NotFound,
    Unauthorized,
    Forbidden,
    TooManyRequests,
    PayloadTooLarge,
    BadRequest(String),
    Other(String),
}

/// An error with its message as a sequence of characters.
pub enum ErrorView {
    NotFound,
    Unauthorized,
    Forbidden,
    TooManyRequests,
    PayloadTooLarge,
    BadRequest(Seq<char>),
    Other(Seq<char>),
}

impl View for AppError {
    type V = ErrorView;

    open spec fn view(&self) -> ErrorView {
        match self {
            AppError::NotFound => ErrorView::NotFound,
            AppError::Unauthorized => ErrorView::Unauthorized,
            AppError::Forbidden => ErrorView::Forbidden,
            AppError::TooManyRequests => ErrorView::TooManyRequests,
            AppError::PayloadTooLarge => ErrorView::PayloadTooLarge,
            AppError::BadRequest(message) => ErrorView::BadRequest(message@),
            AppError::Other(message) => ErrorView::Other(message@),
        }
    }
}

/// A result with its error by its view.
pub open spec fn seen<T>(r: Result<T, AppError>) -> Result<T, ErrorView> {
    match r {
        Ok(v) => Ok(v),
        Err(e) => Err(e@),
    }
}

/// A text or an error, each by its view.
pub open spec fn seen_text(r: Result<String, AppError>) -> Result<Seq<char>, ErrorView> {
    match r {
        Ok(s) => Ok(s@),
        Err(e) => Err(e@),
    }
}

/// A text, or an error that is none of the caller's doing.
pub open spec fn or_other(r: Result<Seq<char>, Seq<char>>) -> Result<Seq<char>, ErrorView> {
    match r {
        Ok(s) => Ok(s),
        Err(e) => Err(ErrorView::Other(e)),
    }
}

/// The error for a request that cannot be understood.
pub fn bad_request(message: &str) -> (r: AppError)
    ensures
        r@ == ErrorView::BadRequest(message@),
{
    AppError::BadRequest(message.to_owned())
}

} // verus!
