//! Errors as a client of the web interface sees them.
use vstd::prelude::*;

verus! {

/// An error as a client sees it.
pub struct ApiError {
    pub status: u16,
    pub code: String,
    pub message: String,
}

/// What an [`ApiError`] says.
#[verifier::ext_equal]
pub struct ApiErrorView {
    pub status: u16,
    pub code: Seq<char>,
    pub message: Seq<char>,
}

impl View for ApiError {
    type V = ApiErrorView;

    open spec fn view(&self) -> ApiErrorView {
        ApiErrorView { status: self.status, code: self.code@, message: self.message@ }
    }
}

impl ApiErrorView {
    /// The client asked for something that cannot be done.
    pub open spec fn bad_request(message: Seq<char>) -> ApiErrorView {
        ApiErrorView { status: 400, code: "BAD_REQUEST"@, message }
    }

    /// Something went wrong that the client has no part in.
    pub open spec fn internal(message: Seq<char>) -> ApiErrorView {
        ApiErrorView { status: 500, code: "INTERNAL_ERROR"@, message }
    }
}

impl ApiError {
    /// The client asked for something that cannot be done.
    pub fn bad_request(message: String) -> (r: Self)
        ensures
            r@ == ApiErrorView::bad_request(message@),
    {
        ApiError { status: 400, code: "BAD_REQUEST".to_owned(), message }
    }

    /// Something went wrong that the client has no part in.
    pub fn internal(message: String) -> (r: Self)
        ensures
            r@ == ApiErrorView::internal(message@),
    {
        ApiError { status: 500, code: "INTERNAL_ERROR".to_owned(), message }
    }
}

}
