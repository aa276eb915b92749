//! The decisions of the two middlewares around the page routes: the page
//! wrapper dresses successful responses in the site layout, the error
//! handler dresses failed ones in the error layout.

use vstd::prelude::*;

verus! {

/// What a middleware does with the response of the service it wraps.
#[derive(Debug, Clone, Copy, PartialEq, Eq, Structural)]
pub enum MiddlewareAction {
    /// The response is handed on as it is.
    PassThrough,
    /// The body is taken out and rendered into a layout.
    Rewrap,
}

/// A success status: 200 to 299, as `http::StatusCode::is_success` documents.
pub open spec fn is_success_status(status: u16) -> bool {
    200 <= status <= 299
}

/// What the page wrapper does with a response of status `status`: only
/// successes are wrapped.
pub open spec fn spec_wrap_page_action(status: u16) -> MiddlewareAction {
    if is_success_status(status) {
        MiddlewareAction::Rewrap
    } else {
        MiddlewareAction::PassThrough
    }
}

/// What the error handler does with a response of status `status`: only
/// failures are rewritten.
pub open spec fn spec_handle_error_action(status: u16) -> MiddlewareAction {
    if is_success_status(status) {
        MiddlewareAction::PassThrough
    } else {
        MiddlewareAction::Rewrap
    }
}

/// What the page wrapper does with a response of status `status`.
pub fn wrap_page_action(status: u16) -> (a: MiddlewareAction)
    ensures
        a == spec_wrap_page_action(status),
{
    if 200 <= status && status <= 299 {
        MiddlewareAction::Rewrap
    } else {
        MiddlewareAction::PassThrough
    }
}

/// What the error handler does with a response of status `status`.
pub fn handle_error_action(status: u16) -> (a: MiddlewareAction)
    ensures
        a == spec_handle_error_action(status),
{
    if 200 <= status && status <= 299 {
        MiddlewareAction::PassThrough
    } else {
        MiddlewareAction::Rewrap
    }
}

/// Every response is dressed by exactly one of the two middlewares.
pub proof fn law_one_layout_per_response(status: u16)
    ensures
        (spec_wrap_page_action(status) == MiddlewareAction::Rewrap) != (spec_handle_error_action(
            status,
        ) == MiddlewareAction::Rewrap),
{
}

} // verus!
