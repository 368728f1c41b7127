//! Errors of the proxy and the HTTP responses that they become.

use vstd::prelude::*;

verus! {

/// Errors produced while handling a proxy request.
#[derive(Debug)]
pub enum AppError {
    /// The target URL was missing, malformed, or not absolute.
    BadUrl(String),
    /// The target host or requesting origin was denied by policy.
    Denied(String),
    /// The proxied response body exceeded the per-result size cap.
    TooLarge(String),
    /// The upstream request failed (network error, timeout, too many redirects, etc.).
    Upstream(String),
    /// The rate-limit storage backend failed.
    LimitBackend(String),
}

impl AppError {
    /// What is wrong, for the client.
    pub open spec fn detail(self) -> Seq<char> {
        match self {
            AppError::BadUrl(detail) => detail@,
            AppError::Denied(detail) => detail@,
            AppError::TooLarge(detail) => detail@,
            AppError::Upstream(detail) => detail@,
            AppError::LimitBackend(detail) => detail@,
        }
    }

    /// The status of the response.
    pub open spec fn code(self) -> u16 {
        match self {
            AppError::BadUrl(_) => 400,
            AppError::Denied(_) => 403,
            AppError::TooLarge(_) => 413,
            AppError::Upstream(_) => 502,
            AppError::LimitBackend(_) => 503,
        }
    }

    /// The error in words, for the log.
    pub open spec fn words(self) -> Seq<char> {
        (match self {
            AppError::BadUrl(_) => "invalid target url: "@,
            AppError::Denied(_) => "access denied: "@,
            AppError::TooLarge(_) => "response too large: "@,
            AppError::Upstream(_) => "upstream error: "@,
            AppError::LimitBackend(_) => "rate limit storage failure: "@,
        }) + self.detail()
    }

    /// The status of the response.
    pub fn status(&self) -> (r: u16)
        ensures
            r == self.code(),
    {
        match self {
            AppError::BadUrl(_) => 400,
            AppError::Denied(_) => 403,
            AppError::TooLarge(_) => 413,
            AppError::Upstream(_) => 502,
            AppError::LimitBackend(_) => 503,
        }
    }

    /// What is wrong, for the body of the response.
    pub fn reason(&self) -> (r: String)
        ensures
            r@ == self.detail(),
    {
        match self {
            AppError::BadUrl(detail) => detail.clone(),
            AppError::Denied(detail) => detail.clone(),
            AppError::TooLarge(detail) => detail.clone(),
            AppError::Upstream(detail) => detail.clone(),
            AppError::LimitBackend(detail) => detail.clone(),
        }
    }

    /// The error in words, for the log.
    pub fn message(&self) -> (r: String)
        ensures
            r@ == self.words(),
    {
        let mut out = match self {
            AppError::BadUrl(_) => "invalid target url: ".to_owned(),
            AppError::Denied(_) => "access denied: ".to_owned(),
            AppError::TooLarge(_) => "response too large: ".to_owned(),
            AppError::Upstream(_) => "upstream error: ".to_owned(),
            AppError::LimitBackend(_) => "rate limit storage failure: ".to_owned(),
        };
        out.append(&self.reason());
        out
    }

    /// Whether the fault is not the client's: such errors are logged as errors, the others
    /// as rejections.
    pub fn is_server_fault(&self) -> (r: bool)
        ensures
            r == (500 <= self.code() <= 599),
    {
        let status: u16 = self.status();
        500 <= status && status <= 599
    }

    /// The error of an upstream request that failed, by what is known of the failure.
    pub fn from_upstream(is_timeout: bool, is_redirect: bool, cause: &str) -> (r: AppError)
        ensures
            r is Upstream,
            r.detail() == (if is_timeout {
                "upstream timeout: "@ + cause@
            } else if is_redirect {
                "too many redirects: "@ + cause@
            } else {
                cause@
            }),
    {
        if is_timeout {
            AppError::Upstream("upstream timeout: ".to_owned().concat(cause))
        } else if is_redirect {
            AppError::Upstream("too many redirects: ".to_owned().concat(cause))
        } else {
            AppError::Upstream(cause.to_owned())
        }
    }
}

/// Each kind of error has its status, as documented, and tells its reason; those of 500 and
/// above are the server's fault.
pub proof fn law_statuses(error: AppError, status: u16, fault: bool)
    requires
        call_ensures(AppError::status, (&error,), status),
        call_ensures(AppError::is_server_fault, (&error,), fault),
    ensures
        error is BadUrl ==> status == 400,
        error is Denied ==> status == 403,
        error is TooLarge ==> status == 413,
        error is Upstream ==> status == 502,
        error is LimitBackend ==> status == 503,
        fault <==> error is Upstream || error is LimitBackend,
        error.code() == status,
{
}

/// What an error says of itself is its reason, behind words that name its kind.
pub proof fn law_reasons(detail: String)
    ensures
        AppError::BadUrl(detail).detail() == detail@,
        AppError::Denied(detail).detail() == detail@,
        AppError::TooLarge(detail).detail() == detail@,
        AppError::Upstream(detail).detail() == detail@,
        AppError::LimitBackend(detail).detail() == detail@,
        AppError::BadUrl(detail).words() == "invalid target url: "@ + detail@,
        AppError::Denied(detail).words() == "access denied: "@ + detail@,
        AppError::TooLarge(detail).words() == "response too large: "@ + detail@,
        AppError::Upstream(detail).words() == "upstream error: "@ + detail@,
        AppError::LimitBackend(detail).words() == "rate limit storage failure: "@ + detail@,
{
}

/// A target that could not be asked is an upstream error; a timeout is told before a
/// redirect loop, and both are told with their cause.
pub proof fn law_upstream_errors(is_timeout: bool, is_redirect: bool, cause: &str, r: AppError)
    requires
        call_ensures(AppError::from_upstream, (is_timeout, is_redirect, cause), r),
    ensures
        r is Upstream,
        is_timeout ==> r.detail() == "upstream timeout: "@ + cause@,
        !is_timeout && is_redirect ==> r.detail() == "too many redirects: "@ + cause@,
        !is_timeout && !is_redirect ==> r.detail() == cause@,
{
}

/// An error tells its reason and its words.
pub proof fn law_telling(error: AppError, reason: String, words: String)
    requires
        call_ensures(AppError::reason, (&error,), reason),
        call_ensures(AppError::message, (&error,), words),
    ensures
        reason@ == error.detail(),
        words@ == error.words(),
{
}

} // verus!
