//! What a client is told that has asked too often.

use http::header::HeaderMap;
use vstd::prelude::*;

use crate::clock;
use crate::clock::axum_limit_snapshot_now_ms;
use crate::headers;
use crate::headers::{header_extend, header_values, HeaderValues};
use crate::text;

verus! {

/// What the rate limiter says of a request.
#[derive(Debug, Clone, Copy)]
pub struct LimitSnapshot {
    /// Whether the request is allowed.
    pub allowed: bool,
    /// Configured maximum requests per period.
    pub limit: usize,
    /// Remaining requests in the current period.
    pub remaining: usize,
    /// When the limit fully resets, in milliseconds since the Unix epoch.
    pub reset_at_ms: u64,
}

/// The one value of a header that says a number.
pub open spec fn number_value(n: nat) -> Seq<Seq<u8>> {
    seq![vstd::utf8::encode_utf8(text::decimal(n))]
}

/// How long a client has to wait, in whole seconds, at least one.
pub open spec fn retry_after(reset_at_ms: u64, now_ms: u64) -> nat {
    if reset_at_ms <= now_ms {
        1
    } else {
        ((reset_at_ms - now_ms + 999) / 1000) as nat
    }
}

/// The headers that tell a client about its limit, and, where it has asked too often, how
/// long it has to wait.
pub open spec fn rate_values(snapshot: LimitSnapshot, now_ms: u64) -> HeaderValues {
    let told = HeaderValues::empty()
        .insert("x-ratelimit-limit"@, number_value(snapshot.limit as nat))
        .insert("x-ratelimit-remaining"@, number_value(snapshot.remaining as nat))
        .insert("x-ratelimit-reset"@, number_value((snapshot.reset_at_ms / 1000) as nat));
    if snapshot.allowed {
        told
    } else {
        told.insert("retry-after"@, number_value(retry_after(snapshot.reset_at_ms, now_ms)))
    }
}

/// `RateLimitSnapshot::to_headers`: limit, remainder and time of reset in whole seconds,
/// and for a refused request the time to wait, rounded up to whole seconds.
#[verifier::external_body]
fn snapshot_headers(snapshot: &LimitSnapshot, now_ms: u64) -> (r: HeaderMap)
    ensures
        header_values(r) == rate_values(*snapshot, now_ms),
{
    axum_limit::RateLimitSnapshot {
        allowed: snapshot.allowed,
        limit: snapshot.limit,
        remaining: snapshot.remaining,
        reset_at_ms: snapshot.reset_at_ms,
    }.to_headers(now_ms)
}

/// Put the headers that tell a client about its limit on a response, at a time.
pub fn add_rate_headers_at(response: &mut HeaderMap, snapshot: &LimitSnapshot, now_ms: u64)
    requires
        headers::has_room(header_values(*old(response)), 4),
    ensures
        header_values(*final(response)) == header_values(*old(response)).union_prefer_right(
            rate_values(*snapshot, now_ms),
        ),
{
    header_extend(response, snapshot_headers(snapshot, now_ms));
}

/// Put the headers that tell a client about its limit on a response.
pub fn add_rate_headers(response: &mut HeaderMap, snapshot: &LimitSnapshot)
    requires
        headers::has_room(header_values(*old(response)), 4),
    ensures
        exists|now: i128| #[trigger]
            clock::is_reading(now) && header_values(*final(response)) == header_values(
                *old(response),
            ).union_prefer_right(rate_values(*snapshot, clock::millis(now))),
{
    add_rate_headers_at(response, snapshot, axum_limit_snapshot_now_ms());
}

/// A client that waits as long as it is told comes back after the reset, and not a second
/// later than it has to, unless that is the least there is.
pub proof fn law_waiting_suffices(reset_at_ms: u64, now_ms: u64)
    ensures
        now_ms + retry_after(reset_at_ms, now_ms) * 1000 >= reset_at_ms,
        retry_after(reset_at_ms, now_ms) >= 1,
        retry_after(reset_at_ms, now_ms) > 1 ==> now_ms + (retry_after(reset_at_ms, now_ms) - 1)
            * 1000 < reset_at_ms,
{
}

/// A refused client is told the limit, what remains, the second of the reset and how long to
/// wait; an allowed one the same without the wait.
pub proof fn law_rate_values(snapshot: LimitSnapshot, now_ms: u64, name: Seq<char>)
    ensures
        ({
            let told = rate_values(snapshot, now_ms);
            let number = |n: nat| seq![vstd::utf8::encode_utf8(text::decimal(n))];
            &&& told.contains_key(name) ==> seq![
                "x-ratelimit-limit"@,
                "x-ratelimit-remaining"@,
                "x-ratelimit-reset"@,
                "retry-after"@,
            ].contains(name)
            &&& headers::values_of(told, "x-ratelimit-limit"@) == number(snapshot.limit as nat)
            &&& headers::values_of(told, "x-ratelimit-remaining"@) == number(
                snapshot.remaining as nat,
            )
            &&& headers::values_of(told, "x-ratelimit-reset"@) == number(
                (snapshot.reset_at_ms / 1000) as nat,
            )
            &&& told.contains_key("retry-after"@) <==> !snapshot.allowed
            &&& !snapshot.allowed && snapshot.reset_at_ms <= now_ms ==> told["retry-after"@]
                == number(1)
            &&& !snapshot.allowed && snapshot.reset_at_ms > now_ms && (snapshot.reset_at_ms
                - now_ms) % 1000 == 0 ==> told["retry-after"@] == number(
                ((snapshot.reset_at_ms - now_ms) / 1000) as nat,
            )
            &&& !snapshot.allowed && snapshot.reset_at_ms > now_ms && (snapshot.reset_at_ms
                - now_ms) % 1000 != 0 ==> told["retry-after"@] == number(
                ((snapshot.reset_at_ms - now_ms) / 1000 + 1) as nat,
            )
        }),
{
    reveal_strlit("x-ratelimit-limit");
    reveal_strlit("x-ratelimit-remaining");
    reveal_strlit("x-ratelimit-reset");
    reveal_strlit("retry-after");
    assert("x-ratelimit-limit"@.len() == 17);
    assert("x-ratelimit-remaining"@.len() == 21);
    assert("x-ratelimit-reset"@.len() == 17);
    assert("retry-after"@.len() == 11);
    assert("x-ratelimit-limit"@[12] == 'l' && "x-ratelimit-reset"@[12] == 'r');
    let names = seq![
        "x-ratelimit-limit"@,
        "x-ratelimit-remaining"@,
        "x-ratelimit-reset"@,
        "retry-after"@,
    ];
    if rate_values(snapshot, now_ms).contains_key(name) {
        assert(name == names[0] || name == names[1] || name == names[2] || name == names[3]);
    }
}

/// What a client is told takes the place of what a response has under these names, and
/// leaves the rest of it.
pub proof fn law_rate_headers(
    response: &mut HeaderMap,
    snapshot: LimitSnapshot,
    now_ms: u64,
    name: Seq<char>,
)
    requires
        call_ensures(add_rate_headers_at, (response, &snapshot, now_ms), ()),
    ensures
        headers::values_of(header_values(*final(response)), name) == if rate_values(
            snapshot,
            now_ms,
        ).contains_key(name) {
            rate_values(snapshot, now_ms)[name]
        } else {
            headers::values_of(header_values(*old(response)), name)
        },
{
}

} // verus!
