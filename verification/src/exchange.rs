//! The course of a proxied request.
//!
//! 1. The target URL is taken from the request and held against the policy.
//! 2. Every request-count tier is asked, in order.
//! 3. The cache is looked up, where the request may be answered from it.
//! 4. The target is asked, with the entry's validators in place of the client's where there
//!    is an entry that has to be revalidated. Redirects are followed up to a limit; each
//!    destination is held against the policy first.
//! 5. The answer is handed on, or the stored one in its place.
//!
//! An [`Exchange`] decides; the caller does what it says and tells it what came of that.

use http::header::HeaderMap;
use vstd::prelude::*;

use crate::cache;
use crate::cache::{
    add_cache_header, headers_from_entry, Cache, CacheEntry, CacheEntryView, CachePlan, CacheView,
    PlanView,
};
use crate::config::LimitTier;
use crate::cors;
use crate::error::AppError;
use crate::extractors::Origin;
use crate::freshness;
use crate::freshness::request_requires_revalidation;
use crate::headers;
use crate::headers::{header_remove, header_text, header_values, HeaderValues};
use crate::limit::ResultSizeGuard;
use crate::matcher::PolicyView;
use crate::proxy;
use crate::proxy::{
    copy_response_headers, forward_headers, parse_target_url, validate_target_policy, Fault,
    RequestTarget,
};
use crate::state::AppState;
use crate::text;
use crate::text::to_decimal;
use crate::urls;
use crate::urls::{join_url, parse_url, TargetUrl, UrlView};

verus! {

/// How the cache took part in a response.
#[derive(Debug, Clone, Copy, PartialEq, Eq, Structural)]
pub enum CacheUse {
    /// The stored response was served.
    Hit,
    /// Nothing was stored, or what the target said did not concern it.
    Miss,
    /// The target confirmed the stored response or gave a new one for it.
    Revalidated,
}

impl CacheUse {
    /// The value of the diagnostic header.
    pub open spec fn words(self) -> Seq<char> {
        match self {
            CacheUse::Hit => "HIT"@,
            CacheUse::Miss => "MISS"@,
            CacheUse::Revalidated => "REVALIDATED"@,
        }
    }

    /// The value of the diagnostic header.
    pub fn label(&self) -> (r: String)
        ensures
            r@ == self.words(),
            headers::is_header_value(vstd::utf8::encode_utf8(r@)),
    {
        proof {
            reveal_strlit("HIT");
            reveal_strlit("MISS");
            reveal_strlit("REVALIDATED");
            headers::lemma_visible_text("HIT"@);
            headers::lemma_visible_text("MISS"@);
            headers::lemma_visible_text("REVALIDATED"@);
        }
        match self {
            CacheUse::Hit => "HIT".to_owned(),
            CacheUse::Miss => "MISS".to_owned(),
            CacheUse::Revalidated => "REVALIDATED".to_owned(),
        }
    }
}

/// Where a request stands.
#[derive(Debug, Clone, Copy, PartialEq, Eq, Structural)]
pub enum Phase {
    /// The tier of this number is being asked.
    Limits(usize),
    /// The cache is being looked up.
    Lookup,
    /// The target is being asked.
    Target,
    /// The request is answered.
    Done,
}

/// What came of the last thing that was to be done.
pub enum Event {
    /// The rate limiter's answer.
    Checked(bool),
    /// The rate limiter could not answer.
    LimiterFailed(String),
    /// What the cache holds, and when it was looked up.
    Found(Option<CacheEntry>, u64),
    /// The head of the target's answer.
    Answered { status: u16, headers: HeaderMap, content_length: Option<u64> },
    /// The target could not be asked.
    Failed { is_timeout: bool, is_redirect: bool, cause: String },
}

/// What came of the last thing that was to be done.
pub enum EventView {
    Checked(bool),
    LimiterFailed(Seq<char>),
    Found(Option<CacheEntryView>, u64),
    Answered { status: u16, headers: HeaderValues, content_length: Option<u64> },
    Failed { is_timeout: bool, is_redirect: bool, cause: Seq<char> },
}

/// The view of an optional entry.
pub open spec fn entry_option(entry: Option<CacheEntry>) -> Option<CacheEntryView> {
    match entry {
        Some(entry) => Some(entry@),
        None => None,
    }
}

impl View for Event {
    type V = EventView;

    open spec fn view(&self) -> EventView {
        match self {
            Event::Checked(allowed) => EventView::Checked(*allowed),
            Event::LimiterFailed(cause) => EventView::LimiterFailed(cause@),
            Event::Found(entry, now) => EventView::Found(entry_option(*entry), *now),
            Event::Answered { status, headers, content_length } => EventView::Answered {
                status: *status,
                headers: header_values(*headers),
                content_length: *content_length,
            },
            Event::Failed { is_timeout, is_redirect, cause } => EventView::Failed {
                is_timeout: *is_timeout,
                is_redirect: *is_redirect,
                cause: cause@,
            },
        }
    }
}

/// What is to be done next.
pub enum Action {
    /// Ask the rate limiter about this tier.
    CheckLimit(LimitTier),
    /// Look the exchange's plan up in the cache.
    LookUp,
    /// Ask the target: this URL, with these headers.
    Fetch { url: String, headers: HeaderMap },
    /// Answer `429 Too Many Requests`.
    RefuseRate,
    /// Answer with a stored response, and say how the cache took part in it.
    Serve(CacheEntry, CacheUse),
    /// Answer with a stored response that the target has just confirmed, and say how the
    /// cache took part in it.
    ServeConfirmed(CacheEntry, CacheUse),
    /// Hand the target's answer on, and say how the cache took part in it, if it did.
    Relay(Option<CacheUse>),
    /// Answer with an error.
    Fail(AppError),
}

/// What is to be done next.
pub enum ActionView {
    CheckLimit(LimitTier),
    LookUp,
    Fetch { url: Seq<char>, headers: HeaderValues },
    RefuseRate,
    Serve(CacheEntryView, CacheUse),
    ServeConfirmed(CacheEntryView, CacheUse),
    Relay(Option<CacheUse>),
    Fail(Fault),
}

impl View for Action {
    type V = ActionView;

    open spec fn view(&self) -> ActionView {
        match self {
            Action::CheckLimit(tier) => ActionView::CheckLimit(*tier),
            Action::LookUp => ActionView::LookUp,
            Action::Fetch { url, headers } => ActionView::Fetch {
                url: url@,
                headers: header_values(*headers),
            },
            Action::RefuseRate => ActionView::RefuseRate,
            Action::Serve(entry, cache_use) => ActionView::Serve(entry@, *cache_use),
            Action::ServeConfirmed(entry, cache_use) => ActionView::ServeConfirmed(
                entry@,
                *cache_use,
            ),
            Action::Relay(cache_use) => ActionView::Relay(*cache_use),
            Action::Fail(error) => ActionView::Fail(proxy::fault_of(*error)),
        }
    }
}

/// The course of one request.
pub struct Exchange {
    url: TargetUrl,
    origin: Origin,
    phase: Phase,
    redirects_left: u32,
    plan: Option<CachePlan>,
    entry: Option<CacheEntry>,
}

/// The course of one request.
pub struct ExchangeView {
    /// The target, after the redirects so far.
    pub url: UrlView,
    /// The requesting site's host.
    pub origin: Option<Seq<char>>,
    /// Where the request stands.
    pub phase: Phase,
    /// How many redirects may still be followed.
    pub redirects_left: u32,
    /// How the response is cached, if it is.
    pub plan: Option<PlanView>,
    /// The stored response that is being revalidated, if there is one.
    pub entry: Option<CacheEntryView>,
}

impl View for Exchange {
    type V = ExchangeView;

    closed spec fn view(&self) -> ExchangeView {
        ExchangeView {
            url: self.url@,
            origin: text::text_option(self.origin.0),
            phase: self.phase,
            redirects_left: self.redirects_left,
            plan: cache::plan_option(self.plan),
            entry: entry_option(self.entry),
        }
    }
}

/// What an exchange is decided by: the configuration and the request.
pub struct Setup {
    pub tiers: Seq<LimitTier>,
    pub max_redirects: u32,
    pub result_max: u64,
    pub policy: PolicyView,
    pub cache: Option<CacheView>,
    pub request: HeaderValues,
}

/// What an exchange is decided by.
pub open spec fn setup_of(state: AppState, request: HeaderMap) -> Setup {
    Setup {
        tiers: state.config.connection.rate_limit@,
        max_redirects: state.config.proxy.max_redirects,
        result_max: state.config.connection.bandwidth_limit.result.max,
        policy: state.match_policy@,
        cache: match state.cache {
            Some(cache) => Some(cache@),
            None => None,
        },
        request: header_values(request),
    }
}

/// Whether a declared length is above the per-result cap.
pub open spec fn is_too_large(max: u64, length: u64) -> bool {
    max != 0 && length > max
}

/// The complaint about a declared length above the per-result cap.
pub open spec fn size_complaint(max: u64, length: u64) -> Seq<char> {
    "response Content-Length ("@ + text::decimal(length as nat) + ") exceeds per-result cap ("@
        + text::decimal(max as nat) + ")"@
}

/// The fault of a response that is too large.
pub open spec fn size_fault(max: u64, length: u64) -> Fault {
    Fault { code: 413, detail: size_complaint(max, length) }
}

/// Request headers without the conditions under which the target need not answer in full.
pub open spec fn unconditional(request: HeaderValues) -> HeaderValues {
    request.remove("if-none-match"@).remove("if-modified-since"@)
}

/// The headers with which the target is asked: the request's. While an entry is being
/// revalidated, the entry's validators stand in place of the client's, so that it is the
/// entry that the answer is about.
pub open spec fn fetch_headers(request: HeaderValues, x: ExchangeView) -> HeaderValues {
    match x.entry {
        Some(entry) => cache::validated(unconditional(proxy::forwarded(request, x.url)), entry),
        None => proxy::forwarded(request, x.url),
    }
}

/// The exchange asks its target.
pub open spec fn asked(request: HeaderValues, x: ExchangeView) -> (ExchangeView, ActionView) {
    (
        ExchangeView { phase: Phase::Target, ..x },
        ActionView::Fetch { url: x.url.href, headers: fetch_headers(request, x) },
    )
}

/// The exchange ends.
pub open spec fn ended(x: ExchangeView, action: ActionView) -> (ExchangeView, ActionView) {
    (ExchangeView { phase: Phase::Done, ..x }, action)
}

/// The exchange goes on after `passed` tiers: to the next tier, then to the cache, where
/// there is a plan for the request, then to the target.
pub open spec fn after_tiers(setup: Setup, x: ExchangeView, passed: nat) -> (
    ExchangeView,
    ActionView,
) {
    if passed < setup.tiers.len() {
        (
            ExchangeView { phase: Phase::Limits(passed as usize), ..x },
            ActionView::CheckLimit(setup.tiers[passed as int]),
        )
    } else {
        let plan = match setup.cache {
            Some(cache) => cache::plan_of(cache, x.url, setup.request),
            None => None,
        };
        let planned = ExchangeView { plan, ..x };
        if plan is Some {
            (ExchangeView { phase: Phase::Lookup, ..planned }, ActionView::LookUp)
        } else {
            asked(setup.request, planned)
        }
    }
}

/// The exchange goes on after the cache was looked up.
pub open spec fn after_lookup(
    setup: Setup,
    x: ExchangeView,
    found: Option<CacheEntryView>,
    now: u64,
) -> (ExchangeView, ActionView) {
    match found {
        Some(entry) => if cache::fresh(entry, now) && !freshness::asks_revalidation(
            headers::values_of(setup.request, "cache-control"@),
        ) {
            if is_too_large(setup.result_max, entry.body_len) {
                ended(x, ActionView::Fail(size_fault(setup.result_max, entry.body_len)))
            } else {
                ended(x, ActionView::Serve(entry, CacheUse::Hit))
            }
        } else {
            asked(setup.request, ExchangeView { entry: Some(entry), ..x })
        },
        None => asked(setup.request, x),
    }
}

/// Where a redirect leads: the location itself, or, where that is no URL, the location as
/// seen from the URL that redirects.
pub open spec fn redirect_of(base: UrlView, location: Seq<char>) -> Result<UrlView, Seq<char>> {
    match urls::url_parsed(location) {
        Ok(url) => Ok(url),
        Err(_) => urls::url_joined(base.href, location),
    }
}

/// The exchange goes on after a redirect.
pub open spec fn after_redirect(setup: Setup, x: ExchangeView, response: HeaderValues) -> (
    ExchangeView,
    ActionView,
) {
    if x.redirects_left == 0 {
        ended(x, ActionView::Fail(Fault { code: 502, detail: "redirect limit reached"@ }))
    } else {
        match headers::first_text(response, "location"@) {
            None => ended(
                x,
                ActionView::Fail(
                    Fault { code: 502, detail: "redirect without Location header"@ },
                ),
            ),
            Some(location) => redirected(setup, x, redirect_of(x.url, location)),
        }
    }
}

/// The exchange goes on to where a redirect leads, if it leads somewhere and policy allows
/// that.
pub open spec fn redirected(
    setup: Setup,
    x: ExchangeView,
    next: Result<UrlView, Seq<char>>,
) -> (ExchangeView, ActionView) {
    match next {
        Err(complaint) => ended(
            x,
            ActionView::Fail(Fault { code: 400, detail: complaint }),
        ),
        Ok(url) => match proxy::policy_fault(setup.policy, url, x.origin) {
            Some(fault) => ended(x, ActionView::Fail(fault)),
            None => asked(
                setup.request,
                ExchangeView { url, redirects_left: (x.redirects_left - 1) as u32, ..x },
            ),
        },
    }
}

/// How the cache took part in a response of the target's, if it did: a success in place
/// of a stored response is a revalidation.
pub open spec fn use_of(x: ExchangeView, status: u16) -> Option<CacheUse> {
    if x.plan is None {
        None
    } else if x.entry is Some && 200 <= status < 300 {
        Some(CacheUse::Revalidated)
    } else {
        Some(CacheUse::Miss)
    }
}

/// The one value of a header that a text writes, or none where it cannot be written.
pub open spec fn sole(value: Option<Seq<char>>) -> Seq<Seq<u8>> {
    match value {
        Some(s) => match headers::text_value(s) {
            Some(bytes) => seq![bytes],
            None => Seq::empty(),
        },
        None => Seq::empty(),
    }
}

/// Whether the target's answer confirms the entry that is being revalidated. An entry
/// without a validator cannot be confirmed: the target was not asked about it.
pub open spec fn confirms(x: ExchangeView, status: u16) -> bool {
    status == 304 && x.entry is Some && cache::has_validator(x.entry->0)
}

/// Whether a status sends the client elsewhere. `304 Not Modified` does not.
pub open spec fn is_redirect(status: u16) -> bool {
    300 <= status < 400 && status != 304
}

/// The exchange goes on after the target's answer.
pub open spec fn after_answer(
    setup: Setup,
    x: ExchangeView,
    status: u16,
    response: HeaderValues,
    content_length: Option<u64>,
) -> (ExchangeView, ActionView) {
    if confirms(x, status) {
        let entry = x.entry->0;
        let without = ExchangeView { entry: None, ..x };
        if is_too_large(setup.result_max, entry.body_len) {
            ended(without, ActionView::Fail(size_fault(setup.result_max, entry.body_len)))
        } else {
            ended(without, ActionView::ServeConfirmed(entry, CacheUse::Revalidated))
        }
    } else if is_redirect(status) {
        after_redirect(setup, x, response)
    } else if content_length is Some && is_too_large(setup.result_max, content_length->0) {
        ended(x, ActionView::Fail(size_fault(setup.result_max, content_length->0)))
    } else {
        ended(x, ActionView::Relay(use_of(x, status)))
    }
}

/// The fault of a target that could not be asked.
pub open spec fn failure(is_timeout: bool, is_redirect: bool, cause: Seq<char>) -> Fault {
    Fault {
        code: 502,
        detail: if is_timeout {
            "upstream timeout: "@ + cause
        } else if is_redirect {
            "too many redirects: "@ + cause
        } else {
            cause
        },
    }
}

/// Whether an event is one that an exchange waits for.
pub open spec fn is_awaited(setup: Setup, phase: Phase, event: EventView) -> bool {
    match event {
        EventView::Checked(_) => phase is Limits && phase->Limits_0 < setup.tiers.len(),
        EventView::LimiterFailed(_) => phase is Limits,
        EventView::Found(_, _) => phase is Lookup,
        EventView::Answered { .. } => phase is Target,
        EventView::Failed { .. } => phase is Target,
    }
}

/// The exchange goes on after an event that it waits for.
pub open spec fn stepped(setup: Setup, x: ExchangeView, event: EventView) -> (
    ExchangeView,
    ActionView,
) {
    match event {
        EventView::Checked(allowed) => if allowed {
            after_tiers(setup, x, (x.phase->Limits_0 + 1) as nat)
        } else {
            ended(x, ActionView::RefuseRate)
        },
        EventView::LimiterFailed(cause) => ended(
            x,
            ActionView::Fail(Fault { code: 503, detail: cause }),
        ),
        EventView::Found(entry, now) => after_lookup(setup, x, entry, now),
        EventView::Answered { status, headers, content_length } => after_answer(
            setup,
            x,
            status,
            headers,
            content_length,
        ),
        EventView::Failed { is_timeout, is_redirect, cause } => ended(
            x,
            ActionView::Fail(failure(is_timeout, is_redirect, cause)),
        ),
    }
}

/// The beginning of an exchange: its target, and what is to be done first; or what is
/// wrong with the request.
pub open spec fn begun(
    setup: Setup,
    target: Result<UrlView, Seq<char>>,
    origin: Option<Seq<char>>,
) -> Result<(ExchangeView, ActionView), Fault> {
    match target {
        Err(complaint) => Err(Fault { code: 400, detail: complaint }),
        Ok(url) => match proxy::policy_fault(setup.policy, url, origin) {
            Some(fault) => Err(fault),
            None => Ok(
                after_tiers(
                    setup,
                    ExchangeView {
                        url,
                        origin,
                        phase: Phase::Limits(0),
                        redirects_left: setup.max_redirects,
                        plan: None,
                        entry: None,
                    },
                    0,
                ),
            ),
        },
    }
}

fn complain_of_size(max: u64, length: u64) -> (r: AppError)
    ensures
        proxy::fault_of(r) == size_fault(max, length),
{
    let mut reason = "response Content-Length (".to_owned();
    reason.append(&to_decimal(length));
    reason.append(") exceeds per-result cap (");
    reason.append(&to_decimal(max));
    reason.append(")");
    AppError::TooLarge(reason)
}

impl Exchange {
    /// The plan under which the response is cached, if it is.
    pub fn plan(&self) -> (r: &Option<CachePlan>)
        ensures
            cache::plan_option(*r) == self@.plan,
    {
        &self.plan
    }

    fn ask(&mut self, request: &HeaderMap) -> (action: Action)
        requires
            headers::has_room(header_values(*request), 3),
        ensures
            (final(self)@, action@) == asked(header_values(*request), old(self)@),
    {
        self.phase = Phase::Target;
        let mut headers = forward_headers(request, &self.url);
        proof {
            let m = header_values(*request);
            proxy::lemma_relayed_room(m, Some("host"@), 3);
        }
        if let Some(entry) = &self.entry {
            proof {
                headers::lemma_known_names();
            }
            header_remove(&mut headers, "if-none-match");
            header_remove(&mut headers, "if-modified-since");
            Cache::add_validators(&mut headers, entry);
        }
        Action::Fetch { url: self.url.href.clone(), headers }
    }

    fn pass_tiers(&mut self, state: &AppState, request: &HeaderMap, passed: usize) -> (action:
        Action)
        requires
            headers::has_room(header_values(*request), 3),
        ensures
            (final(self)@, action@) == after_tiers(
                setup_of(*state, *request),
                old(self)@,
                passed as nat,
            ),
    {
        if passed < state.config.connection.rate_limit.len() {
            self.phase = Phase::Limits(passed);
            return Action::CheckLimit(state.config.connection.rate_limit[passed]);
        }
        self.plan = match &state.cache {
            Some(cache) => cache.plan(&self.url, request),
            None => None,
        };
        if self.plan.is_some() {
            self.phase = Phase::Lookup;
            return Action::LookUp;
        }
        self.ask(request)
    }

    /// Take up a request for a target: hold it against the policy, and say what is to be
    /// done first.
    pub fn take_up(state: &AppState, url: TargetUrl, origin: Origin, request: &HeaderMap) -> (r:
        Result<(Exchange, Action), AppError>)
        requires
            headers::has_room(header_values(*request), 3),
        ensures
            match begun(setup_of(*state, *request), Ok(url@), text::text_option(origin.0)) {
                Ok((x, action)) => r is Ok && r->Ok_0.0@ == x && r->Ok_0.1@ == action,
                Err(fault) => r is Err && proxy::fault_of(r->Err_0) == fault,
            },
    {
        match validate_target_policy(&state.match_policy, &url, &origin) {
            Ok(_) => {},
            Err(error) => {
                return Err(error);
            },
        }
        let mut exchange = Exchange {
            url,
            origin,
            phase: Phase::Limits(0),
            redirects_left: state.config.proxy.max_redirects,
            plan: None,
            entry: None,
        };
        let action = exchange.pass_tiers(state, request, 0);
        Ok((exchange, action))
    }

    /// Take up a request: find its target, hold it against the policy, and say what is to
    /// be done first.
    pub fn begin(
        state: &AppState,
        uri: &RequestTarget,
        origin: Origin,
        request: &HeaderMap,
    ) -> (r: Result<(Exchange, Action), AppError>)
        requires
            headers::has_room(header_values(*request), 3),
        ensures
            match begun(
                setup_of(*state, *request),
                proxy::target_of(*uri),
                text::text_option(origin.0),
            ) {
                Ok((x, action)) => r is Ok && r->Ok_0.0@ == x && r->Ok_0.1@ == action,
                Err(fault) => r is Err && proxy::fault_of(r->Err_0) == fault,
            },
    {
        match parse_target_url(uri) {
            Ok(url) => Exchange::take_up(state, url, origin, request),
            Err(error) => Err(error),
        }
    }

    fn end(&mut self, action: Action) -> (r: Action)
        ensures
            (final(self)@, r@) == ended(old(self)@, action@),
    {
        self.phase = Phase::Done;
        action
    }

    fn use_entry(
        &mut self,
        state: &AppState,
        request: &HeaderMap,
        entry: CacheEntry,
        now: u64,
    ) -> (action: Action)
        requires
            headers::has_room(header_values(*request), 3),
        ensures
            (final(self)@, action@) == after_lookup(
                setup_of(*state, *request),
                old(self)@,
                Some(entry@),
                now,
            ),
    {
        if Cache::is_fresh(&entry, now) && !request_requires_revalidation(request) {
            let max: u64 = state.config.connection.bandwidth_limit.result.max;
            if ResultSizeGuard::new(max).would_exceed(entry.body_len) {
                return self.end(Action::Fail(complain_of_size(max, entry.body_len)));
            }
            return self.end(Action::Serve(entry, CacheUse::Hit));
        }
        self.entry = Some(entry);
        self.ask(request)
    }

    /// Go on to where a redirect leads, if it leads somewhere and policy allows that.
    pub fn redirect(
        &mut self,
        state: &AppState,
        request: &HeaderMap,
        next: Result<TargetUrl, String>,
    ) -> (action: Action)
        requires
            headers::has_room(header_values(*request), 3),
            old(self)@.redirects_left > 0,
        ensures
            (final(self)@, action@) == redirected(
                setup_of(*state, *request),
                old(self)@,
                urls::url_result(next),
            ),
    {
        let url = match next {
            Ok(url) => url,
            Err(complaint) => {
                return self.end(Action::Fail(AppError::BadUrl(complaint)));
            },
        };
        match validate_target_policy(&state.match_policy, &url, &self.origin) {
            Ok(_) => {},
            Err(error) => {
                return self.end(Action::Fail(error));
            },
        }
        self.url = url;
        self.redirects_left = self.redirects_left - 1;
        self.ask(request)
    }

    fn follow(&mut self, state: &AppState, request: &HeaderMap, response: &HeaderMap) -> (action:
        Action)
        requires
            headers::has_room(header_values(*request), 3),
        ensures
            (final(self)@, action@) == after_redirect(
                setup_of(*state, *request),
                old(self)@,
                header_values(*response),
            ),
    {
        if self.redirects_left == 0 {
            return self.end(Action::Fail(AppError::Upstream("redirect limit reached".to_owned())));
        }
        proof {
            headers::lemma_known_names();
        }
        let location = match header_text(response, "location") {
            Some(location) => location,
            None => {
                return self.end(
                    Action::Fail(
                        AppError::Upstream("redirect without Location header".to_owned()),
                    ),
                );
            },
        };
        let next = match parse_url(&location) {
            Ok(url) => Ok(url),
            Err(_) => join_url(&self.url.href, &location),
        };
        self.redirect(state, request, next)
    }

    fn answer(
        &mut self,
        state: &AppState,
        request: &HeaderMap,
        status: u16,
        response: &HeaderMap,
        content_length: Option<u64>,
    ) -> (action: Action)
        requires
            headers::has_room(header_values(*request), 3),
        ensures
            (final(self)@, action@) == after_answer(
                setup_of(*state, *request),
                old(self)@,
                status,
                header_values(*response),
                content_length,
            ),
    {
        let guard = ResultSizeGuard::new(state.config.connection.bandwidth_limit.result.max);
        let max: u64 = state.config.connection.bandwidth_limit.result.max;
        let confirmed = match &self.entry {
            Some(entry) => status == 304 && Cache::can_validate(entry),
            None => false,
        };
        if confirmed {
            if let Some(entry) = self.entry.take() {
                if guard.would_exceed(entry.body_len) {
                    return self.end(Action::Fail(complain_of_size(max, entry.body_len)));
                }
                return self.end(Action::ServeConfirmed(entry, CacheUse::Revalidated));
            }
        }
        if 300 <= status && status < 400 && status != 304 {
            return self.follow(state, request, response);
        }
        if let Some(length) = content_length {
            if guard.would_exceed(length) {
                return self.end(Action::Fail(complain_of_size(max, length)));
            }
        }
        let cache_use = if self.plan.is_none() {
            None
        } else if self.entry.is_some() && 200 <= status && status < 300 {
            Some(CacheUse::Revalidated)
        } else {
            Some(CacheUse::Miss)
        };
        self.end(Action::Relay(cache_use))
    }

    /// Go on after an event that the exchange waits for.
    pub fn step(&mut self, state: &AppState, request: &HeaderMap, event: Event) -> (action: Action)
        requires
            headers::has_room(header_values(*request), 3),
            is_awaited(setup_of(*state, *request), old(self)@.phase, event@),
        ensures
            (final(self)@, action@) == stepped(
                setup_of(*state, *request),
                old(self)@,
                event@,
            ),
    {
        let tiers: usize = state.config.connection.rate_limit.len();
        match event {
            Event::Checked(allowed) => match self.phase {
                Phase::Limits(tier) if allowed && tier < tiers => self.pass_tiers(
                    state,
                    request,
                    tier + 1,
                ),
                _ => self.end(Action::RefuseRate),
            },
            Event::LimiterFailed(cause) => self.end(Action::Fail(AppError::LimitBackend(cause))),
            Event::Found(found, now) => match found {
                Some(entry) => self.use_entry(state, request, entry, now),
                None => self.ask(request),
            },
            Event::Answered { status, headers, content_length } => self.answer(
                state,
                request,
                status,
                &headers,
                content_length,
            ),
            Event::Failed { is_timeout, is_redirect, cause } => self.end(
                Action::Fail(AppError::from_upstream(is_timeout, is_redirect, &cause)),
            ),
        }
    }
}

/// Headers that say how the cache took part in a response, if it did.
pub open spec fn labelled(m: HeaderValues, cache_use: Option<CacheUse>) -> HeaderValues {
    match cache_use {
        Some(cache_use) => m.insert(
            "x-cache"@,
            seq![vstd::utf8::encode_utf8(cache_use.words())],
        ),
        None => m,
    }
}

/// The headers with which the target's answer is handed on. Its length is left out where
/// the per-result cap may cut the body short.
pub fn relayed_headers(response: &HeaderMap, result_max: u64, cache_use: Option<CacheUse>) -> (r:
    HeaderMap)
    requires
        headers::has_room(header_values(*response), 2),
    ensures
        header_values(r) == labelled(
            proxy::returned(header_values(*response), result_max != 0),
            cache_use,
        ),
{
    let mut out = copy_response_headers(response, result_max != 0);
    proof {
        let m = header_values(*response);
        proxy::lemma_relayed_room(m, Some("content-length"@), 2);
        proxy::lemma_relayed_room(m, None, 2);
    }
    if let Some(cache_use) = cache_use {
        add_cache_header(&mut out, &cache_use.label());
    }
    out
}

/// The headers with which a stored response is served.
pub fn stored_headers(entry: &CacheEntry, result_max: u64, cache_use: CacheUse) -> (r: HeaderMap)
    requires
        cache::entry_has_room(entry@.headers, 2),
    ensures
        header_values(r) == labelled(
            proxy::returned(
                headers::collected(cache::entry_lines(entry@.headers)),
                result_max != 0,
            ),
            Some(cache_use),
        ),
{
    relayed_headers(&headers_from_entry(entry), result_max, Some(cache_use))
}

/// Whether an exchange is under way as it should be: policy allows its target, it has not
/// followed more redirects than it may, it asks a tier that there is, and what it looks
/// up or revalidates is part of a plan.
pub open spec fn is_sound(setup: Setup, x: ExchangeView) -> bool {
    &&& proxy::policy_fault(setup.policy, x.url, x.origin) is None
    &&& x.redirects_left <= setup.max_redirects
    &&& x.phase is Limits ==> x.phase->Limits_0 < setup.tiers.len() && x.entry is None
    &&& x.phase is Lookup ==> x.plan is Some
    &&& x.entry is Some ==> x.plan is Some
}

/// An exchange begins soundly.
pub proof fn law_begins_soundly(
    setup: Setup,
    target: Result<UrlView, Seq<char>>,
    origin: Option<Seq<char>>,
)
    requires
        setup.tiers.len() <= usize::MAX,
    ensures
        begun(setup, target, origin) is Ok ==> is_sound(
            setup,
            begun(setup, target, origin)->Ok_0.0,
        ),
{
}

/// An exchange stays sound.
pub proof fn law_stays_sound(setup: Setup, x: ExchangeView, event: EventView)
    requires
        setup.tiers.len() <= usize::MAX,
        is_sound(setup, x),
        is_awaited(setup, x.phase, event),
    ensures
        is_sound(setup, stepped(setup, x, event).0),
{
}

/// Nothing is fetched but what policy allows: whatever the target answers, and however
/// often it redirects, the URL that is asked next is the exchange's, and the policy has
/// no fault to find with it and the requesting origin.
pub proof fn law_only_allowed_targets_are_fetched(setup: Setup, x: ExchangeView, event: EventView)
    requires
        is_sound(setup, x),
        is_awaited(setup, x.phase, event),
        stepped(setup, x, event).1 is Fetch,
    ensures
        ({
            let (next, action) = stepped(setup, x, event);
            &&& action->url == next.url.href
            &&& proxy::policy_fault(setup.policy, next.url, next.origin) is None
            &&& next.origin == x.origin
        }),
{
}

/// A request that policy does not allow is refused, and nothing is done for it.
pub proof fn law_denied_requests_are_refused(setup: Setup, url: UrlView, origin: Option<Seq<char>>)
    requires
        proxy::policy_fault(setup.policy, url, origin) is Some,
    ensures
        begun(setup, Ok(url), origin) == Err::<(ExchangeView, ActionView), Fault>(
            proxy::policy_fault(setup.policy, url, origin)->0,
        ),
{
}

/// A preflight is answered as the request that is to follow would be: it is allowed
/// exactly when that is taken up, and refused for the same reason.
pub proof fn law_preflight_agrees(
    setup: Setup,
    target: Result<UrlView, Seq<char>>,
    origin: Option<Seq<char>>,
)
    ensures
        match cors::preflight_fault(setup.policy, target, origin) {
            Some(fault) => begun(setup, target, origin) == Err::<
                (ExchangeView, ActionView),
                Fault,
            >(fault),
            None => begun(setup, target, origin) is Ok,
        },
{
}

/// Redirects are bounded: each one that is followed uses one of those that are left, and
/// with none left none is followed.
pub proof fn law_redirects_are_bounded(setup: Setup, x: ExchangeView, event: EventView)
    requires
        is_awaited(setup, x.phase, event),
    ensures
        x.phase is Target && stepped(setup, x, event).1 is Fetch ==> stepped(
            setup,
            x,
            event,
        ).0.redirects_left == x.redirects_left - 1,
        !(x.phase is Target) ==> stepped(setup, x, event).0.redirects_left == x.redirects_left,
        stepped(setup, x, event).0.redirects_left <= x.redirects_left,
{
}

/// Every tier is asked, in order, before the cache is looked up or the target is asked,
/// and one that refuses ends the exchange.
pub proof fn law_all_tiers_are_asked_first(setup: Setup, x: ExchangeView, event: EventView)
    requires
        x.phase is Limits,
        is_awaited(setup, x.phase, event),
    ensures
        ({
            let (next, action) = stepped(setup, x, event);
            let tier = x.phase->Limits_0;
            &&& action is Fetch || action is LookUp ==> event == EventView::Checked(true)
                && tier + 1 == setup.tiers.len()
            &&& action is CheckLimit ==> event == EventView::Checked(true) && action->CheckLimit_0
                == setup.tiers[tier + 1]
            &&& event == EventView::Checked(false) ==> action is RefuseRate && next.phase is Done
        }),
{
}

/// A stored response is served without asking the target only while it is fresh and the
/// client did not ask for revalidation.
pub proof fn law_only_fresh_entries_are_served(
    setup: Setup,
    x: ExchangeView,
    found: Option<CacheEntryView>,
    now: u64,
)
    requires
        stepped(setup, x, EventView::Found(found, now)).1 is Serve,
    ensures
        found is Some,
        stepped(setup, x, EventView::Found(found, now)).1 == ActionView::Serve(
            found->0,
            CacheUse::Hit,
        ),
        cache::fresh(found->0, now),
        !freshness::asks_revalidation(headers::values_of(setup.request, "cache-control"@)),
{
}

/// A response whose declared length is above the cap is refused with `413`, and nothing
/// of it is handed on.
pub proof fn law_declared_excess_is_refused(
    setup: Setup,
    x: ExchangeView,
    status: u16,
    response: HeaderValues,
    length: u64,
)
    requires
        setup.result_max != 0,
        length > setup.result_max,
        !is_redirect(status),
        !confirms(x, status),
    ensures
        after_answer(setup, x, status, response, Some(length)).1 == ActionView::Fail(
            size_fault(setup.result_max, length),
        ),
        size_fault(setup.result_max, length).code == 413,
{
}

/// A confirmed entry is served in place of the target's empty answer, and a response is
/// labelled exactly when the request had a plan.
pub proof fn law_labels(
    setup: Setup,
    x: ExchangeView,
    status: u16,
    response: HeaderValues,
    content_length: Option<u64>,
)
    ensures
        ({
            let action = after_answer(setup, x, status, response, content_length).1;
            &&& action is ServeConfirmed ==> {
                &&& status == 304
                &&& x.entry is Some
                &&& cache::has_validator(x.entry->0)
                &&& action == ActionView::ServeConfirmed(x.entry->0, CacheUse::Revalidated)
            }
            &&& action is Relay ==> (action->Relay_0 is Some <==> x.plan is Some)
            &&& action is Relay && action->Relay_0 == Some(CacheUse::Revalidated)
                ==> x.entry is Some && 200 <= status < 300
        }),
{
}

/// The target's status is handed on: an answer that neither leads elsewhere, nor confirms
/// an entry, nor declares too much is relayed.
pub proof fn law_answers_are_handed_on(
    setup: Setup,
    x: ExchangeView,
    status: u16,
    response: HeaderValues,
    content_length: Option<u64>,
)
    requires
        !is_redirect(status),
        !confirms(x, status),
        content_length is Some ==> !is_too_large(setup.result_max, content_length->0),
    ensures
        after_answer(setup, x, status, response, content_length).1 == ActionView::Relay(
            use_of(x, status),
        ),
{
}

/// A `304 Not Modified` that no stored response awaits answers the client's own condition,
/// and reaches the client.
pub proof fn law_not_modified_reaches_the_client(
    setup: Setup,
    x: ExchangeView,
    response: HeaderValues,
    content_length: Option<u64>,
)
    requires
        x.entry is None || !cache::has_validator(x.entry->0),
        content_length is Some ==> !is_too_large(setup.result_max, content_length->0),
    ensures
        after_answer(setup, x, 304, response, content_length).1 == ActionView::Relay(
            use_of(x, 304),
        ),
{
}

/// While an entry is being revalidated, the conditions that the target is asked under are
/// the entry's, whatever the client's are; the client's other headers go on.
pub proof fn law_entries_are_asked_about(request: HeaderValues, x: ExchangeView, name: Seq<char>)
    requires
        x.entry is Some,
    ensures
        ({
            let sent = fetch_headers(request, x);
            let entry = x.entry->0;
            &&& name == "if-none-match"@ ==> headers::values_of(sent, name) == sole(entry.etag)
            &&& name == "if-modified-since"@ ==> headers::values_of(sent, name) == sole(
                entry.last_modified,
            )
            &&& name != "if-none-match"@ && name != "if-modified-since"@ ==> headers::values_of(
                sent,
                name,
            ) == headers::values_of(proxy::forwarded(request, x.url), name)
        }),
{
    reveal_strlit("if-none-match");
    reveal_strlit("if-modified-since");
    assert("if-none-match"@.len() != "if-modified-since"@.len());
}

/// An exchange after some events, with what was to be done after each.
pub open spec fn ran(setup: Setup, x: ExchangeView, events: Seq<EventView>) -> (
    ExchangeView,
    Seq<ActionView>,
)
    decreases events.len(),
{
    if events.len() == 0 {
        (x, Seq::empty())
    } else {
        let (before, actions) = ran(setup, x, events.drop_last());
        let (after, action) = stepped(setup, before, events.last());
        (after, actions.push(action))
    }
}

/// Whether each of some events is awaited when it comes.
pub open spec fn all_awaited(setup: Setup, x: ExchangeView, events: Seq<EventView>) -> bool
    decreases events.len(),
{
    events.len() > 0 ==> all_awaited(setup, x, events.drop_last()) && is_awaited(
        setup,
        ran(setup, x, events.drop_last()).0.phase,
        events.last(),
    )
}

/// How many of some actions ask a target.
pub open spec fn fetches(actions: Seq<ActionView>) -> nat
    decreases actions.len(),
{
    if actions.len() == 0 {
        0
    } else if actions.last() is Fetch {
        fetches(actions.drop_last()) + 1
    } else {
        fetches(actions.drop_last())
    }
}

/// Whatever happens, a request asks no more targets than one for itself and one for each
/// redirect that it may follow, and every one of them is one that policy allows.
pub proof fn law_fetches_are_bounded(
    setup: Setup,
    url: UrlView,
    origin: Option<Seq<char>>,
    events: Seq<EventView>,
)
    requires
        setup.tiers.len() <= usize::MAX,
        begun(setup, Ok(url), origin) is Ok,
        all_awaited(setup, begun(setup, Ok(url), origin)->Ok_0.0, events),
    ensures
        ({
            let (x, first) = begun(setup, Ok(url), origin)->Ok_0;
            let (end, actions) = ran(setup, x, events);
            &&& fetches(seq![first] + actions) <= setup.max_redirects + 1
            &&& proxy::policy_fault(setup.policy, end.url, origin) is None
        }),
{
    let (x, first) = begun(setup, Ok(url), origin)->Ok_0;
    law_begins_soundly(setup, Ok(url), origin);
    lemma_fetches(setup, x, first, events);
}

proof fn lemma_fetches(setup: Setup, x: ExchangeView, first: ActionView, events: Seq<EventView>)
    requires
        setup.tiers.len() <= usize::MAX,
        is_sound(setup, x),
        x.redirects_left == setup.max_redirects,
        first is Fetch <==> x.phase is Target,
        !(x.phase is Done),
        all_awaited(setup, x, events),
    ensures
        ({
            let (end, actions) = ran(setup, x, events);
            &&& is_sound(setup, end)
            &&& end.origin == x.origin
            &&& end.phase is Limits || end.phase is Lookup ==> fetches(seq![first] + actions) == 0
                && end.redirects_left == setup.max_redirects
            &&& fetches(seq![first] + actions) + end.redirects_left <= setup.max_redirects + 1
        }),
    decreases events.len(),
{
    if events.len() == 0 {
        assert(seq![first] + Seq::empty() =~= seq![first]);
        assert(seq![first].drop_last() =~= Seq::empty());
        assert(fetches(Seq::empty()) == 0);
    } else {
        lemma_fetches(setup, x, first, events.drop_last());
        let (before, actions) = ran(setup, x, events.drop_last());
        let (after, action) = stepped(setup, before, events.last());
        law_stays_sound(setup, before, events.last());
        law_redirects_are_bounded(setup, before, events.last());
        assert((seq![first] + actions.push(action)).drop_last() =~= seq![first] + actions);
        assert((seq![first] + actions.push(action)).last() == action);
    }
}

/// Every answer from 300 to 399 but 304 is a redirect, and is followed: with redirects left
/// and a `Location` that leads to a URL which the policy allows, exactly that URL is asked
/// next, with the request's headers.
pub proof fn law_redirects_are_followed(
    setup: Setup,
    x: ExchangeView,
    status: u16,
    response: HeaderValues,
    content_length: Option<u64>,
    location: Seq<char>,
    url: UrlView,
)
    requires
        300 <= status <= 399,
        status != 304,
        x.redirects_left > 0,
        response.contains_key("location"@),
        headers::value_text(response["location"@][0]) == Some(location),
        urls::url_parsed(location) == Ok::<UrlView, Seq<char>>(url) || (urls::url_parsed(location)
            is Err && urls::url_joined(x.url.href, location) == Ok::<UrlView, Seq<char>>(url)),
        proxy::policy_fault(setup.policy, url, x.origin) is None,
    ensures
        ({
            let (next, action) = after_answer(setup, x, status, response, content_length);
            &&& action is Fetch
            &&& action->url == url.href
            &&& x.entry is None ==> action->headers == proxy::forwarded(setup.request, url)
            &&& next == ExchangeView {
                url,
                phase: Phase::Target,
                redirects_left: (x.redirects_left - 1) as u32,
                ..x
            }
        }),
{
}

/// No other answer leads elsewhere.
pub proof fn law_only_redirects_lead_elsewhere(
    setup: Setup,
    x: ExchangeView,
    status: u16,
    response: HeaderValues,
    content_length: Option<u64>,
)
    requires
        status < 300 || status > 399 || status == 304,
    ensures
        ({
            let (next, action) = after_answer(setup, x, status, response, content_length);
            &&& !(action is Fetch || action is LookUp || action is CheckLimit || action
                is RefuseRate || action is Serve)
            &&& next.phase is Done
            &&& next.url == x.url
            &&& next.redirects_left == x.redirects_left
            &&& status != 304 ==> !(action is ServeConfirmed)
        }),
{
}

/// A redirect that cannot be followed ends the request: with none left or nowhere to go as a
/// failure of the target's, with an unreadable destination as a bad request, and with one
/// that the policy is against as the policy says.
pub proof fn law_redirects_fail(
    setup: Setup,
    x: ExchangeView,
    status: u16,
    response: HeaderValues,
    content_length: Option<u64>,
)
    requires
        300 <= status <= 399,
        status != 304,
    ensures
        ({
            let action = after_answer(setup, x, status, response, content_length).1;
            let known = response.contains_key("location"@) && headers::value_text(
                response["location"@][0],
            ) is Some;
            let location = headers::value_text(response["location"@][0])->0;
            let direct = urls::url_parsed(location);
            let joined = urls::url_joined(x.url.href, location);
            &&& x.redirects_left == 0 ==> action == ActionView::Fail(
                Fault { code: 502, detail: "redirect limit reached"@ },
            )
            &&& x.redirects_left > 0 && !known ==> action == ActionView::Fail(
                Fault { code: 502, detail: "redirect without Location header"@ },
            )
            &&& x.redirects_left > 0 && known && direct is Err && joined is Err ==> action
                == ActionView::Fail(Fault { code: 400, detail: joined->Err_0 })
            &&& x.redirects_left > 0 && known && direct is Ok && proxy::policy_fault(
                setup.policy,
                direct->Ok_0,
                x.origin,
            ) is Some ==> action == ActionView::Fail(
                proxy::policy_fault(setup.policy, direct->Ok_0, x.origin)->0,
            )
            &&& x.redirects_left > 0 && known && direct is Err && joined is Ok
                && proxy::policy_fault(setup.policy, joined->Ok_0, x.origin) is Some ==> action
                == ActionView::Fail(
                proxy::policy_fault(setup.policy, joined->Ok_0, x.origin)->0,
            )
        }),
{
}

/// What is found in the cache is served as a hit exactly while fewer seconds have passed
/// since it was stored than it may be kept, it need not be revalidated each time and the
/// client does not ask for that; in every other case the target is asked, about the entry
/// where there is one.
pub proof fn law_lookups(setup: Setup, x: ExchangeView, entry: CacheEntryView, now: u64)
    ensures
        ({
            let asked_for = freshness::asks_revalidation(
                headers::values_of(setup.request, "cache-control"@),
            );
            let young = !entry.revalidate && !asked_for && (if now >= entry.created_at {
                now - entry.created_at < entry.ttl
            } else {
                0 < entry.ttl
            });
            let (next, action) = after_lookup(setup, x, Some(entry), now);
            let (plain, missed) = after_lookup(setup, x, None, now);
            &&& young && (setup.result_max == 0 || entry.body_len <= setup.result_max) ==> action
                == ActionView::Serve(entry, CacheUse::Hit) && next.phase is Done
            &&& young && 0 < setup.result_max < entry.body_len ==> action is Fail
                && action->Fail_0.code == 413 && next.phase is Done
            &&& !young ==> {
                &&& action is Fetch
                &&& action->url == x.url.href
                &&& next == ExchangeView { phase: Phase::Target, entry: Some(entry), ..x }
            }
            &&& missed is Fetch
            &&& missed->url == x.url.href
            &&& plain == ExchangeView { phase: Phase::Target, ..x }
            &&& x.entry is None ==> missed->headers == proxy::forwarded(setup.request, x.url)
        }),
{
}

/// A request begins with the first tier, where there is one, and with all its redirects; the
/// cache is looked up behind the last tier exactly where there is a plan for the request,
/// and otherwise the target is asked.
pub proof fn law_order_of_things(
    setup: Setup,
    url: UrlView,
    origin: Option<Seq<char>>,
    x: ExchangeView,
    passed: nat,
)
    requires
        setup.tiers.len() <= usize::MAX,
    ensures
        begun(setup, Ok(url), origin) is Ok <==> proxy::policy_fault(setup.policy, url, origin)
            is None,
        begun(setup, Ok(url), origin) is Ok ==> {
            let (first, action) = begun(setup, Ok(url), origin)->Ok_0;
            &&& first.url == url
            &&& first.origin == origin
            &&& first.redirects_left == setup.max_redirects
            &&& first.entry is None
            &&& setup.tiers.len() > 0 ==> action == ActionView::CheckLimit(setup.tiers[0])
                && first.phase == Phase::Limits(0)
        },
        passed < setup.tiers.len() ==> after_tiers(setup, x, passed) == (
            ExchangeView { phase: Phase::Limits(passed as usize), ..x },
            ActionView::CheckLimit(setup.tiers[passed as int]),
        ),
        passed >= setup.tiers.len() ==> {
            let (next, action) = after_tiers(setup, x, passed);
            let plan = if setup.cache is Some {
                cache::plan_of(setup.cache->0, x.url, setup.request)
            } else {
                None
            };
            &&& next.plan == plan
            &&& next.url == x.url
            &&& next.redirects_left == x.redirects_left
            &&& plan is Some ==> action is LookUp && next.phase is Lookup
            &&& plan is None ==> action is Fetch && action->url == x.url.href && next.phase
                is Target
        },
{
}

/// What could not be done ends the request: a refusal of the limiter's with `429`, a failure
/// of it with `503`, and a failure of the target's with `502`, each with its cause.
pub proof fn law_failures(setup: Setup, x: ExchangeView, cause: Seq<char>, is_redirect: bool)
    ensures
        stepped(setup, x, EventView::Checked(false)).1 is RefuseRate,
        stepped(setup, x, EventView::LimiterFailed(cause)).1 == ActionView::Fail(
            Fault { code: 503, detail: cause },
        ),
        stepped(
            setup,
            x,
            EventView::Failed { is_timeout: true, is_redirect, cause },
        ).1 == ActionView::Fail(Fault { code: 502, detail: "upstream timeout: "@ + cause }),
        stepped(
            setup,
            x,
            EventView::Failed { is_timeout: false, is_redirect: true, cause },
        ).1 == ActionView::Fail(Fault { code: 502, detail: "too many redirects: "@ + cause }),
        stepped(
            setup,
            x,
            EventView::Failed { is_timeout: false, is_redirect: false, cause },
        ).1 == ActionView::Fail(Fault { code: 502, detail: cause }),
        stepped(setup, x, EventView::Checked(false)).0.phase is Done,
        stepped(setup, x, EventView::LimiterFailed(cause)).0.phase is Done,
        stepped(
            setup,
            x,
            EventView::Failed { is_timeout: true, is_redirect, cause },
        ).0.phase is Done,
{
}

/// What the target answers, and it is not a redirect, is handed on, unless it declares more
/// than the cap allows: then it is refused, and the reason names both lengths.
pub proof fn law_answers(
    setup: Setup,
    x: ExchangeView,
    status: u16,
    response: HeaderValues,
    length: u64,
)
    requires
        status < 300 || status > 399,
    ensures
        after_answer(setup, x, status, response, None).1 is Relay,
        setup.result_max == 0 || length <= setup.result_max ==> after_answer(
            setup,
            x,
            status,
            response,
            Some(length),
        ).1 is Relay,
        0 < setup.result_max < length ==> after_answer(
            setup,
            x,
            status,
            response,
            Some(length),
        ).1 == ActionView::Fail(
            Fault {
                code: 413,
                detail: "response Content-Length ("@ + text::decimal(length as nat)
                    + ") exceeds per-result cap ("@ + text::decimal(setup.result_max as nat) + ")"@,
            },
        ),
        after_answer(setup, x, status, response, None).1 == ActionView::Relay(
            if x.plan is None {
                None
            } else if x.entry is Some && 200 <= status <= 299 {
                Some(CacheUse::Revalidated)
            } else {
                Some(CacheUse::Miss)
            },
        ),
{
}

/// With a validator that can be written, `304 Not Modified` serves the entry that was asked
/// about, unless it is too large for the cap, and labels it as revalidated.
pub proof fn law_confirmed_entries_are_served(
    setup: Setup,
    x: ExchangeView,
    response: HeaderValues,
    content_length: Option<u64>,
)
    requires
        x.entry is Some,
        (x.entry->0.etag is Some && headers::text_value(x.entry->0.etag->0) is Some) || (
        x.entry->0.last_modified is Some && headers::text_value(x.entry->0.last_modified->0)
            is Some),
    ensures
        ({
            let action = after_answer(setup, x, 304, response, content_length).1;
            let max = setup.result_max;
            &&& max == 0 || x.entry->0.body_len <= max ==> action == ActionView::ServeConfirmed(
                x.entry->0,
                CacheUse::Revalidated,
            )
            &&& 0 < max < x.entry->0.body_len ==> action is Fail && action->Fail_0.code == 413
        }),
{
}

/// The diagnostic header has one value, one of three words, and no other header is touched.
pub proof fn law_diagnostic_header(m: HeaderValues, cache_use: CacheUse, name: Seq<char>)
    ensures
        CacheUse::Hit.words() == seq!['H', 'I', 'T'],
        CacheUse::Miss.words() == seq!['M', 'I', 'S', 'S'],
        CacheUse::Revalidated.words() == seq![
            'R',
            'E',
            'V',
            'A',
            'L',
            'I',
            'D',
            'A',
            'T',
            'E',
            'D',
        ],
        labelled(m, None) == m,
        headers::values_of(labelled(m, Some(cache_use)), "x-cache"@) == seq![
            vstd::utf8::encode_utf8(cache_use.words()),
        ],
        name != "x-cache"@ ==> headers::values_of(labelled(m, Some(cache_use)), name)
            == headers::values_of(m, name),
{
    reveal_strlit("HIT");
    reveal_strlit("MISS");
    reveal_strlit("REVALIDATED");
    assert("HIT"@ =~= seq!['H', 'I', 'T']);
    assert("MISS"@ =~= seq!['M', 'I', 'S', 'S']);
    assert("REVALIDATED"@ =~= seq!['R', 'E', 'V', 'A', 'L', 'I', 'D', 'A', 'T', 'E', 'D']);
}

/// A response is handed on with the headers that come back from the target, and a stored one
/// with those that were stored, as if they had just come: without the length exactly under
/// a cap, and with the diagnostic header.
pub proof fn law_headers_of_answers(
    response: HeaderMap,
    entry: CacheEntry,
    result_max: u64,
    cache_use: CacheUse,
    relayed: HeaderMap,
    stored: HeaderMap,
    name: Seq<char>,
)
    requires
        call_ensures(relayed_headers, (&response, result_max, Some(cache_use)), relayed),
        call_ensures(stored_headers, (&entry, result_max, cache_use), stored),
        name != "x-cache"@,
    ensures
        headers::values_of(header_values(relayed), name) == if name == "content-length"@
            && result_max > 0 {
            Seq::empty()
        } else {
            headers::values_of(proxy::relayed(header_values(response), None), name)
        },
        headers::values_of(header_values(stored), name) == if name == "content-length"@
            && result_max > 0 {
            Seq::empty()
        } else {
            headers::values_of(
                proxy::relayed(headers::collected(cache::entry_lines(entry@.headers)), None),
                name,
            )
        },
        headers::values_of(header_values(relayed), "x-cache"@) == seq![
            vstd::utf8::encode_utf8(cache_use.words()),
        ],
        headers::values_of(header_values(stored), "x-cache"@) == seq![
            vstd::utf8::encode_utf8(cache_use.words()),
        ],
{
    proxy::law_responses_come_back(header_values(response), name);
    proxy::law_responses_come_back(
        headers::collected(cache::entry_lines(entry@.headers)),
        name,
    );
}

/// An exchange is decided by what is configured: its tiers, its redirects, its cap, its
/// policy and its cache, and by the request's headers.
pub proof fn law_setup(state: AppState, request: HeaderMap)
    ensures
        ({
            let setup = setup_of(state, request);
            &&& setup.tiers == state.config.connection.rate_limit@
            &&& setup.max_redirects == state.config.proxy.max_redirects
            &&& setup.result_max == state.config.connection.bandwidth_limit.result.max
            &&& setup.policy == state.match_policy@
            &&& setup.cache is Some <==> state.cache is Some
            &&& setup.cache is Some ==> setup.cache->0 == state.cache->0@
            &&& setup.request == header_values(request)
        }),
{
}

/// A request is taken up as its target, its origin and its headers say.
pub proof fn law_beginning(
    state: AppState,
    uri: RequestTarget,
    origin: Origin,
    request: HeaderMap,
    r: Result<(Exchange, Action), AppError>,
)
    requires
        call_ensures(Exchange::begin, (&state, &uri, origin, &request), r),
    ensures
        ({
            let setup = setup_of(state, request);
            let target = proxy::target_of(uri);
            let host = text::text_option(origin.0);
            &&& r is Ok <==> target is Ok && proxy::policy_fault(setup.policy, target->Ok_0, host)
                is None
            &&& target is Err ==> r->Err_0.code() == 400 && r->Err_0.detail() == target->Err_0
            &&& r is Ok ==> Ok::<(ExchangeView, ActionView), Fault>(
                (r->Ok_0.0@, r->Ok_0.1@),
            ) == begun(setup, target, host)
        }),
{
}

/// Whenever the target is asked, it is asked with the headers of the client's request that
/// go on, and its own host; the two conditions are the client's, unless an entry is being
/// revalidated, and then they are the entry's.
pub proof fn law_fetches_carry_the_request(
    setup: Setup,
    x: ExchangeView,
    event: EventView,
    name: Seq<char>,
)
    requires
        is_awaited(setup, x.phase, event),
        stepped(setup, x, event).1 is Fetch,
    ensures
        ({
            let (next, action) = stepped(setup, x, event);
            let sent = headers::values_of(action->headers, name);
            if next.entry is Some && name == "if-none-match"@ {
                sent == sole(next.entry->0.etag)
            } else if next.entry is Some && name == "if-modified-since"@ {
                sent == sole(next.entry->0.last_modified)
            } else {
                sent == headers::values_of(proxy::forwarded(setup.request, next.url), name)
            }
        }),
{
    let (next, action) = stepped(setup, x, event);
    assert(action->headers == fetch_headers(setup.request, next));
    if next.entry is Some {
        law_entries_are_asked_about(setup.request, next, name);
    }
}

/// A step of an exchange is the one that the rules above give: in particular an answer from
/// 300 to 399 but 304, with redirects left and a `Location` that leads to a URL which the
/// policy allows, has exactly that URL asked next.
pub proof fn law_steps(
    exchange: &mut Exchange,
    state: AppState,
    request: HeaderMap,
    event: Event,
    action: Action,
    location: Seq<char>,
    url: UrlView,
)
    requires
        call_ensures(Exchange::step, (exchange, &state, &request, event), action),
    ensures
        (final(exchange)@, action@) == stepped(
            setup_of(state, request),
            old(exchange)@,
            event@,
        ),
        ({
            let response = header_values(event->headers);
            &&& event is Answered
            &&& 300 <= event->status <= 399
            &&& event->status != 304
            &&& old(exchange)@.redirects_left > 0
            &&& response.contains_key("location"@)
            &&& headers::value_text(response["location"@][0]) == Some(location)
            &&& urls::url_parsed(location) == Ok::<UrlView, Seq<char>>(url)
            &&& proxy::policy_fault(state.match_policy@, url, old(exchange)@.origin) is None
        }) ==> action is Fetch && action->url@ == url.href && final(exchange)@.redirects_left
            == old(exchange)@.redirects_left - 1,
        event is Answered && (event->status < 300 || event->status > 399 || event->status == 304)
            ==> !(action is Fetch),
{
    if event is Answered {
        let response = header_values(event->headers);
        let setup = setup_of(state, request);
        let x = old(exchange)@;
        if 300 <= event->status <= 399 && event->status != 304 && x.redirects_left > 0
            && response.contains_key("location"@) && headers::value_text(
            response["location"@][0],
        ) == Some(location) && urls::url_parsed(location) == Ok::<UrlView, Seq<char>>(url)
            && proxy::policy_fault(setup.policy, url, x.origin) is None {
            law_redirects_are_followed(
                setup,
                x,
                event->status,
                response,
                event->content_length,
                location,
                url,
            );
        }
        if event->status < 300 || event->status > 399 || event->status == 304 {
            law_only_redirects_lead_elsewhere(
                setup,
                x,
                event->status,
                response,
                event->content_length,
            );
        }
    }
}

/// A request is taken up for a target as it begins with one, a redirect leads on as stated,
/// and a label is its words.
pub proof fn law_taking_up(
    state: AppState,
    url: TargetUrl,
    origin: Origin,
    request: HeaderMap,
    r: Result<(Exchange, Action), AppError>,
    exchange: &mut Exchange,
    next: Result<TargetUrl, String>,
    action: Action,
    cache_use: CacheUse,
    label: String,
)
    requires
        call_ensures(Exchange::take_up, (&state, url, origin, &request), r),
        call_ensures(Exchange::redirect, (exchange, &state, &request, next), action),
        call_ensures(CacheUse::label, (&cache_use,), label),
    ensures
        r is Ok <==> proxy::policy_fault(
            state.match_policy@,
            url@,
            text::text_option(origin.0),
        ) is None,
        r is Ok ==> Ok::<(ExchangeView, ActionView), Fault>((r->Ok_0.0@, r->Ok_0.1@)) == begun(
            setup_of(state, request),
            Ok(url@),
            text::text_option(origin.0),
        ),
        (final(exchange)@, action@) == redirected(
            setup_of(state, request),
            old(exchange)@,
            urls::url_result(next),
        ),
        action is Fetch <==> next is Ok && proxy::policy_fault(
            state.match_policy@,
            next->Ok_0@,
            old(exchange)@.origin,
        ) is None,
        action is Fetch ==> action->url@ == next->Ok_0.href@,
        label@ == cache_use.words(),
{
}

/// What is waited for: the limiter's answer while a tier is asked, what the cache holds while
/// it is looked up, and the target's answer, or that there is none, while the target is
/// asked; nothing once the request is answered.
pub proof fn law_what_is_awaited(setup: Setup, tier: usize, event: EventView)
    ensures
        is_awaited(setup, Phase::Limits(tier), event) <==> event is LimiterFailed || (event
            is Checked && tier < setup.tiers.len()),
        is_awaited(setup, Phase::Lookup, event) <==> event is Found,
        is_awaited(setup, Phase::Target, event) <==> event is Answered || event is Failed,
        !is_awaited(setup, Phase::Done, event),
{
}

} // verus!
