//! What all requests share.

use vstd::prelude::*;

use crate::cache;
use crate::cache::{Cache, CacheStatus};
use crate::config::Config;
use crate::error::AppError;
use crate::matcher;
use crate::matcher::MatchPolicy;
use crate::text;

verus! {

/// The application state that handlers decide by.
#[derive(Debug)]
pub struct AppState {
    /// Parsed configuration.
    pub config: Config,
    /// Pre-compiled target + origin match policy.
    pub match_policy: MatchPolicy,
    /// Optional persistent response cache.
    pub cache: Option<Cache>,
    /// Cache initialization status for the startup summary.
    pub cache_status: CacheStatus,
}

/// What the lists of a configuration stand for, or the first entry that is wrong.
pub open spec fn configured_policy(config: Config) -> Result<
    matcher::PolicyView,
    (Seq<char>, Seq<char>),
> {
    matcher::policy_read(
        text::texts(config.connection.target.blacklist@),
        text::texts(config.connection.target.whitelist@),
        text::texts(config.connection.origin.blacklist@),
        text::texts(config.connection.origin.whitelist@),
    )
}

/// The complaint about a list entry that is wrong.
pub open spec fn policy_complaint(entry: Seq<char>, cause: Seq<char>) -> Seq<char> {
    "invalid match policy: "@ + ("invalid regex `"@ + entry + "`: "@ + cause)
}

impl AppState {
    /// Construct the shared state from a loaded config, once it is known whether the
    /// directory of the cache can be used.
    pub fn new(config: Config, directory_ready: bool) -> (r: Result<AppState, AppError>)
        ensures
            match configured_policy(config) {
                Ok(policy) => {
                    &&& r is Ok
                    &&& r->Ok_0.config == config
                    &&& r->Ok_0.match_policy@ == policy
                    &&& match cache::disabled_reason(config.cache, directory_ready) {
                        Some(reason) => {
                            &&& r->Ok_0.cache is None
                            &&& r->Ok_0.cache_status is Disabled
                            &&& r->Ok_0.cache_status->0@ == reason
                        },
                        None => {
                            &&& r->Ok_0.cache is Some
                            &&& r->Ok_0.cache->0@ == cache::configured_cache(config.cache)
                            &&& r->Ok_0.cache_status is Enabled
                        },
                    }
                },
                Err((entry, cause)) => {
                    &&& r is Err
                    &&& r->Err_0 is Denied
                    &&& r->Err_0.detail() == policy_complaint(entry, cause)
                },
            },
    {
        let match_policy = match MatchPolicy::new(
            &config.connection.target.blacklist,
            &config.connection.target.whitelist,
            &config.connection.origin.blacklist,
            &config.connection.origin.whitelist,
        ) {
            Ok(policy) => policy,
            Err(error) => {
                return Err(
                    AppError::Denied("invalid match policy: ".to_owned().concat(&error.message())),
                );
            },
        };
        let initialization = Cache::initialize(&config.cache, directory_ready);
        Ok(
            AppState {
                config,
                match_policy,
                cache: initialization.cache,
                cache_status: initialization.status,
            },
        )
    }
}

/// What all requests share is what is configured: each list of the policy comes from the
/// list of that name, and a policy that cannot be read is refused with the entry at fault.
pub proof fn law_state(config: Config, directory_ready: bool, r: Result<AppState, AppError>)
    requires
        call_ensures(AppState::new, (config, directory_ready), r),
    ensures
        ({
            let target = config.connection.target;
            let origin = config.connection.origin;
            let read = matcher::policy_read(
                text::texts(target.blacklist@),
                text::texts(target.whitelist@),
                text::texts(origin.blacklist@),
                text::texts(origin.whitelist@),
            );
            &&& r is Ok <==> read is Ok
            &&& r is Ok ==> r->Ok_0.match_policy@ == read->Ok_0 && r->Ok_0.config == config
            &&& r is Ok ==> (r->Ok_0.cache is Some <==> cache::disabled_reason(
                config.cache,
                directory_ready,
            ) is None)
            &&& r is Ok && r->Ok_0.cache is Some ==> r->Ok_0.cache->0@ == cache::configured_cache(
                config.cache,
            )
            &&& r is Err ==> r->Err_0.detail() == "invalid match policy: "@ + ("invalid regex `"@
                + read->Err_0.0 + "`: "@ + read->Err_0.1)
        }),
{
}

} // verus!
