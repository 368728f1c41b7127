//! Configuration values and their validation.

use vstd::prelude::*;

use crate::text;
use crate::text::{parse_u64, split_on, trim};

verus! {

/// Top-level configuration root.
#[derive(Debug, Clone)]
pub struct Config {
    /// Application server settings.
    pub application: ApplicationConfig,
    /// Connection policy: target/origin lists, rate + bandwidth limits.
    pub connection: ConnectionConfig,
    /// Proxy behaviour: redirects, timeouts.
    pub proxy: ProxyConfig,
    /// Response cache settings.
    pub cache: CacheConfig,
}

/// Application server settings.
#[derive(Debug, Clone)]
pub struct ApplicationConfig {
    /// Bind addresses.
    pub host: Vec<String>,
    /// Bind port.
    pub port: u16,
    /// Public hostname (used for documentation / self-reference).
    pub hostname: String,
    /// Header name used to determine the real client IP when behind a reverse
    /// proxy (e.g. `X-Real-IP`). The TCP peer address is taken when the header is
    /// absent.
    pub real_ip_header: String,
}

/// Connection policy.
#[derive(Debug, Clone)]
pub struct ConnectionConfig {
    /// Target URL allow/deny lists.
    pub target: TargetListConfig,
    /// Requesting-origin allow/deny lists.
    pub origin: TargetListConfig,
    /// Per-(origin, ip) request-count rate limits (all tiers apply).
    pub rate_limit: Vec<LimitTier>,
    /// Per-(origin, ip) byte bandwidth limits.
    pub bandwidth_limit: BandwidthLimitConfig,
}

/// A blacklist + whitelist pair. If both are empty, everything is allowed. If the
/// whitelist is not empty, only whitelisted entries are allowed (and must not
/// also be blacklisted).
#[derive(Debug, Clone)]
pub struct TargetListConfig {
    /// Denied entries (exact / wildcard / regex).
    pub blacklist: Vec<String>,
    /// Allowed entries (exact / wildcard / regex).
    pub whitelist: Vec<String>,
}

/// A single rate/bandwidth limit tier: `max` units per `window` seconds.
#[derive(Debug, Clone, Copy)]
pub struct LimitTier {
    /// Window length in seconds.
    pub window: u64,
    /// Maximum units (requests or bytes) allowed within the window.
    pub max: u64,
}

/// Bandwidth limit configuration.
#[derive(Debug, Clone)]
pub struct BandwidthLimitConfig {
    /// Per-(origin, ip) connection bandwidth tiers (all tiers apply).
    pub connection: Vec<LimitTier>,
    /// Per-result (single proxied response) byte cap.
    pub result: ResultSizeConfig,
}

/// Per-result byte cap.
#[derive(Debug, Clone)]
pub struct ResultSizeConfig {
    /// Maximum bytes for a single proxied response body; 0 for no cap.
    pub max: u64,
}

/// Proxy behaviour.
#[derive(Debug, Clone)]
pub struct ProxyConfig {
    /// Maximum redirects to follow (0 disables).
    pub max_redirects: u32,
    /// Upstream request timeout in seconds.
    pub timeout: u64,
}

/// Response cache settings.
#[derive(Debug, Clone)]
pub struct CacheConfig {
    /// Whether responses are cached at all.
    pub enabled: bool,
    /// Upper bound on the age of a cached response, in seconds.
    pub max_age: u64,
    /// Upper bound on the size of the cache, in bytes.
    pub max_size: u64,
    /// Directory of the cache; empty for the default one.
    pub location: String,
    /// Rules that say what is cached and for how long.
    pub whitelist: Vec<CacheRule>,
}

/// A pattern of targets to be cached and for how long, in seconds.
#[derive(Debug, Clone)]
pub struct CacheRule {
    /// Exact, wildcard or regex pattern of `host/path?query`.
    pub pattern: String,
    /// Maximum age of what the pattern matches; 0 not to cache it.
    pub max_age: u64,
}

impl Default for TargetListConfig {
    fn default() -> (r: TargetListConfig)
        ensures
            r.blacklist@.len() == 0,
            r.whitelist@.len() == 0,
    {
        TargetListConfig { blacklist: Vec::new(), whitelist: Vec::new() }
    }
}

impl Default for ResultSizeConfig {
    fn default() -> (r: ResultSizeConfig)
        ensures
            r.max == 0,
    {
        ResultSizeConfig { max: 0 }
    }
}

impl Default for BandwidthLimitConfig {
    fn default() -> (r: BandwidthLimitConfig)
        ensures
            r.connection@.len() == 0,
            r.result.max == 0,
    {
        BandwidthLimitConfig { connection: Vec::new(), result: ResultSizeConfig { max: 0 } }
    }
}

impl Default for CacheConfig {
    fn default() -> (r: CacheConfig)
        ensures
            !r.enabled,
            r.max_age == 0,
            r.max_size == 0,
            r.location@.len() == 0,
            r.whitelist@.len() == 0,
    {
        CacheConfig {
            enabled: false,
            max_age: 0,
            max_size: 0,
            location: String::new(),
            whitelist: Vec::new(),
        }
    }
}

/// The header from which the client address is read unless another is configured.
pub fn default_real_ip_header() -> (r: String)
    ensures
        r@ == "X-Real-IP"@,
{
    "X-Real-IP".to_owned()
}

/// Bind addresses as they may be written: one, or a list.
#[derive(Debug, Clone)]
pub enum HostSetting {
    One(String),
    Many(Vec<String>),
}

/// The bind addresses of a setting. An empty list is an error.
pub fn bind_hosts(setting: HostSetting) -> (r: Result<Vec<String>, String>)
    ensures
        match setting {
            HostSetting::One(host) => r is Ok && r->Ok_0@ == seq![host],
            HostSetting::Many(hosts) => if hosts@.len() == 0 {
                r is Err && r->Err_0@ == "application.host must not be empty"@
            } else {
                r is Ok && r->Ok_0@ == hosts@
            },
        },
{
    match setting {
        HostSetting::One(host) => {
            let mut hosts: Vec<String> = Vec::new();
            hosts.push(host);
            proof {
                assert(hosts@ =~= seq![host]);
            }
            Ok(hosts)
        },
        HostSetting::Many(hosts) => if hosts.len() == 0 {
            Err("application.host must not be empty".to_owned())
        } else {
            Ok(hosts)
        },
    }
}

/// The entries of a list that say something, in their order.
pub open spec fn said_entries(entries: Seq<Option<String>>) -> Seq<Seq<char>>
    decreases entries.len(),
{
    if entries.len() == 0 {
        Seq::empty()
    } else {
        let before = said_entries(entries.drop_last());
        match entries.last() {
            Some(s) => if text::trimmed(s@).len() == 0 {
                before
            } else {
                before.push(s@)
            },
            None => before,
        }
    }
}

/// Drops `null` entries and those that hold white space only. A missing list is
/// an empty one.
pub fn non_empty_strings(entries: Option<Vec<Option<String>>>) -> (kept: Vec<String>)
    ensures
        match entries {
            Some(list) => text::texts(kept@) == said_entries(list@),
            None => kept@.len() == 0,
        },
{
    let mut kept: Vec<String> = Vec::new();
    let list = match entries {
        Some(list) => list,
        None => {
            return kept;
        },
    };
    let mut i: usize = 0;
    proof {
        assert(list@.take(0) =~= Seq::empty());
        assert(text::texts(kept@) =~= Seq::empty());
    }
    while i < list.len()
        invariant
            i <= list@.len(),
            text::texts(kept@) == said_entries(list@.take(i as int)),
        decreases list@.len() - i,
    {
        proof {
            assert(list@.take(i + 1).drop_last() =~= list@.take(i as int));
        }
        if let Some(s) = &list[i] {
            if !trim(s).as_str().is_empty() {
                let copy = s.clone();
                proof {
                    assert(text::texts(kept@.push(copy)) =~= text::texts(kept@).push(s@));
                }
                kept.push(copy);
            }
        }
        i += 1;
    }
    proof {
        assert(list@.take(list@.len() as int) =~= list@);
    }
    kept
}

/// The tiers of a list that are there, in their order.
pub open spec fn present_tiers(tiers: Seq<Option<LimitTier>>) -> Seq<LimitTier>
    decreases tiers.len(),
{
    if tiers.len() == 0 {
        Seq::empty()
    } else {
        let before = present_tiers(tiers.drop_last());
        match tiers.last() {
            Some(tier) => before.push(tier),
            None => before,
        }
    }
}

/// Drops `null` tiers. A missing list is an empty one.
pub fn limit_tiers(tiers: Option<Vec<Option<LimitTier>>>) -> (kept: Vec<LimitTier>)
    ensures
        match tiers {
            Some(list) => kept@ == present_tiers(list@),
            None => kept@.len() == 0,
        },
{
    let mut kept: Vec<LimitTier> = Vec::new();
    let list = match tiers {
        Some(list) => list,
        None => {
            return kept;
        },
    };
    let mut i: usize = 0;
    proof {
        assert(list@.take(0) =~= Seq::empty());
    }
    while i < list.len()
        invariant
            i <= list@.len(),
            kept@ == present_tiers(list@.take(i as int)),
        decreases list@.len() - i,
    {
        proof {
            assert(list@.take(i + 1).drop_last() =~= list@.take(i as int));
        }
        if let Some(tier) = &list[i] {
            kept.push(*tier);
        }
        i += 1;
    }
    proof {
        assert(list@.take(list@.len() as int) =~= list@);
    }
    kept
}

/// The complaint about a factor that is no number.
pub open spec fn not_a_number(expr: Seq<char>, part: Seq<char>) -> Seq<char> {
    "invalid byte expression `"@ + expr + "`: `"@ + part + "` is not a number"@
}

/// The complaint about a product that 64 bits cannot hold.
pub open spec fn overflows(expr: Seq<char>) -> Seq<char> {
    "byte expression `"@ + expr + "` overflows u64"@
}

/// The product of factors, or the complaint about the first that does not fit in.
pub open spec fn product(expr: Seq<char>, parts: Seq<Seq<char>>) -> Result<u64, Seq<char>>
    decreases parts.len(),
{
    if parts.len() == 0 {
        Ok(1)
    } else {
        match product(expr, parts.drop_last()) {
            Ok(before) => match text::parsed_u64(text::trimmed(parts.last())) {
                Some(factor) => if before * factor <= u64::MAX {
                    Ok((before * factor) as u64)
                } else {
                    Err(overflows(expr))
                },
                None => Err(not_a_number(expr, text::trimmed(parts.last()))),
            },
            Err(complaint) => Err(complaint),
        }
    }
}

/// What a multiplication expression comes to.
pub open spec fn byte_expr(expr: Seq<char>) -> Result<u64, Seq<char>> {
    product(expr, text::split(expr, '*'))
}

/// A factor that does not fit in decides, whatever follows it.
proof fn lemma_wrong_factor(expr: Seq<char>, parts: Seq<Seq<char>>, i: int)
    requires
        0 <= i <= parts.len(),
        product(expr, parts.take(i)) is Err,
    ensures
        product(expr, parts) == product(expr, parts.take(i)),
    decreases parts.len(),
{
    if i == parts.len() {
        assert(parts.take(i) =~= parts);
    } else {
        assert(parts.drop_last().take(i) =~= parts.take(i));
        lemma_wrong_factor(expr, parts.drop_last(), i);
    }
}

/// Evaluate a multiplication expression like `"1024 * 1024 * 4096"`: numbers with
/// `*` between them and optional white space around them.
pub fn eval_byte_expr(expr: &str) -> (r: Result<u64, String>)
    ensures
        match r {
            Ok(value) => byte_expr(expr@) == Ok::<u64, Seq<char>>(value),
            Err(complaint) => byte_expr(expr@) == Err::<u64, Seq<char>>(complaint@),
        },
{
    let parts = split_on(expr, '*');
    let ghost views = text::texts(parts@);
    let mut result: u64 = 1;
    let mut i: usize = 0;
    proof {
        assert(views.take(0) =~= Seq::empty());
    }
    while i < parts.len()
        invariant
            i <= parts@.len(),
            views == text::texts(parts@),
            views == text::split(expr@, '*'),
            product(expr@, views.take(i as int)) == Ok::<u64, Seq<char>>(result),
        decreases parts@.len() - i,
    {
        let part = trim(&parts[i]);
        proof {
            assert(views.take(i + 1).drop_last() =~= views.take(i as int));
            assert(views.take(i + 1).last() == parts@[i as int]@);
        }
        match parse_u64(&part) {
            Some(factor) => match result.checked_mul(factor) {
                Some(next) => {
                    result = next;
                },
                None => {
                    let mut complaint = "byte expression `".to_owned();
                    complaint.append(expr);
                    complaint.append("` overflows u64");
                    proof {
                        lemma_wrong_factor(expr@, views, i + 1);
                    }
                    return Err(complaint);
                },
            },
            None => {
                let mut complaint = "invalid byte expression `".to_owned();
                complaint.append(expr);
                complaint.append("`: `");
                complaint.append(&part);
                complaint.append("` is not a number");
                proof {
                    lemma_wrong_factor(expr@, views, i + 1);
                }
                return Err(complaint);
            },
        }
        i += 1;
    }
    proof {
        assert(views.take(parts@.len() as int) =~= views);
    }
    Ok(result)
}

/// A count as it may be written: a number, or a multiplication expression.
#[derive(Debug, Clone)]
pub enum CountSetting {
    Number(u64),
    Expression(String),
}

/// The count of a setting.
pub fn byte_count(setting: &CountSetting) -> (r: Result<u64, String>)
    ensures
        match setting {
            CountSetting::Number(n) => r == Ok::<u64, String>(*n),
            CountSetting::Expression(expr) => match r {
                Ok(value) => byte_expr(expr@) == Ok::<u64, Seq<char>>(value),
                Err(complaint) => byte_expr(expr@) == Err::<u64, Seq<char>>(complaint@),
            },
        },
{
    match setting {
        CountSetting::Number(n) => Ok(*n),
        CountSetting::Expression(expr) => eval_byte_expr(expr),
    }
}

/// Errors that can occur while loading configuration.
#[derive(Debug)]
pub enum ConfigError {
    /// The text could not be parsed; with the parser's words.
    Parse(String),
    /// The file could not be read; with the system's words.
    Io(String),
    /// The values do not make sense.
    Invalid(String),
}

impl ConfigError {
    /// The error in words.
    pub open spec fn words(self) -> Seq<char> {
        match self {
            ConfigError::Parse(cause) => "failed to parse config: "@ + cause@,
            ConfigError::Io(cause) => "failed to read config file: "@ + cause@,
            ConfigError::Invalid(cause) => "invalid config: "@ + cause@,
        }
    }

    /// The error in words.
    pub fn message(&self) -> (r: String)
        ensures
            r@ == self.words(),
    {
        match self {
            ConfigError::Parse(cause) => "failed to parse config: ".to_owned().concat(cause),
            ConfigError::Io(cause) => "failed to read config file: ".to_owned().concat(cause),
            ConfigError::Invalid(cause) => "invalid config: ".to_owned().concat(cause),
        }
    }
}

/// What is wrong with a list of tiers, by the first tier in which something is.
pub open spec fn tiers_fault(
    tiers: Seq<LimitTier>,
    no_window: Seq<char>,
    no_max: Seq<char>,
) -> Option<Seq<char>>
    decreases tiers.len(),
{
    if tiers.len() == 0 {
        None
    } else {
        match tiers_fault(tiers.drop_last(), no_window, no_max) {
            Some(fault) => Some(fault),
            None => if tiers.last().window == 0 {
                Some(no_window)
            } else if tiers.last().max == 0 {
                Some(no_max)
            } else {
                None
            },
        }
    }
}

/// What is wrong with the rate limits.
pub open spec fn rate_fault(config: Config) -> Option<Seq<char>> {
    tiers_fault(
        config.connection.rate_limit@,
        "rate_limit: `window` must be > 0"@,
        "rate_limit: `max` must be > 0"@,
    )
}

/// What is wrong with the bandwidth limits.
pub open spec fn bandwidth_fault(config: Config) -> Option<Seq<char>> {
    tiers_fault(
        config.connection.bandwidth_limit.connection@,
        "bandwidth_limit.connection: `window` must be > 0"@,
        "bandwidth_limit.connection: `max` must be > 0"@,
    )
}

/// What is wrong with a configuration, if something is.
pub open spec fn config_fault(config: Config) -> Option<Seq<char>> {
    match rate_fault(config) {
        Some(fault) => Some(fault),
        None => match bandwidth_fault(config) {
            Some(fault) => Some(fault),
            None => if config.proxy.max_redirects == 0 && config.proxy.timeout == 0 {
                Some("proxy: at least one of `max_redirects` or `timeout` should be > 0"@)
            } else {
                None
            },
        },
    }
}

/// A tier in which something is wrong decides, whatever follows it.
proof fn lemma_wrong_tier(tiers: Seq<LimitTier>, no_window: Seq<char>, no_max: Seq<char>, i: int)
    requires
        0 <= i <= tiers.len(),
        tiers_fault(tiers.take(i), no_window, no_max) is Some,
    ensures
        tiers_fault(tiers, no_window, no_max) == tiers_fault(tiers.take(i), no_window, no_max),
    decreases tiers.len(),
{
    if i == tiers.len() {
        assert(tiers.take(i) =~= tiers);
    } else {
        assert(tiers.drop_last().take(i) =~= tiers.take(i));
        lemma_wrong_tier(tiers.drop_last(), no_window, no_max, i);
    }
}

fn check_tiers(tiers: &Vec<LimitTier>, no_window: &str, no_max: &str) -> (r: Result<
    (),
    ConfigError,
>)
    ensures
        match tiers_fault(tiers@, no_window@, no_max@) {
            Some(fault) => r matches Err(ConfigError::Invalid(cause)) && cause@ == fault,
            None => r is Ok,
        },
{
    let mut i: usize = 0;
    proof {
        assert(tiers@.take(0) =~= Seq::empty());
    }
    while i < tiers.len()
        invariant
            i <= tiers@.len(),
            tiers_fault(tiers@.take(i as int), no_window@, no_max@) is None,
        decreases tiers@.len() - i,
    {
        proof {
            assert(tiers@.take(i + 1).drop_last() =~= tiers@.take(i as int));
            if tiers@[i as int].window == 0 || tiers@[i as int].max == 0 {
                lemma_wrong_tier(tiers@, no_window@, no_max@, i + 1);
            }
        }
        if tiers[i].window == 0 {
            return Err(ConfigError::Invalid(no_window.to_owned()));
        }
        if tiers[i].max == 0 {
            return Err(ConfigError::Invalid(no_max.to_owned()));
        }
        i += 1;
    }
    proof {
        assert(tiers@.take(tiers@.len() as int) =~= tiers@);
    }
    Ok(())
}

impl Config {
    /// Semantic validation of loaded config values.
    pub fn validate(&self) -> (r: Result<(), ConfigError>)
        ensures
            match config_fault(*self) {
                Some(fault) => r matches Err(ConfigError::Invalid(cause)) && cause@ == fault,
                None => r is Ok,
            },
    {
        match check_tiers(
            &self.connection.rate_limit,
            "rate_limit: `window` must be > 0",
            "rate_limit: `max` must be > 0",
        ) {
            Ok(_) => {},
            Err(error) => {
                return Err(error);
            },
        }
        match check_tiers(
            &self.connection.bandwidth_limit.connection,
            "bandwidth_limit.connection: `window` must be > 0",
            "bandwidth_limit.connection: `max` must be > 0",
        ) {
            Ok(_) => {},
            Err(error) => {
                return Err(error);
            },
        }
        if self.proxy.max_redirects == 0 && self.proxy.timeout == 0 {
            return Err(
                ConfigError::Invalid(
                    "proxy: at least one of `max_redirects` or `timeout` should be > 0".to_owned(),
                ),
            );
        }
        Ok(())
    }
}

/// A list of tiers is sound exactly when every tier has a window and a maximum.
proof fn lemma_sound_tiers(tiers: Seq<LimitTier>, no_window: Seq<char>, no_max: Seq<char>)
    ensures
        tiers_fault(tiers, no_window, no_max) is None <==> forall|i: int|
            0 <= i < tiers.len() ==> (#[trigger] tiers[i]).window > 0 && tiers[i].max > 0,
    decreases tiers.len(),
{
    if tiers.len() > 0 {
        lemma_sound_tiers(tiers.drop_last(), no_window, no_max);
        let all = tiers.drop_last();
        assert(forall|i: int| 0 <= i < all.len() ==> all[i] == tiers[i]);
        if tiers_fault(tiers, no_window, no_max) is Some {
            if tiers_fault(all, no_window, no_max) is Some {
                let i = choose|i: int|
                    0 <= i < all.len() && !((#[trigger] all[i]).window > 0 && all[i].max > 0);
                assert(!(tiers[i].window > 0 && tiers[i].max > 0));
            } else {
                assert(!(tiers[tiers.len() - 1].window > 0 && tiers[tiers.len() - 1].max > 0));
            }
        }
    }
}

/// A configuration is accepted exactly when every rate and bandwidth tier has a
/// window and a maximum and when redirects and timeout are not both switched off.
pub proof fn law_validation(config: Config)
    ensures
        config_fault(config) is None <==> {
            &&& forall|i: int|
                0 <= i < config.connection.rate_limit@.len() ==> (
                #[trigger] config.connection.rate_limit@[i]).window > 0
                    && config.connection.rate_limit@[i].max > 0
            &&& forall|i: int|
                0 <= i < config.connection.bandwidth_limit.connection@.len() ==> (
                #[trigger] config.connection.bandwidth_limit.connection@[i]).window > 0
                    && config.connection.bandwidth_limit.connection@[i].max > 0
            &&& config.proxy.max_redirects > 0 || config.proxy.timeout > 0
        },
{
    lemma_sound_tiers(
        config.connection.rate_limit@,
        "rate_limit: `window` must be > 0"@,
        "rate_limit: `max` must be > 0"@,
    );
    lemma_sound_tiers(
        config.connection.bandwidth_limit.connection@,
        "bandwidth_limit.connection: `window` must be > 0"@,
        "bandwidth_limit.connection: `max` must be > 0"@,
    );
}

/// The numbers that some factors write, multiplied.
pub open spec fn multiplied(parts: Seq<Seq<char>>) -> nat
    decreases parts.len(),
{
    if parts.len() == 0 {
        1
    } else {
        (multiplied(parts.drop_last()) * text::parsed_u64(text::trimmed(parts.last()))->0) as nat
    }
}

/// Whether every factor is a number.
pub open spec fn are_numbers(parts: Seq<Seq<char>>) -> bool {
    forall|i: int|
        0 <= i < parts.len() ==> text::parsed_u64(text::trimmed(#[trigger] parts[i])) is Some
}

/// An expression that has a value has numbers for factors, and its value is their
/// product.
pub proof fn law_expression_is_product(expr: Seq<char>)
    requires
        byte_expr(expr) is Ok,
    ensures
        are_numbers(text::split(expr, '*')),
        byte_expr(expr)->Ok_0 == multiplied(text::split(expr, '*')),
{
    lemma_product(expr, text::split(expr, '*'));
}

/// A product is the product of its factors.
proof fn lemma_product(expr: Seq<char>, parts: Seq<Seq<char>>)
    requires
        product(expr, parts) is Ok,
    ensures
        are_numbers(parts),
        product(expr, parts)->Ok_0 == multiplied(parts),
    decreases parts.len(),
{
    if parts.len() > 0 {
        lemma_product(expr, parts.drop_last());
        assert forall|i: int| 0 <= i < parts.len() implies text::parsed_u64(
            text::trimmed(#[trigger] parts[i]),
        ) is Some by {
            if i < parts.len() - 1 {
                assert(parts[i] == parts.drop_last()[i]);
            }
        }
    }
}

/// A configuration is refused for the first thing that is wrong with it: the request tiers
/// come first, then the bandwidth tiers, each in its order and with its window before its
/// maximum, and then redirects and timeout.
pub proof fn law_faults(config: Config, i: int)
    ensures
        ({
            let rates = config.connection.rate_limit@;
            let bytes = config.connection.bandwidth_limit.connection@;
            let sound = |tier: LimitTier| tier.window > 0 && tier.max > 0;
            let none_before = |tiers: Seq<LimitTier>|
                forall|k: int| 0 <= k < i ==> sound(#[trigger] tiers[k]);
            let all_sound = |tiers: Seq<LimitTier>|
                forall|k: int| 0 <= k < tiers.len() ==> sound(#[trigger] tiers[k]);
            &&& 0 <= i < rates.len() && none_before(rates) && rates[i].window == 0 ==> config_fault(
                config,
            ) == Some("rate_limit: `window` must be > 0"@)
            &&& 0 <= i < rates.len() && none_before(rates) && rates[i].window > 0 && rates[i].max
                == 0 ==> config_fault(config) == Some("rate_limit: `max` must be > 0"@)
            &&& all_sound(rates) && 0 <= i < bytes.len() && none_before(bytes) && bytes[i].window
                == 0 ==> config_fault(config) == Some(
                "bandwidth_limit.connection: `window` must be > 0"@,
            )
            &&& all_sound(rates) && 0 <= i < bytes.len() && none_before(bytes) && bytes[i].window
                > 0 && bytes[i].max == 0 ==> config_fault(config) == Some(
                "bandwidth_limit.connection: `max` must be > 0"@,
            )
            &&& all_sound(rates) && all_sound(bytes) && config.proxy.max_redirects == 0
                && config.proxy.timeout == 0 ==> config_fault(config) == Some(
                "proxy: at least one of `max_redirects` or `timeout` should be > 0"@,
            )
        }),
{
    let rates = config.connection.rate_limit@;
    let bytes = config.connection.bandwidth_limit.connection@;
    lemma_first_fault(
        rates,
        "rate_limit: `window` must be > 0"@,
        "rate_limit: `max` must be > 0"@,
        i,
    );
    lemma_first_fault(
        bytes,
        "bandwidth_limit.connection: `window` must be > 0"@,
        "bandwidth_limit.connection: `max` must be > 0"@,
        i,
    );
}

proof fn lemma_first_fault(
    tiers: Seq<LimitTier>,
    no_window: Seq<char>,
    no_max: Seq<char>,
    i: int,
)
    ensures
        0 <= i < tiers.len() && (forall|k: int|
            0 <= k < i ==> (#[trigger] tiers[k]).window > 0 && tiers[k].max > 0)
            && tiers[i].window == 0 ==> tiers_fault(tiers, no_window, no_max) == Some(no_window),
        0 <= i < tiers.len() && (forall|k: int|
            0 <= k < i ==> (#[trigger] tiers[k]).window > 0 && tiers[k].max > 0)
            && tiers[i].window > 0 && tiers[i].max == 0 ==> tiers_fault(tiers, no_window, no_max)
            == Some(no_max),
        (forall|k: int|
            0 <= k < tiers.len() ==> (#[trigger] tiers[k]).window > 0 && tiers[k].max > 0)
            ==> tiers_fault(tiers, no_window, no_max) is None,
    decreases tiers.len(),
{
    if tiers.len() > 0 {
        let before = tiers.drop_last();
        lemma_first_fault(before, no_window, no_max, i);
        assert(forall|k: int| 0 <= k < before.len() ==> tiers[k] == #[trigger] before[k]);
        assert(tiers.last() == tiers[tiers.len() - 1]);
        if forall|k: int|
            0 <= k < tiers.len() - 1 ==> (#[trigger] tiers[k]).window > 0 && tiers[k].max > 0 {
            assert forall|k: int| 0 <= k < before.len() implies (#[trigger] before[k]).window > 0
                && before[k].max > 0 by {
                assert(tiers[k].window > 0);
            }
        }
    }
}

/// A configuration that validates has no fault, and one that does not is refused for it.
pub proof fn law_validation_is_reported(config: Config, r: Result<(), ConfigError>)
    requires
        call_ensures(Config::validate, (&config,), r),
    ensures
        r is Ok <==> config_fault(config) is None,
        r is Err ==> r->Err_0 is Invalid && r->Err_0->Invalid_0@ == config_fault(config)->0,
{
}

/// A list keeps what says something, as it is written and in its order: a further entry is
/// kept exactly when it is there and holds more than white space.
pub proof fn law_entries_are_kept(entries: Seq<Option<String>>, more: String)
    ensures
        said_entries(Seq::empty()).len() == 0,
        said_entries(entries.push(None)) == said_entries(entries),
        text::trimmed(more@).len() == 0 ==> said_entries(entries.push(Some(more)))
            == said_entries(entries),
        text::trimmed(more@).len() > 0 ==> said_entries(entries.push(Some(more)))
            == said_entries(entries).push(more@),
{
    assert(entries.push(None).drop_last() =~= entries);
    assert(entries.push(Some(more)).drop_last() =~= entries);
}

/// A list of tiers keeps those that are there, as they are and in their order.
pub proof fn law_tiers_are_kept(tiers: Seq<Option<LimitTier>>, more: LimitTier)
    ensures
        present_tiers(Seq::empty()).len() == 0,
        present_tiers(tiers.push(None)) == present_tiers(tiers),
        present_tiers(tiers.push(Some(more))) == present_tiers(tiers).push(more),
{
    assert(tiers.push(None).drop_last() =~= tiers);
    assert(tiers.push(Some(more)).drop_last() =~= tiers);
}

/// A factor behind an expression multiplies its value, as far as 64 bits can hold that; what
/// is no number, or too large, is refused in words that name the expression.
pub proof fn law_factors(expr: Seq<char>, parts: Seq<Seq<char>>, factor: Seq<char>)
    ensures
        product(expr, Seq::empty()) == Ok::<u64, Seq<char>>(1),
        product(expr, parts) is Err ==> product(expr, parts.push(factor)) == product(expr, parts),
        product(expr, parts) is Ok && text::parsed_u64(text::trimmed(factor)) is None
            ==> product(expr, parts.push(factor)) == Err::<u64, Seq<char>>(
            "invalid byte expression `"@ + expr + "`: `"@ + text::trimmed(factor)
                + "` is not a number"@,
        ),
        product(expr, parts) is Ok && text::parsed_u64(text::trimmed(factor)) is Some ==> {
            let value = product(expr, parts)->Ok_0 * text::parsed_u64(text::trimmed(factor))->0;
            &&& value <= 0xffff_ffff_ffff_ffff ==> product(expr, parts.push(factor)) == Ok::<
                u64,
                Seq<char>,
            >(value as u64)
            &&& value > 0xffff_ffff_ffff_ffff ==> product(expr, parts.push(factor)) == Err::<
                u64,
                Seq<char>,
            >("byte expression `"@ + expr + "` overflows u64"@)
        },
{
    assert(parts.push(factor).drop_last() =~= parts);
}

/// A byte expression is its factors between the stars, and a plain number is itself.
pub proof fn law_byte_counts(expr: Seq<char>, setting: CountSetting, r: Result<u64, String>)
    requires
        call_ensures(byte_count, (&setting,), r),
    ensures
        byte_expr(expr) == product(expr, text::split(expr, '*')),
        setting is Number ==> r == Ok::<u64, String>(setting->Number_0),
        setting is Expression ==> {
            let written = setting->Expression_0@;
            &&& r is Ok <==> byte_expr(written) is Ok
            &&& r is Ok ==> r->Ok_0 == byte_expr(written)->Ok_0
            &&& r is Err ==> r->Err_0@ == byte_expr(written)->Err_0
        },
        !expr.contains('*') ==> (byte_expr(expr) is Ok <==> text::parsed_u64(text::trimmed(expr))
            is Some),
        !expr.contains('*') && byte_expr(expr) is Ok ==> byte_expr(expr)->Ok_0
            == text::parsed_u64(text::trimmed(expr))->0,
{
    text::law_split(expr, expr, '*');
    if !expr.contains('*') {
        let none = Seq::<Seq<char>>::empty();
        assert(seq![expr] =~= none.push(expr));
        law_factors(expr, none, expr);
        assert(1 * text::parsed_u64(text::trimmed(expr))->0 == text::parsed_u64(
            text::trimmed(expr),
        )->0);
    }
}

/// One host or several are bound to, in their order, but not none.
pub proof fn law_hosts(setting: HostSetting, r: Result<Vec<String>, String>)
    requires
        call_ensures(bind_hosts, (setting,), r),
    ensures
        setting is One ==> r is Ok && r->Ok_0@ == seq![setting->One_0],
        setting is Many && setting->Many_0@.len() > 0 ==> r is Ok && r->Ok_0@ == setting->Many_0@,
        setting is Many && setting->Many_0@.len() == 0 ==> r is Err && r->Err_0@
            == "application.host must not be empty"@,
{
}

/// A list that is not configured is empty, and what is not configured is off.
pub proof fn law_defaults(
    header: String,
    lists: TargetListConfig,
    result: ResultSizeConfig,
    bandwidth: BandwidthLimitConfig,
    cache: CacheConfig,
    no_strings: Vec<String>,
    no_tiers: Vec<LimitTier>,
)
    requires
        call_ensures(default_real_ip_header, (), header),
        call_ensures(TargetListConfig::default, (), lists),
        call_ensures(ResultSizeConfig::default, (), result),
        call_ensures(BandwidthLimitConfig::default, (), bandwidth),
        call_ensures(CacheConfig::default, (), cache),
        call_ensures(non_empty_strings, (None,), no_strings),
        call_ensures(limit_tiers, (None,), no_tiers),
    ensures
        header@ == "X-Real-IP"@,
        lists.blacklist@.len() == 0 && lists.whitelist@.len() == 0,
        result.max == 0,
        bandwidth.connection@.len() == 0 && bandwidth.result.max == 0,
        !cache.enabled && cache.max_age == 0 && cache.max_size == 0 && cache.location@.len() == 0
            && cache.whitelist@.len() == 0,
        no_strings@.len() == 0 && no_tiers@.len() == 0,
{
}

/// What could not be configured is told with its cause.
pub proof fn law_config_errors(cause: String)
    ensures
        ConfigError::Parse(cause).words() == "failed to parse config: "@ + cause@,
        ConfigError::Io(cause).words() == "failed to read config file: "@ + cause@,
        ConfigError::Invalid(cause).words() == "invalid config: "@ + cause@,
{
}

/// An expression is evaluated, a list read and tiers read as stated.
pub proof fn law_reading_settings(
    expr: &str,
    value: Result<u64, String>,
    entries: Vec<Option<String>>,
    kept: Vec<String>,
    tiers: Vec<Option<LimitTier>>,
    there: Vec<LimitTier>,
)
    requires
        call_ensures(eval_byte_expr, (expr,), value),
        call_ensures(non_empty_strings, (Some(entries),), kept),
        call_ensures(limit_tiers, (Some(tiers),), there),
    ensures
        value is Ok <==> byte_expr(expr@) is Ok,
        value is Ok ==> value->Ok_0 == byte_expr(expr@)->Ok_0,
        value is Err ==> value->Err_0@ == byte_expr(expr@)->Err_0,
        text::texts(kept@) == said_entries(entries@),
        there@ == present_tiers(tiers@),
{
}

} // verus!
