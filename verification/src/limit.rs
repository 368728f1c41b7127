//! Byte-bandwidth limiting.
//!
//! Two layers of byte accounting, both keyed by `(origin, client_ip)`:
//!
//! - **Connection bandwidth**: a fixed-window counter per tier. Each proxied
//!   response's bytes are charged against every configured tier. Exceeding a tier
//!   is reported, but it is soft: the current response goes on to its end.
//! - **Per-result size**: a hard cap on a single response body. A response that
//!   advertises more is rejected before streaming begins; otherwise the running
//!   total is checked per chunk and the stream is ended when it is exceeded.

use std::time::Instant;

use dashmap::DashMap;
use vstd::prelude::*;

use crate::config::LimitTier;
use crate::text;
use crate::text::to_decimal;

verus! {

/// The outside concurrent map, which only this module reaches.
#[verifier::external_type_specification]
#[verifier::external_body]
#[verifier::reject_recursive_types(K)]
#[verifier::reject_recursive_types(V)]
#[verifier::reject_recursive_types(S)]
pub struct ExDashMap<K, V, S>(dashmap::DashMap<K, V, S>);

/// The reading of a clock that only goes forward.
#[verifier::external_type_specification]
#[verifier::external_body]
pub struct ExInstant(std::time::Instant);

/// A window's length in seconds and the bytes that it allows.
#[derive(Debug, Clone, Copy)]
pub struct Window {
    /// Window length in seconds.
    pub secs: u64,
    /// Maximum bytes allowed within the window.
    pub max: u64,
}

/// Errors from bandwidth accounting.
#[derive(Debug, PartialEq, Eq, Structural)]
pub enum BandwidthError {
    /// The per-result size cap was exceeded.
    ResultExceeded { used: u64, max: u64 },
    /// A connection-bandwidth tier was exceeded.
    ConnectionExceeded { max: u64, secs: u64 },
}

/// "result size cap exceeded (... > ... bytes)".
pub open spec fn result_words(used: u64, max: u64) -> Seq<char> {
    "result size cap exceeded ("@ + text::decimal(used as nat) + " > "@ + text::decimal(max as nat)
        + " bytes)"@
}

/// "bandwidth limit exceeded for tier (... bytes / ...s)".
pub open spec fn tier_words(max: u64, secs: u64) -> Seq<char> {
    "bandwidth limit exceeded for tier ("@ + text::decimal(max as nat) + " bytes / "@
        + text::decimal(secs as nat) + "s)"@
}

fn tell_result(used: u64, max: u64) -> (r: String)
    ensures
        r@ == result_words(used, max),
{
    let mut out = "result size cap exceeded (".to_owned();
    out.append(&to_decimal(used));
    out.append(" > ");
    out.append(&to_decimal(max));
    out.append(" bytes)");
    out
}

fn tell_tier(max: u64, secs: u64) -> (r: String)
    ensures
        r@ == tier_words(max, secs),
{
    let mut out = "bandwidth limit exceeded for tier (".to_owned();
    out.append(&to_decimal(max));
    out.append(" bytes / ");
    out.append(&to_decimal(secs));
    out.append("s)");
    out
}

impl BandwidthError {
    /// The error in words.
    pub open spec fn words(self) -> Seq<char> {
        match self {
            BandwidthError::ResultExceeded { used, max } => result_words(used, max),
            BandwidthError::ConnectionExceeded { max, secs } => tier_words(max, secs),
        }
    }

    /// The error in words.
    pub fn message(&self) -> (r: String)
        ensures
            r@ == self.words(),
    {
        match self {
            BandwidthError::ResultExceeded { used, max } => tell_result(*used, *max),
            BandwidthError::ConnectionExceeded { max, secs } => tell_tier(*max, *secs),
        }
    }
}

/// Per-key window state. Time is counted in nanoseconds from the limiter's start.
#[derive(Debug, Clone, Copy)]
pub struct WindowState {
    /// Bytes consumed so far in the current window.
    pub used: u64,
    /// When the current window started.
    pub window_start: u128,
}

/// A sum that stops at the largest number there is.
pub open spec fn capped_sum(a: u64, b: u64) -> u64 {
    if a + b > u64::MAX {
        u64::MAX
    } else {
        (a + b) as u64
    }
}

/// Whether a window that started at `start` is over at `now`.
pub open spec fn elapsed(start: u128, window: Window, now: u128) -> bool {
    now >= start && now - start >= window.secs * 1_000_000_000 || window.secs == 0
}

/// The state at `now`: a new window where the old one is over.
pub open spec fn current(state: WindowState, window: Window, now: u128) -> WindowState {
    if elapsed(state.window_start, window, now) {
        WindowState { used: 0, window_start: now }
    } else {
        state
    }
}

/// Whether `n` more bytes fit into the window at `now`.
pub open spec fn fits(state: WindowState, n: u64, window: Window, now: u128) -> bool {
    capped_sum(current(state, window, now).used, n) <= window.max
}

/// The state after a charge of `n` bytes. What does not fit is not counted.
pub open spec fn charged(state: WindowState, n: u64, window: Window, now: u128) -> WindowState {
    if fits(state, n, window, now) {
        WindowState {
            used: capped_sum(current(state, window, now).used, n),
            window_start: current(state, window, now).window_start,
        }
    } else {
        current(state, window, now)
    }
}

impl WindowState {
    /// A window that starts at `now` with nothing used.
    pub fn new(now: u128) -> (r: WindowState)
        ensures
            r == (WindowState { used: 0, window_start: now }),
    {
        WindowState { used: 0, window_start: now }
    }

    /// Charge `n` bytes, starting a new window if the current one is over. An error
    /// if the charge would exceed the cap.
    pub fn charge(&mut self, n: u64, window: Window, now: u128) -> (r: Result<(), BandwidthError>)
        ensures
            *final(self) == charged(*old(self), n, window, now),
            r is Ok <==> fits(*old(self), n, window, now),
            r is Err ==> r->Err_0 == (BandwidthError::ConnectionExceeded {
                max: window.max,
                secs: window.secs,
            }),
    {
        let passed: u128 = now.saturating_sub(self.window_start);
        let period: u128 = window.secs as u128 * 1_000_000_000;
        if passed >= period {
            self.window_start = now;
            self.used = 0;
        }
        let new_used: u64 = self.used.saturating_add(n);
        if new_used > window.max {
            return Err(
                BandwidthError::ConnectionExceeded { max: window.max, secs: window.secs },
            );
        }
        self.used = new_used;
        Ok(())
    }
}

/// What a map of window states holds.
pub uninterp spec fn window_states(map: DashMap<String, WindowState>) -> Map<
    Seq<char>,
    WindowState,
>;

/// The windows of a tier, by bucket.
pub type WindowStates = Map<Seq<char>, WindowState>;

/// `DashMap::new`: a map that holds nothing.
#[verifier::external_body]
fn no_windows() -> (map: DashMap<String, WindowState>)
    ensures
        window_states(map) == WindowStates::empty(),
{
    DashMap::new()
}

/// `DashMap::entry` and `Entry::or_insert`: the value under the key; where there is
/// none, the given one is put there first. Nothing else changes.
#[verifier::external_body]
fn entry_or_insert(map: &mut DashMap<String, WindowState>, key: &str, fresh: WindowState) -> (r:
    WindowState)
    ensures
        r == (if window_states(*old(map)).contains_key(key@) {
            window_states(*old(map))[key@]
        } else {
            fresh
        }),
        window_states(*final(map)) == window_states(*old(map)).insert(key@, r),
{
    *map.entry(key.to_string()).or_insert(fresh)
}

/// `DashMap::insert`: puts the value under the key, whatever was there. Nothing else
/// changes.
#[verifier::external_body]
fn put_window(map: &mut DashMap<String, WindowState>, key: &str, state: WindowState)
    ensures
        window_states(*final(map)) == window_states(*old(map)).insert(key@, state),
{
    map.insert(key.to_string(), state);
}

/// `Instant::now`. Nothing is known of when that is.
pub assume_specification[ std::time::Instant::now ]() -> Instant;

/// `Instant::elapsed`, in nanoseconds. Nothing is known of how long that is.
#[verifier::external_body]
fn nanos_since(start: &Instant) -> u128 {
    start.elapsed().as_nanos()
}

/// One tier: its window and the state of each bucket.
struct Tier {
    window: Window,
    states: DashMap<String, WindowState>,
}

/// A tier as it is seen from outside.
pub struct TierView {
    pub window: Window,
    pub states: Map<Seq<char>, WindowState>,
}

/// The state of a bucket at `now`: a bucket that was never charged has a new window.
pub open spec fn bucket_state(tier: TierView, bucket: Seq<char>, now: u128) -> WindowState {
    if tier.states.contains_key(bucket) {
        tier.states[bucket]
    } else {
        WindowState { used: 0, window_start: now }
    }
}

/// Whether `n` more bytes of a bucket fit into a tier at `now`.
pub open spec fn tier_fits(tier: TierView, bucket: Seq<char>, n: u64, now: u128) -> bool {
    fits(bucket_state(tier, bucket, now), n, tier.window, now)
}

/// A tier after a charge.
pub open spec fn tier_charged(tier: TierView, bucket: Seq<char>, n: u64, now: u128) -> TierView {
    TierView {
        window: tier.window,
        states: tier.states.insert(
            bucket,
            charged(bucket_state(tier, bucket, now), n, tier.window, now),
        ),
    }
}

/// The first tier into which `n` more bytes do not fit, or the number of tiers.
pub open spec fn first_full(tiers: Seq<TierView>, bucket: Seq<char>, n: u64, now: u128) -> nat
    decreases tiers.len(),
{
    if tiers.len() == 0 {
        0
    } else if first_full(tiers.drop_last(), bucket, n, now) < tiers.len() - 1 {
        first_full(tiers.drop_last(), bucket, n, now)
    } else if tier_fits(tiers.last(), bucket, n, now) {
        tiers.len()
    } else {
        (tiers.len() - 1) as nat
    }
}

/// The tiers after a charge: it goes through them in order, up to and with the first
/// that is full.
pub open spec fn tiers_charged(tiers: Seq<TierView>, bucket: Seq<char>, n: u64, now: u128) -> Seq<
    TierView,
> {
    Seq::new(
        tiers.len(),
        |i: int|
            if i <= first_full(tiers, bucket, n, now) {
                tier_charged(tiers[i], bucket, n, now)
            } else {
                tiers[i]
            },
    )
}

/// What a charge says: the first tier that is full, if one is.
pub open spec fn charge_result(
    tiers: Seq<TierView>,
    bucket: Seq<char>,
    n: u64,
    now: u128,
) -> Result<(), BandwidthError> {
    let i = first_full(tiers, bucket, n, now);
    if i < tiers.len() {
        Err(
            BandwidthError::ConnectionExceeded {
                max: tiers[i as int].window.max,
                secs: tiers[i as int].window.secs,
            },
        )
    } else {
        Ok(())
    }
}

/// `first_full` is what its name says.
proof fn lemma_first_full(tiers: Seq<TierView>, bucket: Seq<char>, n: u64, now: u128)
    ensures
        first_full(tiers, bucket, n, now) <= tiers.len(),
        forall|j: int|
            0 <= j < first_full(tiers, bucket, n, now) ==> tier_fits(
                #[trigger] tiers[j],
                bucket,
                n,
                now,
            ),
        first_full(tiers, bucket, n, now) < tiers.len() ==> !tier_fits(
            tiers[first_full(tiers, bucket, n, now) as int],
            bucket,
            n,
            now,
        ),
    decreases tiers.len(),
{
    if tiers.len() > 0 {
        let before = tiers.drop_last();
        lemma_first_full(before, bucket, n, now);
        assert forall|j: int| 0 <= j < first_full(tiers, bucket, n, now) implies tier_fits(
            #[trigger] tiers[j],
            bucket,
            n,
            now,
        ) by {
            if j < before.len() {
                assert(tiers[j] == before[j]);
            }
        }
    }
}

/// Where the tiers before `i` have room and tier `i` has not, it is the first full
/// one.
proof fn lemma_full_at(tiers: Seq<TierView>, bucket: Seq<char>, n: u64, now: u128, i: nat)
    requires
        i <= tiers.len(),
        forall|j: int| 0 <= j < i ==> tier_fits(#[trigger] tiers[j], bucket, n, now),
        i < tiers.len() ==> !tier_fits(tiers[i as int], bucket, n, now),
    ensures
        first_full(tiers, bucket, n, now) == i,
{
    lemma_first_full(tiers, bucket, n, now);
    let first = first_full(tiers, bucket, n, now);
    if first < i {
        assert(tier_fits(tiers[first as int], bucket, n, now));
    }
    if i < first {
        assert(tier_fits(tiers[i as int], bucket, n, now));
    }
}

impl Tier {
    spec fn seen(self) -> TierView {
        TierView { window: self.window, states: window_states(self.states) }
    }

    fn charge(&mut self, bucket: &str, n: u64, now: u128) -> (r: Result<(), BandwidthError>)
        ensures
            final(self).seen() == tier_charged(old(self).seen(), bucket@, n, now),
            r is Ok <==> tier_fits(old(self).seen(), bucket@, n, now),
            r is Err ==> r->Err_0 == (BandwidthError::ConnectionExceeded {
                max: old(self).window.max,
                secs: old(self).window.secs,
            }),
    {
        let mut state = entry_or_insert(&mut self.states, bucket, WindowState::new(now));
        let result = state.charge(n, self.window, now);
        put_window(&mut self.states, bucket, state);
        proof {
            assert(window_states(self.states) =~= tier_charged(
                old(self).seen(),
                bucket@,
                n,
                now,
            ).states);
        }
        result
    }
}

/// Per-(origin, ip) bandwidth limiter enforcing all configured connection tiers
/// simultaneously.
pub struct BandwidthLimiter {
    tiers: Vec<Tier>,
    started: Instant,
}

impl View for BandwidthLimiter {
    type V = Seq<TierView>;

    closed spec fn view(&self) -> Seq<TierView> {
        Seq::new(self.tiers@.len(), |i: int| self.tiers@[i].seen())
    }
}

/// The tiers of a limiter that has not been charged yet.
pub open spec fn fresh_tiers(tiers: Seq<LimitTier>) -> Seq<TierView> {
    Seq::new(
        tiers.len(),
        |i: int|
            TierView {
                window: Window { secs: tiers[i].window, max: tiers[i].max },
                states: WindowStates::empty(),
            },
    )
}

impl BandwidthLimiter {
    /// Construct from the config's connection bandwidth tiers.
    pub fn new(tiers: &[LimitTier]) -> (r: BandwidthLimiter)
        ensures
            r@ == fresh_tiers(tiers@),
    {
        let mut compiled: Vec<Tier> = Vec::new();
        let mut i: usize = 0;
        while i < tiers.len()
            invariant
                i <= tiers@.len(),
                compiled@.len() == i,
                forall|j: int|
                    0 <= j < i ==> (#[trigger] compiled@[j]).seen() == fresh_tiers(tiers@)[j],
            decreases tiers@.len() - i,
        {
            compiled.push(
                Tier {
                    window: Window { secs: tiers[i].window, max: tiers[i].max },
                    states: no_windows(),
                },
            );
            i += 1;
        }
        let limiter = BandwidthLimiter { tiers: compiled, started: Instant::now() };
        proof {
            assert(limiter@ =~= fresh_tiers(tiers@));
        }
        limiter
    }

    /// Charge `n` bytes against every tier for the given bucket key, at `now`
    /// nanoseconds from the limiter's start. Returns the first tier error encountered
    /// (all tiers are still charged up to the failing one).
    pub fn charge_at(&mut self, bucket: &str, n: u64, now: u128) -> (r: Result<(), BandwidthError>)
        ensures
            final(self)@ == tiers_charged(old(self)@, bucket@, n, now),
            r == charge_result(old(self)@, bucket@, n, now),
    {
        let ghost before = self@;
        let mut i: usize = 0;
        let len: usize = self.tiers.len();
        while i < len
            invariant
                i <= len,
                len == self.tiers@.len(),
                before == old(self)@,
                before.len() == len,
                forall|j: int| 0 <= j < i ==> tier_fits(#[trigger] before[j], bucket@, n, now),
                forall|j: int|
                    0 <= j < i ==> (#[trigger] self.tiers@[j]).seen() == tier_charged(
                        before[j],
                        bucket@,
                        n,
                        now,
                    ),
                forall|j: int|
                    i <= j < len ==> (#[trigger] self.tiers@[j]).seen() == before[j],
            decreases len - i,
        {
            let ghost earlier = self.tiers@;
            let tier = &mut self.tiers[i];
            let result = tier.charge(bucket, n, now);
            proof {
                assert(forall|j: int|
                    0 <= j < len && j != i ==> (#[trigger] self.tiers@[j]) == earlier[j]);
                assert(earlier[i as int].seen() == before[i as int]);
            }
            if let Err(error) = result {
                proof {
                    lemma_full_at(before, bucket@, n, now, i as nat);
                    assert(self@ =~= tiers_charged(before, bucket@, n, now));
                }
                return Err(error);
            }
            i += 1;
        }
        proof {
            lemma_full_at(before, bucket@, n, now, len as nat);
            assert(self@ =~= tiers_charged(before, bucket@, n, now));
        }
        Ok(())
    }

    /// Charge `n` bytes against every tier for the given bucket key.
    pub fn charge(&mut self, bucket: &str, n: u64) -> (r: Result<(), BandwidthError>)
        ensures
            exists|now: u128|
                final(self)@ == #[trigger] tiers_charged(old(self)@, bucket@, n, now) && r
                    == charge_result(old(self)@, bucket@, n, now),
    {
        let now: u128 = nanos_since(&self.started);
        self.charge_at(bucket, n, now)
    }
}

/// The bytes counted after a charge of `n`; without a cap nothing is counted.
pub open spec fn counted(used: u64, max: u64, n: u64) -> u64 {
    if max == 0 {
        used
    } else {
        capped_sum(used, n)
    }
}

/// What a charge of `n` bytes says: the cap is exceeded as soon as the total is above
/// it.
pub open spec fn cap_result(used: u64, max: u64, n: u64) -> Result<(), BandwidthError> {
    if max != 0 && counted(used, max, n) > max {
        Err(BandwidthError::ResultExceeded { used: counted(used, max, n), max })
    } else {
        Ok(())
    }
}

/// A guard that tracks total bytes for a single proxied response and enforces the
/// per-result cap.
#[derive(Debug)]
pub struct ResultSizeGuard {
    /// Bytes streamed so far.
    used: u64,
    /// Hard cap on total bytes for this result.
    max: u64,
}

impl ResultSizeGuard {
    /// Bytes streamed so far.
    pub closed spec fn used(self) -> u64 {
        self.used
    }

    /// Hard cap on total bytes; 0 for none.
    pub closed spec fn max(self) -> u64 {
        self.max
    }

    /// Create a guard. `max == 0` means "no per-result cap".
    pub fn new(max: u64) -> (r: ResultSizeGuard)
        ensures
            r.used() == 0,
            r.max() == max,
    {
        ResultSizeGuard { used: 0, max }
    }

    /// Returns `true` if a `Content-Length` of `n` would exceed the cap. When there is
    /// no cap (`max == 0`), always returns `false`.
    pub fn would_exceed(&self, n: u64) -> (r: bool)
        ensures
            r == (self.max() != 0 && n > self.max()),
    {
        self.max != 0 && n > self.max
    }

    /// Charge `n` bytes. Returns `Err` if the running total exceeds the cap.
    pub fn charge(&mut self, n: u64) -> (r: Result<(), BandwidthError>)
        ensures
            final(self).max() == old(self).max(),
            final(self).used() == counted(old(self).used(), old(self).max(), n),
            r == cap_result(old(self).used(), old(self).max(), n),
    {
        if self.max == 0 {
            return Ok(());
        }
        self.used = self.used.saturating_add(n);
        if self.used > self.max {
            return Err(BandwidthError::ResultExceeded { used: self.used, max: self.max });
        }
        Ok(())
    }
}

/// Errors that can occur while streaming a proxied response body.
#[derive(Debug)]
pub enum MeteredError {
    /// The upstream stream produced an error.
    Upstream(String),
    /// The per-result size cap was exceeded.
    ResultExceeded { used: u64, max: u64 },
    /// A connection-bandwidth tier was exceeded.
    ConnectionExceeded { max: u64, secs: u64 },
}

impl MeteredError {
    /// The error in words.
    pub open spec fn words(self) -> Seq<char> {
        match self {
            MeteredError::Upstream(cause) => "upstream stream error: "@ + cause@,
            MeteredError::ResultExceeded { used, max } => result_words(used, max),
            MeteredError::ConnectionExceeded { max, secs } => tier_words(max, secs),
        }
    }

    /// The error in words.
    pub fn message(&self) -> (r: String)
        ensures
            r@ == self.words(),
    {
        match self {
            MeteredError::Upstream(cause) => "upstream stream error: ".to_owned().concat(cause),
            MeteredError::ResultExceeded { used, max } => tell_result(*used, *max),
            MeteredError::ConnectionExceeded { max, secs } => tell_tier(*max, *secs),
        }
    }
}

/// The same error as one of a metered stream.
pub open spec fn metered(error: BandwidthError) -> MeteredError {
    match error {
        BandwidthError::ResultExceeded { used, max } => MeteredError::ResultExceeded { used, max },
        BandwidthError::ConnectionExceeded { max, secs } => MeteredError::ConnectionExceeded {
            max,
            secs,
        },
    }
}

impl vstd::std_specs::convert::FromSpecImpl<BandwidthError> for MeteredError {
    open spec fn obeys_from_spec() -> bool {
        true
    }

    open spec fn from_spec(error: BandwidthError) -> MeteredError {
        metered(error)
    }
}

impl From<BandwidthError> for MeteredError {
    fn from(error: BandwidthError) -> (r: MeteredError) {
        match error {
            BandwidthError::ResultExceeded { used, max } => MeteredError::ResultExceeded {
                used,
                max,
            },
            BandwidthError::ConnectionExceeded { max, secs } => MeteredError::ConnectionExceeded {
                max,
                secs,
            },
        }
    }
}

/// What becomes of a chunk of `n` bytes: the error that ends the stream, or the full tier
/// that is noted beside it, if there is one.
pub open spec fn chunk_outcome(
    used: u64,
    max: u64,
    tiers: Seq<TierView>,
    bucket: Seq<char>,
    n: u64,
    now: u128,
) -> Result<Option<BandwidthError>, MeteredError> {
    match cap_result(used, max, n) {
        Err(error) => Err(metered(error)),
        Ok(_) => Ok(charge_result(tiers, bucket, n, now).err()),
    }
}

/// What a chunk leaves of the tiers: one that ends the stream is not charged to them.
pub open spec fn chunk_charged(
    used: u64,
    max: u64,
    tiers: Seq<TierView>,
    bucket: Seq<char>,
    n: u64,
    now: u128,
) -> Seq<TierView> {
    match cap_result(used, max, n) {
        Err(_) => tiers,
        Ok(_) => tiers_charged(tiers, bucket, n, now),
    }
}

/// One step of a metered stream: a chunk of `n` bytes, at `now` nanoseconds from the
/// limiter's start.
///
/// The chunk is charged against the per-result guard first, then against the
/// connection tiers. A per-result failure is an error, which ends the stream, and
/// nothing is charged against the tiers. A full tier is soft: it is handed back beside
/// the chunk, which goes on to the client.
pub fn meter_chunk_at(
    guard: &mut ResultSizeGuard,
    limiter: &mut BandwidthLimiter,
    bucket: &str,
    n: u64,
    now: u128,
) -> (r: Result<Option<BandwidthError>, MeteredError>)
    ensures
        final(guard).max() == old(guard).max(),
        final(guard).used() == counted(old(guard).used(), old(guard).max(), n),
        r == chunk_outcome(
            old(guard).used(),
            old(guard).max(),
            old(limiter)@,
            bucket@,
            n,
            now,
        ),
        final(limiter)@ == chunk_charged(
            old(guard).used(),
            old(guard).max(),
            old(limiter)@,
            bucket@,
            n,
            now,
        ),
{
    if let Err(error) = guard.charge(n) {
        return Err(MeteredError::from(error));
    }
    match limiter.charge_at(bucket, n, now) {
        Ok(_) => Ok(None),
        Err(error) => Ok(Some(error)),
    }
}

/// One step of a metered stream, at the time of the call.
pub fn meter_chunk(
    guard: &mut ResultSizeGuard,
    limiter: &mut BandwidthLimiter,
    bucket: &str,
    n: u64,
) -> (r: Result<Option<BandwidthError>, MeteredError>)
    ensures
        final(guard).max() == old(guard).max(),
        final(guard).used() == counted(old(guard).used(), old(guard).max(), n),
        exists|now: u128|
            r == #[trigger] chunk_outcome(
                old(guard).used(),
                old(guard).max(),
                old(limiter)@,
                bucket@,
                n,
                now,
            ) && final(limiter)@ == chunk_charged(
                old(guard).used(),
                old(guard).max(),
                old(limiter)@,
                bucket@,
                n,
                now,
            ),
{
    let now: u128 = nanos_since(&limiter.started);
    meter_chunk_at(guard, limiter, bucket, n, now)
}

/// The bytes of some chunks together.
pub open spec fn total(chunks: Seq<u64>) -> nat
    decreases chunks.len(),
{
    if chunks.len() == 0 {
        0
    } else {
        total(chunks.drop_last()) + chunks.last() as nat
    }
}

/// What a guard has counted after some chunks, or `None` where one of them exceeded
/// the cap.
pub open spec fn let_through(max: u64, chunks: Seq<u64>) -> Option<u64>
    decreases chunks.len(),
{
    if chunks.len() == 0 {
        Some(0)
    } else {
        match let_through(max, chunks.drop_last()) {
            Some(used) => match cap_result(used, max, chunks.last()) {
                Ok(_) => Some(counted(used, max, chunks.last())),
                Err(_) => None,
            },
            None => None,
        }
    }
}

/// A guard lets a body through exactly when its bytes together are within the cap.
/// Without a cap it lets everything through. (A cap of `u64::MAX` cannot tell a longer
/// body from one of just that length.)
pub proof fn law_cap_bounds_body(max: u64, chunks: Seq<u64>)
    requires
        max < u64::MAX || total(chunks) <= u64::MAX,
    ensures
        let_through(max, chunks) is Some <==> max == 0 || total(chunks) <= max,
        max != 0 && let_through(max, chunks) is Some ==> let_through(max, chunks)->0 == total(
            chunks,
        ),
    decreases chunks.len(),
{
    if chunks.len() > 0 {
        law_cap_bounds_body(max, chunks.drop_last());
    }
}

/// A declared length is refused exactly when a guard would refuse a body of that
/// length in one chunk.
pub proof fn law_declared_length(max: u64, n: u64)
    ensures
        (max != 0 && n > max) <==> cap_result(0, max, n) is Err,
{
}

/// The connection limit is soft: it never ends a stream. What ends it is the cap, and
/// without one nothing does.
pub proof fn law_tiers_never_end_a_stream(
    used: u64,
    max: u64,
    tiers: Seq<TierView>,
    bucket: Seq<char>,
    n: u64,
    now: u128,
)
    ensures
        chunk_outcome(used, max, tiers, bucket, n, now) is Err <==> cap_result(used, max, n) is Err,
        max == 0 ==> chunk_outcome(used, max, tiers, bucket, n, now) is Ok,
        charge_result(tiers, bucket, n, now) is Err && cap_result(used, max, n) is Ok
            ==> chunk_outcome(used, max, tiers, bucket, n, now) == Ok::<
            Option<BandwidthError>,
            MeteredError,
        >(Some(charge_result(tiers, bucket, n, now)->Err_0)),
{
}

/// Once the cap is exceeded, every further charge fails too.
pub proof fn law_exceeded_stays_exceeded(used: u64, max: u64, n: u64, next: u64)
    requires
        cap_result(used, max, n) is Err,
    ensures
        cap_result(counted(used, max, n), max, next) is Err,
{
}

/// A limiter never counts more for a window than it allows.
pub open spec fn within_limits(tiers: Seq<TierView>) -> bool {
    forall|i: int, bucket: Seq<char>|
        0 <= i < tiers.len() && #[trigger] tiers[i].states.contains_key(bucket)
            ==> tiers[i].states[bucket].used <= tiers[i].window.max
}

/// A new limiter counts nothing above its limits, and no charge changes that.
pub proof fn law_limits_hold(
    config: Seq<LimitTier>,
    tiers: Seq<TierView>,
    bucket: Seq<char>,
    n: u64,
    now: u128,
)
    ensures
        within_limits(fresh_tiers(config)),
        within_limits(tiers) ==> within_limits(tiers_charged(tiers, bucket, n, now)),
{
    if within_limits(tiers) {
        let after = tiers_charged(tiers, bucket, n, now);
        assert forall|i: int, other: Seq<char>|
            0 <= i < after.len() && #[trigger] after[i].states.contains_key(
                other,
            ) implies after[i].states[other].used <= after[i].window.max by {
            if tiers[i].states.contains_key(other) {
                assert(tiers[i].states[other].used <= tiers[i].window.max);
            }
        }
    }
}

/// What is charged to one bucket leaves every other bucket as it was, in every tier.
pub proof fn law_buckets_are_isolated(
    tiers: Seq<TierView>,
    bucket: Seq<char>,
    other: Seq<char>,
    n: u64,
    now: u128,
    m: u64,
    later: u128,
)
    requires
        bucket != other,
    ensures
        tiers_charged(tiers, bucket, n, now).len() == tiers.len(),
        forall|i: int|
            0 <= i < tiers.len() ==> {
                &&& (#[trigger] tiers_charged(tiers, bucket, n, now)[i]).window == tiers[i].window
                &&& tiers_charged(tiers, bucket, n, now)[i].states.contains_key(other)
                    == tiers[i].states.contains_key(other)
                &&& tiers[i].states.contains_key(other) ==> tiers_charged(
                    tiers,
                    bucket,
                    n,
                    now,
                )[i].states[other] == tiers[i].states[other]
            },
        charge_result(tiers_charged(tiers, bucket, n, now), other, m, later) == charge_result(
            tiers,
            other,
            m,
            later,
        ),
{
    let after = tiers_charged(tiers, bucket, n, now);
    assert forall|i: int| 0 <= i < tiers.len() implies bucket_state(
        #[trigger] after[i],
        other,
        later,
    ) == bucket_state(tiers[i], other, later) by {}
    lemma_first_full(tiers, other, m, later);
    let first = first_full(tiers, other, m, later);
    assert forall|j: int| 0 <= j < first implies tier_fits(
        #[trigger] after[j],
        other,
        m,
        later,
    ) by {
        assert(tier_fits(tiers[j], other, m, later));
    }
    lemma_full_at(after, other, m, later, first);
}

/// All tiers are enforced: a charge succeeds exactly when every tier has room for it.
pub proof fn law_all_tiers_apply(tiers: Seq<TierView>, bucket: Seq<char>, n: u64, now: u128)
    ensures
        charge_result(tiers, bucket, n, now) is Ok <==> forall|i: int|
            0 <= i < tiers.len() ==> tier_fits(#[trigger] tiers[i], bucket, n, now),
{
    lemma_first_full(tiers, bucket, n, now);
    if first_full(tiers, bucket, n, now) < tiers.len() {
        assert(!tier_fits(tiers[first_full(tiers, bucket, n, now) as int], bucket, n, now));
    }
}

/// Once a window is over, the whole of its limit is available again.
pub proof fn law_window_resets(state: WindowState, window: Window, n: u64, now: u128)
    requires
        elapsed(state.window_start, window, now),
    ensures
        fits(state, n, window, now) <==> n <= window.max,
{
}

/// Whether a window that started at `start` is still going on at `now`: fewer seconds have
/// passed than it has.
pub open spec fn goes_on(start: u128, window: Window, now: u128) -> bool {
    window.secs > 0 && now < start + window.secs * 1_000_000_000
}

/// A window is fixed: whatever is charged inside it leaves its start, so that it is over
/// when its seconds have passed since then; a charge after that starts a new one.
pub proof fn law_windows_are_fixed(state: WindowState, n: u64, window: Window, now: u128)
    ensures
        goes_on(state.window_start, window, now) ==> charged(
            state,
            n,
            window,
            now,
        ).window_start == state.window_start,
        !goes_on(state.window_start, window, now) ==> charged(
            state,
            n,
            window,
            now,
        ).window_start == now,
{
}

/// Inside a window what fits is counted and what does not fit is not; after it the counting
/// begins anew. (With the largest limit there is, everything fits.)
pub proof fn law_bytes_are_counted(state: WindowState, n: u64, window: Window, now: u128)
    ensures
        ({
            let used: int = if goes_on(state.window_start, window, now) {
                state.used as int
            } else {
                0
            };
            let after = charged(state, n, window, now);
            &&& fits(state, n, window, now) <==> used + n <= window.max || window.max
                == 0xffff_ffff_ffff_ffff
            &&& used + n <= window.max ==> after.used == used + n
            &&& used + n > window.max && window.max < 0xffff_ffff_ffff_ffff ==> after.used == used
            &&& used + n > 0xffff_ffff_ffff_ffff && window.max == 0xffff_ffff_ffff_ffff
                ==> after.used == 0xffff_ffff_ffff_ffff
        }),
{
}

/// A window after some charges, each of so many bytes at such a time.
pub open spec fn charged_all(
    state: WindowState,
    window: Window,
    charges: Seq<(u64, u128)>,
) -> WindowState
    decreases charges.len(),
{
    if charges.len() == 0 {
        state
    } else {
        charged(
            charged_all(state, window, charges.drop_last()),
            charges.last().0,
            window,
            charges.last().1,
        )
    }
}

/// The bytes of some charges together.
pub open spec fn charges_total(charges: Seq<(u64, u128)>) -> nat
    decreases charges.len(),
{
    if charges.len() == 0 {
        0
    } else {
        charges_total(charges.drop_last()) + charges.last().0 as nat
    }
}

/// Whatever is charged to a window while it lasts, it ends when its seconds have passed
/// since its start, and then the whole of its limit is there again. Charges that fit
/// together are all counted.
pub proof fn law_limits_return(
    state: WindowState,
    window: Window,
    charges: Seq<(u64, u128)>,
    n: u64,
    later: u128,
)
    requires
        forall|i: int|
            0 <= i < charges.len() ==> goes_on(
                state.window_start,
                window,
                (#[trigger] charges[i]).1,
            ),
    ensures
        charged_all(state, window, charges).window_start == state.window_start,
        later >= state.window_start + window.secs * 1_000_000_000 ==> (fits(
            charged_all(state, window, charges),
            n,
            window,
            later,
        ) <==> n <= window.max),
        state.used + charges_total(charges) <= window.max ==> charged_all(
            state,
            window,
            charges,
        ).used == state.used + charges_total(charges),
    decreases charges.len(),
{
    if charges.len() > 0 {
        let before = charges.drop_last();
        assert forall|i: int| 0 <= i < before.len() implies goes_on(
            state.window_start,
            window,
            (#[trigger] before[i]).1,
        ) by {
            assert(charges[i] == before[i]);
        }
        law_limits_return(state, window, before, n, later);
        let last = charges[charges.len() - 1];
        let earlier = charged_all(state, window, before);
        law_windows_are_fixed(earlier, last.0, window, last.1);
        law_bytes_are_counted(earlier, last.0, window, last.1);
        law_bytes_are_counted(charged_all(state, window, charges), n, window, later);
    } else {
        law_bytes_are_counted(state, n, window, later);
    }
}

/// A charge goes through the tiers in their order: those before the first full one have
/// counted it, those behind are as they were, and the error names the limit and the seconds
/// of that tier.
pub proof fn law_first_full_tier_decides(
    tiers: Seq<TierView>,
    bucket: Seq<char>,
    n: u64,
    now: u128,
    i: int,
)
    requires
        0 <= i < tiers.len(),
        !tier_fits(tiers[i], bucket, n, now),
        forall|j: int| 0 <= j < i ==> tier_fits(#[trigger] tiers[j], bucket, n, now),
    ensures
        charge_result(tiers, bucket, n, now) == Err::<(), BandwidthError>(
            BandwidthError::ConnectionExceeded {
                max: tiers[i].window.max,
                secs: tiers[i].window.secs,
            },
        ),
        forall|j: int|
            i < j < tiers.len() ==> #[trigger] tiers_charged(tiers, bucket, n, now)[j] == tiers[j],
        forall|j: int|
            0 <= j <= i ==> (#[trigger] tiers_charged(
                tiers,
                bucket,
                n,
                now,
            )[j]).states.contains_key(bucket),
{
    lemma_full_at(tiers, bucket, n, now, i as nat);
}

/// A bucket that was never charged has the whole limit of every tier, and one that was has
/// what is left in its own window; afterwards the tier holds what the charge left, and its
/// limits are as before.
pub proof fn law_buckets_are_charged(tier: TierView, bucket: Seq<char>, n: u64, now: u128)
    ensures
        !tier.states.contains_key(bucket) ==> (tier_fits(tier, bucket, n, now) <==> n
            <= tier.window.max),
        tier.states.contains_key(bucket) ==> (tier_fits(tier, bucket, n, now) <==> fits(
            tier.states[bucket],
            n,
            tier.window,
            now,
        )),
        tier_charged(tier, bucket, n, now).window == tier.window,
        tier_charged(tier, bucket, n, now).states.contains_key(bucket),
        tier.states.contains_key(bucket) ==> tier_charged(tier, bucket, n, now).states[bucket]
            == charged(tier.states[bucket], n, tier.window, now),
        !tier.states.contains_key(bucket) && n <= tier.window.max ==> tier_charged(
            tier,
            bucket,
            n,
            now,
        ).states[bucket] == (WindowState { used: n, window_start: now }),
        !tier.states.contains_key(bucket) && n > tier.window.max ==> tier_charged(
            tier,
            bucket,
            n,
            now,
        ).states[bucket] == (WindowState { used: 0, window_start: now }),
{
}

/// Where every tier has room, every tier counts the charge.
pub proof fn law_all_tiers_count(tiers: Seq<TierView>, bucket: Seq<char>, n: u64, now: u128)
    requires
        forall|i: int| 0 <= i < tiers.len() ==> tier_fits(#[trigger] tiers[i], bucket, n, now),
    ensures
        charge_result(tiers, bucket, n, now) is Ok,
        tiers_charged(tiers, bucket, n, now).len() == tiers.len(),
        forall|i: int|
            0 <= i < tiers.len() ==> #[trigger] tiers_charged(tiers, bucket, n, now)[i]
                == tier_charged(tiers[i], bucket, n, now),
{
    lemma_full_at(tiers, bucket, n, now, tiers.len());
}

/// A limiter has the tiers that were configured, in their order, and nothing charged.
pub proof fn law_tiers_are_configured(config: Seq<LimitTier>, i: int, bucket: Seq<char>)
    ensures
        fresh_tiers(config).len() == config.len(),
        0 <= i < config.len() ==> {
            &&& fresh_tiers(config)[i].window.secs == config[i].window
            &&& fresh_tiers(config)[i].window.max == config[i].max
            &&& !fresh_tiers(config)[i].states.contains_key(bucket)
        },
{
}

/// A guard counts every byte of a body under a cap and refuses at the first byte above it,
/// naming what was counted and the cap; without a cap it refuses nothing.
pub proof fn law_guard(used: u64, max: u64, n: u64)
    ensures
        max == 0 ==> cap_result(used, max, n) is Ok,
        max != 0 && used + n <= max ==> cap_result(used, max, n) is Ok && counted(used, max, n)
            == used + n,
        max != 0 && max < used + n <= 0xffff_ffff_ffff_ffff ==> counted(used, max, n) == used + n
            && cap_result(used, max, n) == Err::<(), BandwidthError>(
            BandwidthError::ResultExceeded { used: (used + n) as u64, max },
        ),
        max != 0 && max < 0xffff_ffff_ffff_ffff && used + n > 0xffff_ffff_ffff_ffff
            ==> cap_result(used, max, n) == Err::<(), BandwidthError>(
            BandwidthError::ResultExceeded { used: 0xffff_ffff_ffff_ffff, max },
        ),
{
}

/// A declared length is above the cap exactly when there is a cap and it is less.
pub proof fn law_declared_lengths(guard: ResultSizeGuard, n: u64, r: bool)
    requires
        call_ensures(ResultSizeGuard::would_exceed, (&guard, n), r),
    ensures
        r <==> 0 < guard.max() < n,
{
}

/// A guard begins with nothing counted.
pub proof fn law_guards_begin_empty(max: u64, r: ResultSizeGuard)
    requires
        call_ensures(ResultSizeGuard::new, (max,), r),
    ensures
        r.used() == 0,
        r.max() == max,
{
}

/// The cap comes first: a chunk above it ends the stream with the cap's error and leaves the
/// tiers as they were; any other chunk goes through and is charged to the tiers.
pub proof fn law_chunks(
    used: u64,
    max: u64,
    tiers: Seq<TierView>,
    bucket: Seq<char>,
    n: u64,
    now: u128,
)
    ensures
        max != 0 && max < used + n <= 0xffff_ffff_ffff_ffff ==> {
            &&& chunk_outcome(used, max, tiers, bucket, n, now) == Err::<
                Option<BandwidthError>,
                MeteredError,
            >(MeteredError::ResultExceeded { used: (used + n) as u64, max })
            &&& chunk_charged(used, max, tiers, bucket, n, now) == tiers
        },
        max == 0 || used + n <= max ==> {
            &&& chunk_charged(used, max, tiers, bucket, n, now) == tiers_charged(
                tiers,
                bucket,
                n,
                now,
            )
            &&& charge_result(tiers, bucket, n, now) is Ok ==> chunk_outcome(
                used,
                max,
                tiers,
                bucket,
                n,
                now,
            ) == Ok::<Option<BandwidthError>, MeteredError>(None)
            &&& charge_result(tiers, bucket, n, now) is Err ==> chunk_outcome(
                used,
                max,
                tiers,
                bucket,
                n,
                now,
            ) == Ok::<Option<BandwidthError>, MeteredError>(
                Some(charge_result(tiers, bucket, n, now)->Err_0),
            )
        },
{
}

/// An error says in words what it is, with its numbers, and says the same whether it is
/// found while counting or while streaming.
pub proof fn law_error_words(used: u64, max: u64, secs: u64, cause: String)
    ensures
        (BandwidthError::ResultExceeded { used, max }).words() == "result size cap exceeded ("@
            + text::decimal(used as nat) + " > "@ + text::decimal(max as nat) + " bytes)"@,
        (BandwidthError::ConnectionExceeded { max, secs }).words()
            == "bandwidth limit exceeded for tier ("@ + text::decimal(max as nat) + " bytes / "@
            + text::decimal(secs as nat) + "s)"@,
        (MeteredError::Upstream(cause)).words() == "upstream stream error: "@ + cause@,
        metered(BandwidthError::ResultExceeded { used, max }) == (MeteredError::ResultExceeded {
            used,
            max,
        }),
        metered(BandwidthError::ConnectionExceeded { max, secs })
            == (MeteredError::ConnectionExceeded { max, secs }),
        (MeteredError::ResultExceeded { used, max }).words() == (BandwidthError::ResultExceeded {
            used,
            max,
        }).words(),
        (MeteredError::ConnectionExceeded { max, secs }).words()
            == (BandwidthError::ConnectionExceeded { max, secs }).words(),
{
}

/// A charge of a window succeeds exactly when the bytes fit into what is left of it, and
/// leaves the window as stated; an error names the limit and the seconds.
pub proof fn law_window_charges(
    state: &mut WindowState,
    n: u64,
    window: Window,
    now: u128,
    r: Result<(), BandwidthError>,
)
    requires
        call_ensures(WindowState::charge, (state, n, window, now), r),
    ensures
        goes_on(old(state).window_start, window, now) ==> final(state).window_start == old(
            state,
        ).window_start,
        goes_on(old(state).window_start, window, now) && old(state).used + n <= window.max
            ==> r is Ok && final(state).used == old(state).used + n,
        goes_on(old(state).window_start, window, now) && old(state).used + n > window.max
            && window.max < 0xffff_ffff_ffff_ffff ==> r is Err && final(state).used == old(
            state,
        ).used,
        !goes_on(old(state).window_start, window, now) ==> final(state).window_start == now && (
        r is Ok <==> n <= window.max) && (r is Ok ==> final(state).used == n) && (r is Err
            ==> final(state).used == 0),
        r is Err ==> r->Err_0 == (BandwidthError::ConnectionExceeded {
            max: window.max,
            secs: window.secs,
        }),
{
}

/// A charge of a bucket goes through the tiers as stated.
pub proof fn law_limiter_charges(
    limiter: &mut BandwidthLimiter,
    bucket: &str,
    n: u64,
    now: u128,
    r: Result<(), BandwidthError>,
)
    requires
        call_ensures(BandwidthLimiter::charge_at, (limiter, bucket, n, now), r),
    ensures
        final(limiter)@ == tiers_charged(old(limiter)@, bucket@, n, now),
        r == charge_result(old(limiter)@, bucket@, n, now),
        r is Ok <==> forall|i: int|
            0 <= i < old(limiter)@.len() ==> tier_fits(
                #[trigger] old(limiter)@[i],
                bucket@,
                n,
                now,
            ),
{
    law_all_tiers_apply(old(limiter)@, bucket@, n, now);
}

/// A guard counts what it is charged and refuses what is above its cap, for good.
pub proof fn law_guard_charges(guard: &mut ResultSizeGuard, n: u64, r: Result<(), BandwidthError>)
    requires
        call_ensures(ResultSizeGuard::charge, (guard, n), r),
    ensures
        final(guard).max() == old(guard).max(),
        old(guard).max() == 0 ==> r is Ok,
        old(guard).max() > 0 && old(guard).used() + n <= 0xffff_ffff_ffff_ffff
            ==> final(guard).used() == old(guard).used() + n && (r is Ok <==> old(guard).used() + n
            <= old(guard).max()),
        r is Err ==> r->Err_0 == (BandwidthError::ResultExceeded {
            used: final(guard).used(),
            max: old(guard).max(),
        }),
{
}

/// A limiter is made with the tiers that are configured.
pub proof fn law_new_limiters(config: &[LimitTier], r: BandwidthLimiter, i: int)
    requires
        call_ensures(BandwidthLimiter::new, (config,), r),
    ensures
        r@.len() == config@.len(),
        0 <= i < config@.len() ==> r@[i].window.secs == config@[i].window && r@[i].window.max
            == config@[i].max && r@[i].states.dom().len() == 0,
{
    assert(r@ == fresh_tiers(config@));
}

/// A chunk is charged to the guard and, where that lets it through, to the tiers.
pub proof fn law_metered_chunks(
    guard: &mut ResultSizeGuard,
    limiter: &mut BandwidthLimiter,
    bucket: &str,
    n: u64,
    now: u128,
    r: Result<Option<BandwidthError>, MeteredError>,
)
    requires
        call_ensures(meter_chunk_at, (guard, limiter, bucket, n, now), r),
    ensures
        final(guard).max() == old(guard).max(),
        r is Err <==> cap_result(old(guard).used(), old(guard).max(), n) is Err,
        r is Err ==> final(limiter)@ == old(limiter)@,
        r is Ok ==> final(limiter)@ == tiers_charged(old(limiter)@, bucket@, n, now),
        r is Ok ==> (r->Ok_0 is None <==> charge_result(old(limiter)@, bucket@, n, now) is Ok),
        r is Ok && r->Ok_0 is Some ==> charge_result(old(limiter)@, bucket@, n, now) == Err::<
            (),
            BandwidthError,
        >(r->Ok_0->0),
        old(guard).max() > 0 && old(guard).used() + n <= 0xffff_ffff_ffff_ffff
            ==> final(guard).used() == old(guard).used() + n,
{
}

/// At the time of the call, whatever that is, a charge is as at some time; without tiers
/// there is nothing to exceed.
pub proof fn law_charges_now(
    limiter: &mut BandwidthLimiter,
    bucket: &str,
    n: u64,
    r: Result<(), BandwidthError>,
)
    requires
        call_ensures(BandwidthLimiter::charge, (limiter, bucket, n), r),
    ensures
        exists|at: u128|
            final(limiter)@ == #[trigger] tiers_charged(old(limiter)@, bucket@, n, at) && r
                == charge_result(old(limiter)@, bucket@, n, at),
        old(limiter)@.len() == 0 ==> r is Ok,
{
}

/// At the time of the call, whatever that is, the cap alone ends a stream.
pub proof fn law_chunks_now(
    guard: &mut ResultSizeGuard,
    limiter: &mut BandwidthLimiter,
    bucket: &str,
    n: u64,
    r: Result<Option<BandwidthError>, MeteredError>,
)
    requires
        call_ensures(meter_chunk, (guard, limiter, bucket, n), r),
    ensures
        final(guard).max() == old(guard).max(),
        final(guard).used() == counted(old(guard).used(), old(guard).max(), n),
        r is Err <==> cap_result(old(guard).used(), old(guard).max(), n) is Err,
        r is Err ==> final(limiter)@ == old(limiter)@,
        r is Ok ==> exists|at: u128|
            final(limiter)@ == #[trigger] tiers_charged(old(limiter)@, bucket@, n, at),
{
}

} // verus!
