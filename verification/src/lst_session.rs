//! Exclusive LST dispatch session lock: one browser operator at a time.
//!
//! A claim hands out a random token; the holder keeps it alive with heartbeats, and a
//! holder not seen for the TTL loses the lock, so lost Wi-Fi cannot hold it forever.
use vstd::prelude::*;
use std::time::Instant;

verus! {

/// Heartbeat / claim TTL in milliseconds.
pub const SESSION_TTL_MS: u128 = 20_000;

/// How often the console should send heartbeats, in seconds.
pub const HEARTBEAT_HINT_SECS: u64 = 8;

/// Version and variant bits of a random (version 4, RFC 4122) UUID.
pub open spec fn is_v4_uuid(v: u128) -> bool {
    v & 0x0000_0000_0000_F000_C000_0000_0000_0000 == 0x0000_0000_0000_4000_8000_0000_0000_0000
}

#[verifier::external_type_specification]
#[verifier::external_body]
pub struct ExInstant(Instant);

/// `uuid::Uuid::new_v4`, as its 128-bit value (`Uuid::as_u128`): random, with the
/// version-4 and RFC 4122 variant bits set, as the crate's source sets them.
#[verifier::external_body]
fn new_token() -> (r: u128)
    ensures
        is_v4_uuid(r),
{
    uuid::Uuid::new_v4().as_u128()
}

/// `std::time::Instant::now`. Nothing is stated of the reading.
#[verifier::external_body]
fn instant_now() -> Instant {
    Instant::now()
}

/// `std::time::Instant::elapsed`, in whole milliseconds. Nothing is stated of the
/// reading.
#[verifier::external_body]
fn elapsed_ms(i: &Instant) -> u128 {
    i.elapsed().as_millis()
}

/// The holder of the lock.
#[derive(Debug)]
pub struct SessionOwner {
    pub token: u128,
    pub claimed_at: Instant,
    pub last_seen: Instant,
    pub client_label: String,
}

/// The lock.
#[derive(Debug)]
pub struct SessionLock {
    owner: Option<SessionOwner>,
}

/// What a claim got.
#[derive(Debug)]
pub enum ClaimResult {
    /// The lock, with the token for later calls.
    Granted { token: u128 },
    /// Someone else holds it.
    Busy { holder: String },
}

/// The holder as (token, label).
pub open spec fn owner_view(o: Option<SessionOwner>) -> Option<(u128, Seq<char>)> {
    match o {
        Some(s) => Some((s.token, s.client_label@)),
        None => None,
    }
}

/// A holder last seen `elapsed_ms` milliseconds ago has outlived the TTL.
pub open spec fn spec_is_stale(elapsed_ms: u128) -> bool {
    elapsed_ms >= SESSION_TTL_MS
}

/// A holder last seen `elapsed_ms` milliseconds ago has outlived the TTL (see
/// [`spec_is_stale`]).
pub fn is_stale(elapsed_ms: u128) -> (r: bool)
    ensures
        r == spec_is_stale(elapsed_ms),
{
    elapsed_ms >= SESSION_TTL_MS
}

/// The holder `o` after the TTL check, its last sighting `elapsed_ms` ago: kept while
/// live, gone once stale.
pub open spec fn live_owner(o: Option<(u128, Seq<char>)>, elapsed_ms: u128) -> Option<(u128, Seq<char>)> {
    if spec_is_stale(elapsed_ms) {
        None
    } else {
        o
    }
}

/// The holder's times with its last sighting moved to `now`.
pub open spec fn seen_at(times: Option<(Instant, Instant)>, now: Instant) -> Option<(Instant, Instant)> {
    match times {
        Some((_, claimed)) => Some((now, claimed)),
        None => None,
    }
}

impl Default for SessionLock {
    fn default() -> (r: Self)
        ensures
            r.view_owner() is None,
    {
        SessionLock { owner: None }
    }
}

impl SessionLock {
    /// The holder, as (token, label).
    pub closed spec fn view_owner(&self) -> Option<(u128, Seq<char>)> {
        owner_view(self.owner)
    }

    /// When the holder was last seen (claim or heartbeat), and when it claimed the lock.
    pub closed spec fn view_times(&self) -> Option<(Instant, Instant)> {
        match self.owner {
            Some(o) => Some((o.last_seen, o.claimed_at)),
            None => None,
        }
    }

    /// Milliseconds since the holder was last seen (0 without a holder).
    fn holder_age_ms(&self) -> u128 {
        match &self.owner {
            Some(o) => elapsed_ms(&o.last_seen),
            None => 0,
        }
    }

    /// The TTL check, the holder last seen `elapsed_ms` ago: a stale holder is dropped.
    fn expire_at(&mut self, elapsed_ms: u128)
        ensures
            final(self).view_owner() == live_owner(old(self).view_owner(), elapsed_ms),
            final(self).view_owner() is Some ==> final(self).view_times() == old(self).view_times(),
    {
        if is_stale(elapsed_ms) {
            self.owner = None;
        }
    }

    /// Drop a holder not seen for the TTL.
    fn expire_if_stale(&mut self)
        ensures
            final(self).view_owner() == old(self).view_owner() || final(self).view_owner() is None,
    {
        let age = self.holder_age_ms();
        self.expire_at(age);
    }

    /// Claim with the holder last seen `elapsed_ms` ago, the fresh `token` and the time
    /// `now`: a live holder keeps the lock and the caller is told who holds it; otherwise
    /// the caller gets the lock, claimed and seen at `now`.
    pub fn claim_at(&mut self, client_label: String, elapsed_ms: u128, token: u128, now: Instant) -> (r: ClaimResult)
        ensures
            match live_owner(old(self).view_owner(), elapsed_ms) {
                Some(o) => (r matches ClaimResult::Busy { holder } && holder@ == o.1) && final(self).view_owner()
                    == old(self).view_owner() && final(self).view_times() == old(self).view_times(),
                None => r == (ClaimResult::Granted { token }) && final(self).view_owner() == Some(
                    (token, client_label@),
                ) && final(self).view_times() == Some((now, now)),
            },
    {
        self.expire_at(elapsed_ms);
        if let Some(o) = &self.owner {
            return ClaimResult::Busy {
                holder: crate::text::string_of(crate::text::chars_of(o.client_label.as_str()).as_slice()),
            };
        }
        self.owner = Some(SessionOwner { token, claimed_at: now, last_seen: now, client_label });
        ClaimResult::Granted { token }
    }

    /// Take the lock for `client_label`, unless a live holder has it: reads the clock and
    /// draws a random token, then [`SessionLock::claim_at`].
    pub fn claim(&mut self, client_label: String) -> (r: ClaimResult)
        ensures
            old(self).view_owner() is None ==> r is Granted,
            match r {
                ClaimResult::Granted { token } => final(self).view_owner() == Some((token, client_label@))
                    && is_v4_uuid(token),
                ClaimResult::Busy { holder } => (old(self).view_owner() matches Some(o) && holder@ == o.1)
                    && final(self).view_owner() == old(self).view_owner(),
            },
            r is Granted ==> exists|now: Instant| final(self).view_times() == Some((now, now)),
            r is Busy ==> final(self).view_times() == old(self).view_times(),
    {
        let age = self.holder_age_ms();
        let token = new_token();
        let now = instant_now();
        self.claim_at(client_label, age, token, now)
    }

    /// Heartbeat from `token`, the holder last seen `elapsed_ms` ago: true exactly when
    /// `token` holds the lock and is live, and then the holder is seen at `now`; a stale
    /// holder is dropped.
    pub fn heartbeat_at(&mut self, token: u128, elapsed_ms: u128, now: Instant) -> (r: bool)
        ensures
            r == (old(self).view_owner() matches Some(o) && o.0 == token && !spec_is_stale(elapsed_ms)),
            final(self).view_owner() == live_owner(old(self).view_owner(), elapsed_ms),
            r ==> old(self).view_times() is Some && final(self).view_times() == seen_at(old(self).view_times(), now),
            !r && final(self).view_owner() is Some ==> final(self).view_times() == old(self).view_times(),
    {
        self.expire_at(elapsed_ms);
        match self.owner.take() {
            Some(o) => {
                if o.token == token {
                    self.owner = Some(SessionOwner { last_seen: now, ..o });
                    true
                } else {
                    self.owner = Some(o);
                    false
                }
            },
            None => false,
        }
    }

    /// Keep the lock alive: reads the clock, then [`SessionLock::heartbeat_at`]. False when
    /// `token` does not hold the lock or its holder expired.
    pub fn heartbeat(&mut self, token: u128) -> (r: bool)
        ensures
            r ==> (old(self).view_owner() matches Some(o) && o.0 == token),
            r ==> final(self).view_owner() == old(self).view_owner(),
            !(old(self).view_owner() matches Some(o) && o.0 == token) ==> !r,
            (old(self).view_owner() matches Some(o) && o.0 == token) ==> r || final(self).view_owner() is None,
            final(self).view_owner() == old(self).view_owner() || final(self).view_owner() is None,
            r ==> exists|now: Instant| final(self).view_times() == #[trigger] seen_at(old(self).view_times(), now),
            !r && final(self).view_owner() is Some ==> final(self).view_times() == old(self).view_times(),
    {
        let age = self.holder_age_ms();
        let now = instant_now();
        self.heartbeat_at(token, age, now)
    }

    /// Give the lock up; false (and nothing changes) when `token` does not hold it.
    pub fn release(&mut self, token: u128) -> (r: bool)
        ensures
            r == (old(self).view_owner() matches Some(o) && o.0 == token),
            r ==> final(self).view_owner() is None,
            !r ==> final(self).view_owner() == old(self).view_owner(),
    {
        let holds = match &self.owner {
            Some(o) => o.token == token,
            None => false,
        };
        if holds {
            self.owner = None;
        }
        holds
    }

    /// Clear the lock whoever holds it (entity teardown / overload).
    pub fn force_clear(&mut self)
        ensures
            final(self).view_owner() is None,
    {
        self.owner = None;
    }

    /// `token` holds the lock and its holder, last seen `elapsed_ms` ago, is live.
    pub fn is_owner_at(&self, token: u128, elapsed_ms: u128) -> (r: bool)
        ensures
            r == (self.view_owner() matches Some(o) && o.0 == token && !spec_is_stale(elapsed_ms)),
    {
        match &self.owner {
            Some(o) => o.token == token && !is_stale(elapsed_ms),
            None => false,
        }
    }

    /// `token` holds the lock and was seen within the TTL: reads the clock, then
    /// [`SessionLock::is_owner_at`].
    pub fn is_owner(&self, token: u128) -> (r: bool)
        ensures
            r ==> (self.view_owner() matches Some(o) && o.0 == token),
    {
        self.is_owner_at(token, self.holder_age_ms())
    }

    /// The label of the holder, last seen `elapsed_ms` ago, after dropping it if stale.
    pub fn busy_holder_at(&mut self, elapsed_ms: u128) -> (r: Option<String>)
        ensures
            final(self).view_owner() == live_owner(old(self).view_owner(), elapsed_ms),
            final(self).view_owner() is Some ==> final(self).view_times() == old(self).view_times(),
            match final(self).view_owner() {
                Some(o) => r matches Some(h) && h@ == o.1,
                None => r is None,
            },
    {
        self.expire_at(elapsed_ms);
        match &self.owner {
            Some(o) => Some(crate::text::string_of(crate::text::chars_of(o.client_label.as_str()).as_slice())),
            None => None,
        }
    }

    /// The label of the live holder, if any: reads the clock, then
    /// [`SessionLock::busy_holder_at`].
    pub fn busy_holder(&mut self) -> (r: Option<String>)
        ensures
            final(self).view_owner() == old(self).view_owner() || final(self).view_owner() is None,
            final(self).view_owner() is Some ==> final(self).view_times() == old(self).view_times(),
            match final(self).view_owner() {
                Some(o) => r matches Some(h) && h@ == o.1,
                None => r is None,
            },
    {
        let age = self.holder_age_ms();
        self.busy_holder_at(age)
    }

    /// A holder, last seen `elapsed_ms` ago, is live (a stale one is dropped).
    pub fn has_owner_at(&mut self, elapsed_ms: u128) -> (r: bool)
        ensures
            final(self).view_owner() == live_owner(old(self).view_owner(), elapsed_ms),
            final(self).view_owner() is Some ==> final(self).view_times() == old(self).view_times(),
            r == final(self).view_owner() is Some,
    {
        self.expire_at(elapsed_ms);
        self.owner.is_some()
    }

    /// A live holder has the lock: reads the clock, then [`SessionLock::has_owner_at`].
    pub fn has_owner(&mut self) -> (r: bool)
        ensures
            final(self).view_owner() == old(self).view_owner() || final(self).view_owner() is None,
            final(self).view_owner() is Some ==> final(self).view_times() == old(self).view_times(),
            r == final(self).view_owner() is Some,
    {
        let age = self.holder_age_ms();
        self.has_owner_at(age)
    }
}

/// The TTL rule: a holder seen within the TTL keeps the lock against every other claim
/// and its own heartbeats succeed; once the TTL has passed since it was last seen, the
/// next claim takes the lock and its heartbeat fails.
pub proof fn lemma_ttl_rule(holder: (u128, Seq<char>), token: u128, elapsed_ms: u128)
    ensures
        !spec_is_stale(elapsed_ms) ==> live_owner(Some(holder), elapsed_ms) == Some(holder),
        spec_is_stale(elapsed_ms) ==> live_owner(Some(holder), elapsed_ms) is None,
        spec_is_stale(elapsed_ms) <==> elapsed_ms >= SESSION_TTL_MS,
{
}

} // verus!
