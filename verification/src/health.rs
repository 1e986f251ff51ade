//! The health sampler's software watchdog.
//!
//! Every snapshot interval the sampler (run by the caller) reads the caught-panic counter
//! and the core loop's tick age and hands them to [`watchdog_step`], which decides whether
//! to request a service restart. Restarts are debounced (the core must stay stalled for a
//! while) and rate-limited (a cooldown that survives the restart through a persisted
//! stamp), so a stall that reproduces at boot cannot reboot-loop the station.
use vstd::prelude::*;
use crate::text::{append_chars, chars_of, dec, dec_chars, parse_uint, parse_uint_exec, string_of, trim, trim_exec};

verus! {

/// Caught panics within the window that count as a panic storm.
pub const PANIC_STORM_BURST: u64 = 20;

/// Panic-storm window in milliseconds.
pub const PANIC_STORM_WINDOW_MS: u64 = 60_000;

/// The sampler's configuration (durations in milliseconds).
#[derive(Debug)]
pub struct HealthMonitorConfig {
    pub snapshot_interval_ms: u64,
    /// Tick age from which the core loop counts as stalled.
    pub core_stall_critical_ms: u64,
    /// Software watchdog: restart the service if the core loop stalls. Default off.
    pub restart_on_core_stall: bool,
    /// How long the core must stay stalled before a restart is requested.
    pub restart_after_critical_ms: u64,
    /// Minimum spacing between restart requests (anti-reboot-loop).
    pub restart_cooldown_ms: u64,
    /// Where to persist the last-restart timestamp so the cooldown survives the restart it
    /// triggers. `None` = in-memory only (cooldown resets at every boot).
    pub restart_state_path: Option<String>,
}

impl HealthMonitorConfig {
    /// The default sampler settings (5 s snapshots, watchdog off, 30 s stall before a
    /// restart, 10 min cooldown, nothing persisted) for the given stall threshold.
    pub fn with_stall_threshold(core_stall_critical_ms: u64) -> (r: Self)
        ensures
            r.snapshot_interval_ms == 5000,
            r.core_stall_critical_ms == core_stall_critical_ms,
            !r.restart_on_core_stall,
            r.restart_after_critical_ms == 30_000,
            r.restart_cooldown_ms == 600_000,
            r.restart_state_path is None,
    {
        HealthMonitorConfig {
            snapshot_interval_ms: 5000,
            core_stall_critical_ms,
            restart_on_core_stall: false,
            restart_after_critical_ms: 30_000,
            restart_cooldown_ms: 600_000,
            restart_state_path: None,
        }
    }
}

/// The watchdog settings in force: each duration at least one second.
#[derive(Debug, Clone, Copy, PartialEq, Eq, Structural)]
pub struct WatchdogParams {
    pub interval_ms: u64,
    pub restart_on_core_stall: bool,
    pub stall_critical_ms: u64,
    pub restart_after_ms: u64,
    pub cooldown_ms: u64,
}

/// `max(v, 1000)`.
pub open spec fn at_least_1s(v: u64) -> u64 {
    if v < 1000 {
        1000
    } else {
        v
    }
}

/// The settings in force for a configuration.
pub fn watchdog_params(cfg: &HealthMonitorConfig) -> (r: WatchdogParams)
    ensures
        r == (WatchdogParams {
            interval_ms: at_least_1s(cfg.snapshot_interval_ms),
            restart_on_core_stall: cfg.restart_on_core_stall,
            stall_critical_ms: at_least_1s(cfg.core_stall_critical_ms),
            restart_after_ms: at_least_1s(cfg.restart_after_critical_ms),
            cooldown_ms: at_least_1s(cfg.restart_cooldown_ms),
        }),
{
    let m = |v: u64| -> (r: u64)
        ensures
            r == at_least_1s(v),
        {
            if v < 1000 {
                1000
            } else {
                v
            }
        };
    WatchdogParams {
        interval_ms: m(cfg.snapshot_interval_ms),
        restart_on_core_stall: cfg.restart_on_core_stall,
        stall_critical_ms: m(cfg.core_stall_critical_ms),
        restart_after_ms: m(cfg.restart_after_critical_ms),
        cooldown_ms: m(cfg.restart_cooldown_ms),
    }
}

/// `now - then`, or 0 when the clock reads earlier.
pub open spec fn since(now: u64, then: u64) -> u64 {
    if now >= then {
        (now - then) as u64
    } else {
        0
    }
}

/// A restart may be requested: none was requested within the cooldown.
pub open spec fn restart_allowed(last_restart: Option<u64>, cooldown_ms: u64, now: u64) -> bool {
    !(last_restart matches Some(t) && since(now, t) < cooldown_ms)
}

/// The shared restart gate of every watchdog trigger: outside the cooldown the request is
/// granted and its time recorded. The caller then logs it, persists the stamp and asks
/// for the restart.
pub fn request_restart(last_restart: &mut Option<u64>, cooldown_ms: u64, now: u64) -> (r: bool)
    ensures
        r == restart_allowed(*old(last_restart), cooldown_ms, now),
        r ==> *final(last_restart) == Some(now),
        !r ==> *final(last_restart) == *old(last_restart),
{
    let blocked = match *last_restart {
        Some(t) => (if now >= t { now - t } else { 0 }) < cooldown_ms,
        None => false,
    };
    if blocked {
        return false;
    }
    *last_restart = Some(now);
    true
}

/// The watchdog's memory between samples (times in milliseconds of a monotonic clock).
#[derive(Debug, Clone, Copy, PartialEq, Eq, Structural)]
pub struct WatchdogState {
    pub last_restart: Option<u64>,
    pub stall_since: Option<u64>,
    pub panic_window_start: u64,
    pub panic_window_base: u64,
}

/// Why a restart is requested.
#[derive(Debug, Clone, Copy, PartialEq, Eq, Structural)]
pub enum RestartReason {
    /// This many panics were caught within the storm window.
    PanicStorm(u64),
    /// The core loop has not ticked for this many milliseconds.
    CoreStalled(u64),
}

/// The reason as logged and recorded.
pub open spec fn restart_reason_text(r: RestartReason) -> Seq<char> {
    match r {
        RestartReason::PanicStorm(n) => dec(n as nat) + " panics caught in 60s (entity dispatch)"@,
        RestartReason::CoreStalled(age) => "core loop stalled "@ + dec((age / 1000) as nat) + "s"@,
    }
}

impl RestartReason {
    /// The reason as logged and recorded.
    pub fn text(self) -> (r: String)
        ensures
            r@ == restart_reason_text(self),
    {
        let m = match self {
            RestartReason::PanicStorm(n) => {
                let mut m = dec_chars(n);
                append_chars(&mut m, chars_of(" panics caught in 60s (entity dispatch)").as_slice());
                m
            },
            RestartReason::CoreStalled(age) => {
                let mut m = chars_of("core loop stalled ");
                append_chars(&mut m, dec_chars(age / 1000).as_slice());
                append_chars(&mut m, chars_of("s").as_slice());
                m
            },
        };
        string_of(m.as_slice())
    }
}

/// The watchdog right after start: no stall seen, the panic window opens now at the
/// current panic count, and the last restart is the one persisted, if any.
pub open spec fn spec_watchdog_start(last_restart: Option<u64>, now: u64, panics: u64) -> WatchdogState {
    WatchdogState { last_restart, stall_since: None, panic_window_start: now, panic_window_base: panics }
}

/// See [`spec_watchdog_start`].
pub fn watchdog_start(last_restart: Option<u64>, now: u64, panics: u64) -> (r: WatchdogState)
    ensures
        r == spec_watchdog_start(last_restart, now, panics),
{
    WatchdogState { last_restart, stall_since: None, panic_window_start: now, panic_window_base: panics }
}

/// The in-memory last-restart time seeded from the persisted stamp's age: a restart still
/// within the cooldown counts from `now - age` (from `now` when the clock cannot go back
/// that far); an older one, or none, does not count.
pub open spec fn spec_seed_last_restart(age_ms: Option<u64>, cooldown_ms: u64, now: u64) -> Option<u64> {
    match age_ms {
        Some(age) => if age < cooldown_ms {
            Some(if now >= age { (now - age) as u64 } else { now })
        } else {
            None
        },
        None => None,
    }
}

/// See [`spec_seed_last_restart`].
pub fn seed_last_restart(age_ms: Option<u64>, cooldown_ms: u64, now: u64) -> (r: Option<u64>)
    ensures
        r == spec_seed_last_restart(age_ms, cooldown_ms, now),
{
    match age_ms {
        Some(age) => if age < cooldown_ms {
            Some(if now >= age { now - age } else { now })
        } else {
            None
        },
        None => None,
    }
}

/// The panic-storm check of one sample.
pub open spec fn spec_panic_check(st: WatchdogState, p: WatchdogParams, now: u64, panics: u64) -> (WatchdogState, Option<RestartReason>) {
    if since(now, st.panic_window_start) >= PANIC_STORM_WINDOW_MS {
        (WatchdogState { panic_window_start: now, panic_window_base: panics, ..st }, None)
    } else if since_count(panics, st.panic_window_base) >= PANIC_STORM_BURST {
        let n = (panics - st.panic_window_base) as u64;
        if restart_allowed(st.last_restart, p.cooldown_ms, now) {
            (
                WatchdogState { last_restart: Some(now), panic_window_start: now, panic_window_base: panics, ..st },
                Some(RestartReason::PanicStorm(n)),
            )
        } else {
            (st, None)
        }
    } else {
        (st, None)
    }
}

/// `a - b`, or 0.
pub open spec fn since_count(a: u64, b: u64) -> u64 {
    if a >= b {
        (a - b) as u64
    } else {
        0
    }
}

/// The core-stall check of one sample: the stall must last `restart_after_ms` from when
/// it was first seen.
pub open spec fn spec_stall_check(st: WatchdogState, p: WatchdogParams, now: u64, tick_age_ms: u64) -> (WatchdogState, Option<RestartReason>) {
    if tick_age_ms < p.stall_critical_ms {
        (WatchdogState { stall_since: None, ..st }, None)
    } else {
        let first = match st.stall_since {
            Some(t) => t,
            None => now,
        };
        let st1 = WatchdogState { stall_since: Some(first), ..st };
        if since(now, first) < p.restart_after_ms {
            (st1, None)
        } else if restart_allowed(st1.last_restart, p.cooldown_ms, now) {
            (WatchdogState { last_restart: Some(now), ..st1 }, Some(RestartReason::CoreStalled(tick_age_ms)))
        } else {
            (st1, None)
        }
    }
}

/// One sample of the watchdog: nothing happens while the watchdog is off; otherwise the
/// panic storm and then the core stall are checked, each of which may request a restart.
pub open spec fn spec_watchdog_step(st: WatchdogState, p: WatchdogParams, now: u64, panics: u64, tick_age_ms: u64) -> (WatchdogState, Seq<RestartReason>) {
    if !p.restart_on_core_stall {
        (st, Seq::empty())
    } else {
        let (st1, r1) = spec_panic_check(st, p, now, panics);
        let (st2, r2) = spec_stall_check(st1, p, now, tick_age_ms);
        (
            st2,
            (match r1 {
                Some(r) => seq![r],
                None => Seq::empty(),
            }) + (match r2 {
                Some(r) => seq![r],
                None => Seq::empty(),
            }),
        )
    }
}

/// One sample of the watchdog (see [`spec_watchdog_step`]): `panics` is the caught-panic
/// counter and `tick_age_ms` the age of the core loop's last tick. Each reason returned is
/// a restart to log, persist and request.
pub fn watchdog_step(st: WatchdogState, p: WatchdogParams, now: u64, panics: u64, tick_age_ms: u64) -> (r: (WatchdogState, Vec<RestartReason>))
    ensures
        (r.0, r.1@) == spec_watchdog_step(st, p, now, panics, tick_age_ms),
{
    let mut out: Vec<RestartReason> = Vec::new();
    if !p.restart_on_core_stall {
        assert(out@ =~= Seq::<RestartReason>::empty());
        return (st, out);
    }
    let mut s = st;
    // Panic storm.
    let window = if now >= s.panic_window_start { now - s.panic_window_start } else { 0 };
    if window >= PANIC_STORM_WINDOW_MS {
        s.panic_window_start = now;
        s.panic_window_base = panics;
    } else if (if panics >= s.panic_window_base { panics - s.panic_window_base } else { 0 }) >= PANIC_STORM_BURST {
        let n = panics - s.panic_window_base;
        let mut lr = s.last_restart;
        if request_restart(&mut lr, p.cooldown_ms, now) {
            s.last_restart = lr;
            s.panic_window_start = now;
            s.panic_window_base = panics;
            out.push(RestartReason::PanicStorm(n));
        }
    }
    let ghost mid = (s, out@);
    assert(mid.0 == spec_panic_check(st, p, now, panics).0);
    // Core stall.
    if tick_age_ms < p.stall_critical_ms {
        s.stall_since = None;
    } else {
        let first = match s.stall_since {
            Some(t) => t,
            None => now,
        };
        s.stall_since = Some(first);
        let stalled_for = if now >= first { now - first } else { 0 };
        if stalled_for >= p.restart_after_ms {
            let mut lr = s.last_restart;
            if request_restart(&mut lr, p.cooldown_ms, now) {
                s.last_restart = lr;
                out.push(RestartReason::CoreStalled(tick_age_ms));
            }
        }
    }
    assert(out@ =~= spec_watchdog_step(st, p, now, panics, tick_age_ms).1);
    (s, out)
}

/// The settings that `watchdog_params` yields: every duration at least one second.
pub open spec fn params_in_force(p: WatchdogParams) -> bool {
    p.interval_ms >= 1000 && p.stall_critical_ms >= 1000 && p.restart_after_ms >= 1000 && p.cooldown_ms >= 1000
}

/// The watchdog is rate-limited: a sample requests at most one restart, only when no
/// restart was requested within the cooldown, and then records its time; a sample that
/// requests none leaves the last restart as it was. While the watchdog is off nothing
/// changes.
pub proof fn lemma_restart_rate_limited(st: WatchdogState, p: WatchdogParams, now: u64, panics: u64, tick_age_ms: u64)
    requires
        params_in_force(p),
    ensures
        ({
            let (st2, reasons) = spec_watchdog_step(st, p, now, panics, tick_age_ms);
            &&& reasons.len() <= 1
            &&& reasons.len() == 1 ==> restart_allowed(st.last_restart, p.cooldown_ms, now)
                && st2.last_restart == Some(now)
            &&& reasons.len() == 0 ==> st2.last_restart == st.last_restart
            &&& !p.restart_on_core_stall ==> st2 == st && reasons.len() == 0
        }),
{
}

/// The panic-storm window: with the watchdog on, a sample that finds the window at least
/// 60 s old starts a new one at `now`, counting from the current panic count, and requests
/// no panic-storm restart; a `PanicStorm(n)` restart is requested only when `n`, at least
/// 20, panics were counted since a window start less than 60 s before `now`, and then the
/// window restarts at `now` from the current count.
pub proof fn lemma_panic_window(st: WatchdogState, p: WatchdogParams, now: u64, panics: u64, tick_age_ms: u64)
    requires
        p.restart_on_core_stall,
    ensures
        PANIC_STORM_WINDOW_MS == 60_000 && PANIC_STORM_BURST == 20,
        ({
            let (st2, reasons) = spec_watchdog_step(st, p, now, panics, tick_age_ms);
            &&& (now >= st.panic_window_start && now - st.panic_window_start >= 60_000) ==> {
                &&& st2.panic_window_start == now
                &&& st2.panic_window_base == panics
                &&& forall|k: int| 0 <= k < reasons.len() ==> !(#[trigger] reasons[k] is PanicStorm)
            }
            &&& forall|k: int| 0 <= k < reasons.len() ==> (#[trigger] reasons[k] matches RestartReason::PanicStorm(n)
                ==> {
                &&& now < st.panic_window_start + 60_000
                &&& panics >= st.panic_window_base + 20
                &&& n == panics - st.panic_window_base
                &&& st2.panic_window_start == now
                &&& st2.panic_window_base == panics
            })
        }),
{
}

/// The watchdog is debounced: a core-stall restart is only requested once the stall has
/// been seen for `restart_after_ms`, and a sample whose tick is fresh forgets the stall.
pub proof fn lemma_stall_debounced(st: WatchdogState, p: WatchdogParams, now: u64, panics: u64, tick_age_ms: u64)
    requires
        params_in_force(p),
    ensures
        ({
            let (st2, reasons) = spec_watchdog_step(st, p, now, panics, tick_age_ms);
            &&& (reasons.len() == 1 && reasons[0] is CoreStalled) ==> {
                &&& tick_age_ms >= p.stall_critical_ms
                &&& st.stall_since matches Some(t) && since(now, t) >= p.restart_after_ms
            }
            &&& (p.restart_on_core_stall && tick_age_ms < p.stall_critical_ms) ==> st2.stall_since is None
        }),
{
}

/// The cooldown survives the restart it triggers: a stamp persisted less than the
/// cooldown ago, seeded at boot, blocks every restart until the cooldown has run out
/// from the moment of that earlier restart.
pub proof fn lemma_cooldown_survives_restart(age_ms: u64, p: WatchdogParams, boot: u64, boot_panics: u64, now: u64, panics: u64, tick_age_ms: u64)
    requires
        params_in_force(p),
        age_ms < p.cooldown_ms,
        boot >= age_ms,
        boot <= now,
        now - (boot - age_ms) < p.cooldown_ms,
    ensures
        ({
            let st = spec_watchdog_start(spec_seed_last_restart(Some(age_ms), p.cooldown_ms, boot), boot, boot_panics);
            spec_watchdog_step(st, p, now, panics, tick_age_ms).1.len() == 0
        }),
{
}

/// The age of the persisted last-restart stamp, from the file's text and the wall clock
/// (Unix seconds): none when there is no file, its trimmed text is not a number, or the
/// stamp lies in the future.
pub open spec fn spec_restart_age_secs(text: Option<Seq<char>>, now_secs: u64) -> Option<u64> {
    match text {
        Some(t) => match parse_uint(trim(t), u64::MAX as nat) {
            Some(secs) => if now_secs >= secs {
                Some((now_secs - secs) as u64)
            } else {
                None
            },
            None => None,
        },
        None => None,
    }
}

/// See [`spec_restart_age_secs`].
pub fn last_restart_age(text: Option<&str>, now_secs: u64) -> (r: Option<u64>)
    ensures
        r == spec_restart_age_secs(
            match text {
                Some(t) => Some(t@),
                None => None,
            },
            now_secs,
        ),
{
    let t = match text {
        Some(t) => t,
        None => return None,
    };
    let secs = match parse_uint_exec(trim_exec(chars_of(t).as_slice()).as_slice(), u64::MAX) {
        Some(v) => v,
        None => return None,
    };
    if now_secs >= secs {
        Some(now_secs - secs)
    } else {
        None
    }
}

/// The persisted stamp: Unix seconds and a newline.
pub fn restart_stamp_text(now_secs: u64) -> (r: String)
    ensures
        r@ == dec(now_secs as nat).push('\n'),
{
    let mut m = dec_chars(now_secs);
    m.push('\n');
    string_of(m.as_slice())
}

} // verus!
