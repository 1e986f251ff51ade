//! Local Site Trunking (LST) web dispatch: the cell-local operator's call state machine.
//!
//! The dispatcher occupies the Brew slot, so CMCE call control routes here unchanged.
//! Each step takes the current state and one event (an operator command, a CMCE message,
//! the end of a tick) and gives the next state and the call-control messages to send.
//! Fresh call UUIDs and clock readings are supplied by the caller.
use vstd::prelude::*;
use std::collections::VecDeque;

verus! {

/// Sentinel Brew-profile name that selects the LST dispatcher.
pub const LST_DISPATCH_PROFILE: &'static str = "__lst_dispatch__";

/// The profile selection names the LST dispatcher.
pub fn is_lst_profile_name(name: Option<&str>) -> (r: bool)
    ensures
        r == (name matches Some(n) && n@ == LST_DISPATCH_PROFILE@),
{
    match name {
        Some(n) => crate::text::chars_eq(crate::text::chars_of(n).as_slice(), crate::text::chars_of(LST_DISPATCH_PROFILE).as_slice()),
        None => false,
    }
}

/// Largest ISSI / GSSI the dispatcher accepts.
pub const LST_MAX_SSI: u32 = 16_777_214;

/// Dispatcher ISSI used when none is configured.
pub const LST_DEFAULT_OPERATOR_ISSI: u32 = 9_990_001;

/// How long an ended or failed private call stays on screen, in milliseconds.
pub const TERMINAL_HOLD_MS: u64 = 5000;

/// Group call keepalive period while PTT is held, in milliseconds.
pub const KEEPALIVE_MS: u64 = 400;

/// A group call held without `NetworkCallReady` for longer than this is reaped (ms).
pub const GROUP_SETUP_TIMEOUT_MS: u64 = 5000;

/// Most uplink voice blocks kept waiting for a traffic channel.
pub const PENDING_UL_CAP: usize = 12;

/// Most uplink voice blocks sent per tick.
pub const MAX_UL_BLOCKS_PER_TICK: usize = 6;

/// What kind of call the console shows.
#[derive(Debug, Clone, Copy, PartialEq, Eq, Structural)]
pub enum CallKind {
    Group,
    Duplex,
    Simplex,
}

/// The call phase the console shows.
#[derive(Debug, Clone, Copy, PartialEq, Eq, Structural)]
pub enum CallPhase {
    Idle,
    Dialing,
    Ringing,
    Answering,
    Established,
    Ended,
    Failed,
}

/// A problem shown to the operator.
#[derive(Debug, Clone, Copy, PartialEq, Eq, Structural)]
pub enum LstError {
    InvalidGssi,
    InvalidIssi,
    NoActiveCallForPtt,
    GroupCallRejected,
    GroupSetupTimeout(u32),
}

impl CallKind {
    /// The name the console uses.
    pub fn as_str(self) -> (r: &'static str)
        ensures
            r@ == match self {
                CallKind::Group => "group"@,
                CallKind::Duplex => "duplex"@,
                CallKind::Simplex => "simplex"@,
            },
    {
        match self {
            CallKind::Group => "group",
            CallKind::Duplex => "duplex",
            CallKind::Simplex => "simplex",
        }
    }
}

impl CallPhase {
    /// The name the console uses.
    pub fn as_str(self) -> (r: &'static str)
        ensures
            r@ == match self {
                CallPhase::Idle => "idle"@,
                CallPhase::Dialing => "dialing"@,
                CallPhase::Ringing => "ringing"@,
                CallPhase::Answering => "answering"@,
                CallPhase::Established => "established"@,
                CallPhase::Ended => "ended"@,
                CallPhase::Failed => "failed"@,
            },
    {
        match self {
            CallPhase::Idle => "idle",
            CallPhase::Dialing => "dialing",
            CallPhase::Ringing => "ringing",
            CallPhase::Answering => "answering",
            CallPhase::Established => "established",
            CallPhase::Ended => "ended",
            CallPhase::Failed => "failed",
        }
    }
}

/// The message shown for an error.
pub open spec fn lst_error_text(e: LstError) -> Seq<char> {
    match e {
        LstError::InvalidGssi => "invalid GSSI"@,
        LstError::InvalidIssi => "invalid ISSI"@,
        LstError::NoActiveCallForPtt => "no active call for PTT — Join a GSSI first"@,
        LstError::GroupCallRejected => "group call rejected — check radios are affiliated to this GSSI"@,
        LstError::GroupSetupTimeout(g) => "group setup timeout on GSSI "@ + crate::text::dec(g as nat)
            + " — affiliated radios?"@,
    }
}

impl LstError {
    /// The message shown for this error.
    pub fn message(self) -> (r: String)
        ensures
            r@ == lst_error_text(self),
    {
        let m = match self {
            LstError::InvalidGssi => crate::text::chars_of("invalid GSSI"),
            LstError::InvalidIssi => crate::text::chars_of("invalid ISSI"),
            LstError::NoActiveCallForPtt => crate::text::chars_of("no active call for PTT — Join a GSSI first"),
            LstError::GroupCallRejected => crate::text::chars_of(
                "group call rejected — check radios are affiliated to this GSSI",
            ),
            LstError::GroupSetupTimeout(g) => {
                let mut m = crate::text::chars_of("group setup timeout on GSSI ");
                crate::text::append_chars(&mut m, crate::text::dec_chars(g as u64).as_slice());
                crate::text::append_chars(&mut m, crate::text::chars_of(" — affiliated radios?").as_slice());
                m
            },
        };
        crate::text::string_of(m.as_slice())
    }
}

/// What the console shows of the dispatcher's call (the entity's part of the status).
#[derive(Debug, Clone, Copy, PartialEq, Eq, Structural)]
pub struct LstCallStatus {
    pub operator_issi: u32,
    pub active_gssi: Option<u32>,
    pub ptt: bool,
    pub call_kind: Option<CallKind>,
    pub call_peer: Option<u32>,
    pub media_ready: bool,
    pub codec_available: bool,
    pub last_error: Option<LstError>,
    pub call_phase: CallPhase,
    pub disconnect_cause: Option<u8>,
    pub call_started_ms: Option<u64>,
}

/// The selected talkgroup and its call, if one is up.
#[derive(Debug, Clone, Copy, PartialEq, Eq, Structural)]
pub struct GroupCall {
    pub uuid: u128,
    pub gssi: u32,
    pub call_id: Option<u16>,
    pub carrier_num: Option<u16>,
    pub ts: Option<u8>,
    pub ptt: bool,
    pub last_activity_ms: u64,
    pub last_keepalive_ms: u64,
}

/// The private call being set up or held.
#[derive(Debug, Clone, Copy, PartialEq, Eq, Structural)]
pub struct PrivateCall {
    pub uuid: u128,
    pub dest: u32,
    pub duplex: bool,
    pub call_id: Option<u16>,
    pub carrier_num: Option<u16>,
    pub ts: Option<u8>,
    pub ptt: bool,
}

/// The dispatcher's call state.
#[derive(Debug, Clone, Copy, PartialEq, Eq, Structural)]
pub struct LstCore {
    pub operator_issi: u32,
    pub group: Option<GroupCall>,
    pub private: Option<PrivateCall>,
    /// After a private call ended or failed, keep it on screen until then.
    pub terminal_clear_at_ms: Option<u64>,
    pub status: LstCallStatus,
}

/// A message from the dispatcher to CMCE, or to its own codec.
#[derive(Debug, Clone, Copy, PartialEq, Eq, Structural)]
pub enum LstAction {
    NetworkCallStart { brew_uuid: u128, source_issi: u32, dest_gssi: u32 },
    NetworkCallEnd { brew_uuid: u128 },
    NetworkCircuitSimplexGranted { brew_uuid: u128 },
    NetworkCircuitSimplexIdle { brew_uuid: u128 },
    NetworkCircuitRelease { brew_uuid: u128, cause: u8 },
    /// A point-to-point circuit call from `source_issi` to `destination`.
    NetworkCircuitSetupRequest { brew_uuid: u128, source_issi: u32, destination: u32, duplex: bool },
    NetworkCircuitConnectConfirm { brew_uuid: u128 },
    NetworkCallMediaActivity { brew_uuid: u128 },
    /// Drop the uplink audio collected so far (codec and queue).
    ResetUplink,
}

/// An operator command from the console.
#[derive(Debug)]
pub enum LstUiCommand {
    SetOperatorIssi { issi: u32 },
    JoinGroup { gssi: u32 },
    LeaveGroup,
    Ptt { down: bool },
    PrivateCall { dest_issi: u32, duplex: bool },
    Hangup,
    /// Raw PCM16 LE mono @ 8 kHz chunk from browser (only while PTT); it goes to the codec,
    /// not through the call state.
    UlPcm { pcm: Vec<i16> },
}

/// A call-control message from CMCE.
#[derive(Debug, Clone, Copy, PartialEq, Eq, Structural)]
pub enum LstNetEvent {
    NetworkCallReady { brew_uuid: u128, call_id: u16, carrier_num: u16, ts: u8 },
    NetworkCircuitMediaReady { brew_uuid: u128, call_id: u16, carrier_num: u16, ts: u8 },
    NetworkCircuitSetupAccept { brew_uuid: u128 },
    NetworkCircuitAlert { brew_uuid: u128 },
    NetworkCircuitSetupReject { brew_uuid: u128, cause: u8 },
    NetworkCircuitConnectRequest { brew_uuid: u128 },
    NetworkCircuitConnectConfirm { brew_uuid: u128 },
    NetworkCallEnd { brew_uuid: u128 },
    NetworkCircuitRelease { brew_uuid: u128, cause: u8 },
    /// Anything else (downlink voice is decoded by the caller).
    Other,
}

// ---------------------------------------------------------------------------
// Transitions
// ---------------------------------------------------------------------------

/// `now + TERMINAL_HOLD_MS`, saturating.
pub open spec fn hold_until(now: u64) -> u64 {
    if now > u64::MAX - TERMINAL_HOLD_MS {
        u64::MAX
    } else {
        (now + TERMINAL_HOLD_MS) as u64
    }
}

/// `now - then`, or 0 when the clock reads earlier.
pub open spec fn elapsed(now: u64, then: u64) -> u64 {
    if now >= then {
        (now - then) as u64
    } else {
        0
    }
}

/// The kind shown for a private call.
pub open spec fn private_kind(duplex: bool) -> CallKind {
    if duplex {
        CallKind::Duplex
    } else {
        CallKind::Simplex
    }
}

/// A phase that keeps a finished private call on screen.
pub open spec fn is_terminal(p: CallPhase) -> bool {
    p == CallPhase::Ended || p == CallPhase::Failed
}

/// The state a dispatcher starts in.
pub open spec fn spec_initial(operator_issi: u32, codec_available: bool) -> LstCore {
    LstCore {
        operator_issi,
        group: None,
        private: None,
        terminal_clear_at_ms: None,
        status: LstCallStatus {
            operator_issi,
            active_gssi: None,
            ptt: false,
            call_kind: None,
            call_peer: None,
            media_ready: false,
            codec_available,
            last_error: None,
            call_phase: CallPhase::Idle,
            disconnect_cause: None,
            call_started_ms: None,
        },
    }
}

/// Set the dispatcher's ISSI, clamped into 1..=16777214.
pub open spec fn spec_set_operator_issi(c: LstCore, issi: u32) -> LstCore {
    let v = if issi < 1 {
        1u32
    } else if issi > LST_MAX_SSI {
        LST_MAX_SSI
    } else {
        issi
    };
    LstCore { operator_issi: v, status: LstCallStatus { operator_issi: v, ..c.status }, ..c }
}

/// Leave the selected talkgroup, ending its call if one is up or PTT is held. Without a
/// private call the console returns to idle, unless a finished private call is still on
/// screen, in which case only the talkgroup and PTT are cleared.
pub open spec fn spec_leave_group(c: LstCore) -> (LstCore, Seq<LstAction>) {
    let acts = match c.group {
        Some(g) => if g.call_id is Some || g.ptt {
            seq![LstAction::NetworkCallEnd { brew_uuid: g.uuid }]
        } else {
            Seq::empty()
        },
        None => Seq::empty(),
    };
    let s = c.status;
    let s2 = if c.private is Some {
        s
    } else if is_terminal(s.call_phase) {
        LstCallStatus { active_gssi: None, ptt: false, ..s }
    } else {
        LstCallStatus {
            active_gssi: None,
            call_kind: None,
            call_peer: None,
            ptt: false,
            call_phase: CallPhase::Idle,
            disconnect_cause: None,
            call_started_ms: None,
            media_ready: false,
            ..s
        }
    };
    (LstCore { group: None, status: s2, ..c }, acts)
}

/// Select a talkgroup (ending any previous group call); the call starts on PTT. An
/// out-of-range GSSI only sets the error.
pub open spec fn spec_join_group(c: LstCore, gssi: u32, fresh: u128, now: u64) -> (LstCore, Seq<LstAction>) {
    if gssi == 0 || gssi > LST_MAX_SSI {
        (LstCore { status: LstCallStatus { last_error: Some(LstError::InvalidGssi), ..c.status }, ..c }, Seq::empty())
    } else {
        let (c1, acts) = spec_leave_group(c);
        let s = c1.status;
        let s1 = LstCallStatus {
            active_gssi: Some(gssi),
            call_kind: Some(CallKind::Group),
            call_peer: Some(gssi),
            ptt: false,
            last_error: None,
            ..s
        };
        let s2 = if s1.call_phase == CallPhase::Idle || is_terminal(s1.call_phase) {
            LstCallStatus {
                call_phase: CallPhase::Idle,
                disconnect_cause: None,
                call_started_ms: None,
                media_ready: false,
                ..s1
            }
        } else {
            s1
        };
        let g = GroupCall {
            uuid: fresh,
            gssi,
            call_id: None,
            carrier_num: None,
            ts: None,
            ptt: false,
            last_activity_ms: now,
            last_keepalive_ms: now,
        };
        (LstCore { group: Some(g), status: s2, ..c1 }, acts)
    }
}

/// Press or release PTT. A private call takes priority over a selected talkgroup: on a
/// simplex private call PTT grants or idles the circuit. On a talkgroup, PTT down starts
/// the group call (with a fresh UUID when the previous one is over) and PTT up ends it.
/// Releasing PTT drops the uplink audio collected so far. Without either call only the
/// error is set.
pub open spec fn spec_set_ptt(c: LstCore, down: bool, fresh: u128, now: u64) -> (LstCore, Seq<LstAction>) {
    match c.private {
        Some(p) => {
            let p2 = PrivateCall { ptt: down, ..p };
            if down {
                (
                    LstCore {
                        private: Some(p2),
                        status: LstCallStatus { ptt: true, last_error: None, ..c.status },
                        ..c
                    },
                    if !p.duplex {
                        seq![LstAction::NetworkCircuitSimplexGranted { brew_uuid: p.uuid }]
                    } else {
                        Seq::empty()
                    },
                )
            } else {
                (
                    LstCore { private: Some(p2), status: LstCallStatus { ptt: false, ..c.status }, ..c },
                    (if !p.duplex {
                        seq![LstAction::NetworkCircuitSimplexIdle { brew_uuid: p.uuid }]
                    } else {
                        Seq::empty()
                    }).push(LstAction::ResetUplink),
                )
            }
        },
        None => match c.group {
            Some(g) => if down {
                let fresh_call = g.call_id is None && !g.ptt;
                let g1 = if fresh_call {
                    GroupCall { uuid: fresh, call_id: None, carrier_num: None, ts: None, ..g }
                } else {
                    g
                };
                let g2 = GroupCall { ptt: true, last_activity_ms: now, ..g1 };
                (
                    LstCore {
                        group: Some(g2),
                        status: LstCallStatus { ptt: true, last_error: None, ..c.status },
                        ..c
                    },
                    seq![
                        LstAction::NetworkCallStart {
                            brew_uuid: g1.uuid,
                            source_issi: c.operator_issi,
                            dest_gssi: g.gssi,
                        },
                    ],
                )
            } else {
                let g2 = GroupCall {
                    ptt: false,
                    last_activity_ms: now,
                    call_id: None,
                    carrier_num: None,
                    ts: None,
                    ..g
                };
                (
                    LstCore { group: Some(g2), status: LstCallStatus { ptt: false, ..c.status }, ..c },
                    seq![LstAction::NetworkCallEnd { brew_uuid: g.uuid }, LstAction::ResetUplink],
                )
            },
            None => (
                LstCore {
                    status: LstCallStatus { last_error: Some(LstError::NoActiveCallForPtt), ..c.status },
                    ..c
                },
                Seq::empty(),
            ),
        },
    }
}

/// Dial a private call (releasing any previous one without showing it as ended). An
/// out-of-range ISSI only sets the error.
pub open spec fn spec_start_private(c: LstCore, dest: u32, duplex: bool, fresh: u128) -> (LstCore, Seq<LstAction>) {
    if dest == 0 || dest > LST_MAX_SSI {
        (LstCore { status: LstCallStatus { last_error: Some(LstError::InvalidIssi), ..c.status }, ..c }, Seq::empty())
    } else {
        let release = match c.private {
            Some(p) => seq![LstAction::NetworkCircuitRelease { brew_uuid: p.uuid, cause: 0 }],
            None => Seq::empty(),
        };
        let p = PrivateCall {
            uuid: fresh,
            dest,
            duplex,
            call_id: None,
            carrier_num: None,
            ts: None,
            ptt: false,
        };
        (
            LstCore {
                terminal_clear_at_ms: None,
                private: Some(p),
                status: LstCallStatus {
                    call_kind: Some(private_kind(duplex)),
                    call_peer: Some(dest),
                    media_ready: false,
                    ptt: false,
                    call_phase: CallPhase::Dialing,
                    disconnect_cause: None,
                    call_started_ms: None,
                    last_error: None,
                    ..c.status
                },
                ..c
            },
            release.push(
                LstAction::NetworkCircuitSetupRequest {
                    brew_uuid: fresh,
                    source_issi: c.operator_issi,
                    destination: dest,
                    duplex,
                },
            ),
        )
    }
}

/// Hang up the private call, if any: it is released and shown as ended by the user
/// (cause 1) for the hold time.
pub open spec fn spec_hangup_private(c: LstCore, now: u64) -> (LstCore, Seq<LstAction>) {
    match c.private {
        Some(p) => (
            LstCore {
                private: None,
                terminal_clear_at_ms: Some(hold_until(now)),
                status: LstCallStatus {
                    call_kind: Some(private_kind(p.duplex)),
                    call_peer: Some(p.dest),
                    ptt: false,
                    media_ready: false,
                    call_phase: CallPhase::Ended,
                    disconnect_cause: Some(1),
                    last_error: None,
                    ..c.status
                },
                ..c
            },
            seq![LstAction::NetworkCircuitRelease { brew_uuid: p.uuid, cause: 0 }],
        ),
        None => (c, Seq::empty()),
    }
}

/// The private call failed to set up: shown as failed with its cause for the hold time.
pub open spec fn spec_private_failed(c: LstCore, dest: u32, duplex: bool, cause: u8, now: u64) -> LstCore {
    LstCore {
        private: None,
        terminal_clear_at_ms: Some(hold_until(now)),
        status: LstCallStatus {
            call_kind: Some(private_kind(duplex)),
            call_peer: Some(dest),
            ptt: false,
            media_ready: false,
            call_phase: CallPhase::Failed,
            disconnect_cause: Some(cause),
            call_started_ms: None,
            last_error: None,
            ..c.status
        },
        ..c
    }
}

/// The private call was ended by the network: shown as ended with its cause for the hold
/// time (its start time kept so the timer freezes).
pub open spec fn spec_private_ended(c: LstCore, dest: u32, duplex: bool, cause: u8, now: u64) -> LstCore {
    LstCore {
        private: None,
        terminal_clear_at_ms: Some(hold_until(now)),
        status: LstCallStatus {
            call_kind: Some(private_kind(duplex)),
            call_peer: Some(dest),
            ptt: false,
            media_ready: false,
            call_phase: CallPhase::Ended,
            disconnect_cause: Some(cause),
            last_error: None,
            ..c.status
        },
        ..c
    }
}

/// The hold time is over: back to idle, showing the selected talkgroup if any.
pub open spec fn spec_clear_terminal_hold(c: LstCore) -> LstCore {
    let s = LstCallStatus {
        ptt: false,
        media_ready: false,
        call_phase: CallPhase::Idle,
        disconnect_cause: None,
        call_started_ms: None,
        last_error: None,
        ..c.status
    };
    let s2 = match c.group {
        Some(g) => LstCallStatus {
            active_gssi: Some(g.gssi),
            call_kind: Some(CallKind::Group),
            call_peer: Some(g.gssi),
            ..s
        },
        None => LstCallStatus { call_kind: None, call_peer: None, ..s },
    };
    LstCore { terminal_clear_at_ms: None, status: s2, ..c }
}

/// CMCE has a traffic channel for the call with this UUID (group or private).
pub open spec fn spec_call_ready(c: LstCore, uuid: u128, call_id: u16, carrier_num: u16, ts: u8, now: u64) -> LstCore {
    let g2 = match c.group {
        Some(g) => if g.uuid == uuid {
            Some(
                GroupCall {
                    call_id: Some(call_id),
                    carrier_num: Some(carrier_num),
                    ts: Some(ts),
                    last_activity_ms: now,
                    ..g
                },
            )
        } else {
            Some(g)
        },
        None => None,
    };
    let p2 = match c.private {
        Some(p) => if p.uuid == uuid {
            Some(PrivateCall { call_id: Some(call_id), carrier_num: Some(carrier_num), ts: Some(ts), ..p })
        } else {
            Some(p)
        },
        None => None,
    };
    LstCore { group: g2, private: p2, ..c }
}

/// The call with this UUID ended or was released. A group call drops PTT (flagging a
/// rejection when PTT was held and it never got ready); a private call is shown as ended
/// by the network, with cause 14 when none is given.
pub open spec fn spec_call_end(c: LstCore, uuid: u128, cause: u8, now: u64) -> LstCore {
    let c1 = match c.group {
        Some(g) => if g.uuid == uuid {
            let rejected = g.ptt && g.call_id is None;
            LstCore {
                group: Some(GroupCall { ptt: false, call_id: None, carrier_num: None, ts: None, ..g }),
                status: LstCallStatus {
                    ptt: false,
                    last_error: if rejected {
                        Some(LstError::GroupCallRejected)
                    } else {
                        c.status.last_error
                    },
                    ..c.status
                },
                ..c
            }
        } else {
            c
        },
        None => c,
    };
    match c1.private {
        Some(p) => if p.uuid == uuid {
            spec_private_ended(c1, p.dest, p.duplex, if cause == 0 { 14 } else { cause }, now)
        } else {
            c1
        },
        None => c1,
    }
}

/// The private call matches this UUID.
pub open spec fn is_private(c: LstCore, uuid: u128) -> bool {
    c.private matches Some(p) && p.uuid == uuid
}

/// One CMCE message. `now` is the monotonic clock and `epoch_ms` the wall clock (for the
/// start time of an established call).
pub open spec fn spec_rx_prim(c: LstCore, ev: LstNetEvent, now: u64, epoch_ms: u64) -> (LstCore, Seq<LstAction>) {
    match ev {
        LstNetEvent::NetworkCallReady { brew_uuid, call_id, carrier_num, ts } => (
            spec_call_ready(c, brew_uuid, call_id, carrier_num, ts, now),
            Seq::empty(),
        ),
        LstNetEvent::NetworkCircuitMediaReady { brew_uuid, call_id, carrier_num, ts } => {
            let c1 = spec_call_ready(c, brew_uuid, call_id, carrier_num, ts, now);
            if is_private(c1, brew_uuid) {
                (
                    LstCore {
                        status: LstCallStatus {
                            media_ready: true,
                            call_phase: CallPhase::Established,
                            disconnect_cause: None,
                            call_started_ms: Some(epoch_ms),
                            last_error: None,
                            ..c1.status
                        },
                        ..c1
                    },
                    Seq::empty(),
                )
            } else {
                (c1, Seq::empty())
            }
        },
        LstNetEvent::NetworkCircuitSetupAccept { brew_uuid } => if is_private(c, brew_uuid) {
            (LstCore { status: LstCallStatus { last_error: None, ..c.status }, ..c }, Seq::empty())
        } else {
            (c, Seq::empty())
        },
        LstNetEvent::NetworkCircuitAlert { brew_uuid } => if is_private(c, brew_uuid) {
            (
                LstCore {
                    status: LstCallStatus { call_phase: CallPhase::Ringing, last_error: None, ..c.status },
                    ..c
                },
                Seq::empty(),
            )
        } else {
            (c, Seq::empty())
        },
        LstNetEvent::NetworkCircuitSetupReject { brew_uuid, cause } => match c.private {
            Some(p) => if p.uuid == brew_uuid {
                (spec_private_failed(c, p.dest, p.duplex, cause, now), Seq::empty())
            } else {
                (c, Seq::empty())
            },
            None => (c, Seq::empty()),
        },
        LstNetEvent::NetworkCircuitConnectRequest { brew_uuid } => if is_private(c, brew_uuid) {
            (
                LstCore {
                    status: LstCallStatus { call_phase: CallPhase::Answering, last_error: None, ..c.status },
                    ..c
                },
                seq![LstAction::NetworkCircuitConnectConfirm { brew_uuid }],
            )
        } else {
            (c, Seq::empty())
        },
        LstNetEvent::NetworkCircuitConnectConfirm { brew_uuid } => (c, Seq::empty()),
        LstNetEvent::NetworkCallEnd { brew_uuid } => (spec_call_end(c, brew_uuid, 1, now), Seq::empty()),
        LstNetEvent::NetworkCircuitRelease { brew_uuid, cause } => (
            spec_call_end(c, brew_uuid, cause, now),
            Seq::empty(),
        ),
        LstNetEvent::Other => (c, Seq::empty()),
    }
}

/// Uplink audio is taken: on a duplex private call once it has a channel, on a simplex
/// one while PTT is held, otherwise on the talkgroup while PTT is held.
pub open spec fn spec_ul_allowed(c: LstCore) -> bool {
    match c.private {
        Some(p) => if p.duplex {
            p.carrier_num is Some && p.ts is Some
        } else {
            p.ptt
        },
        None => match c.group {
            Some(g) => g.ptt,
            None => false,
        },
    }
}

/// Where uplink blocks go now (carrier, timeslot), if anywhere: the private call when it
/// sends (duplex, or simplex with PTT) and has a channel, else the talkgroup with PTT held
/// and a channel.
pub open spec fn spec_ul_target(c: LstCore) -> Option<(u16, u8)> {
    match c.private {
        Some(p) => if (p.duplex || p.ptt) && p.carrier_num is Some && p.ts is Some {
            Some((p.carrier_num->0, p.ts->0))
        } else {
            None
        },
        None => match c.group {
            Some(g) => if g.ptt && g.carrier_num is Some && g.ts is Some {
                Some((g.carrier_num->0, g.ts->0))
            } else {
                None
            },
            None => None,
        },
    }
}

/// Law: uplink blocks have a destination exactly when uplink audio is taken and the call
/// that takes it has a channel. On a duplex private call with a channel that is the call's
/// carrier and timeslot whether or not PTT is held; on a simplex one only while PTT is held.
pub proof fn lemma_ul_target_follows_call(c: LstCore)
    ensures
        c.private matches Some(p) ==> (p.carrier_num matches Some(car) ==> (p.ts matches Some(t) ==> (p.duplex
            ==> spec_ul_target(c) == Some((car, t))))),
        c.private matches Some(p) ==> (p.carrier_num matches Some(car) ==> (p.ts matches Some(t) ==> (!p.duplex
            ==> (spec_ul_target(c) == if p.ptt { Some((car, t)) } else { None })))),
        c.private matches Some(p) ==> (spec_ul_target(c) is Some <==> (spec_ul_allowed(c) && p.carrier_num is Some
            && p.ts is Some)),
        c.private is None ==> (c.group matches Some(g) ==> (spec_ul_target(c) is Some <==> (spec_ul_allowed(c)
            && g.carrier_num is Some && g.ts is Some))),
        spec_ul_target(c) is Some ==> spec_ul_allowed(c),
{
}

/// The keepalive due this tick: while PTT is held on a ready group call, every 400 ms.
pub open spec fn spec_keepalive(c: LstCore, now: u64) -> (LstCore, Seq<LstAction>) {
    match c.group {
        Some(g) => if g.ptt && g.call_id is Some && elapsed(now, g.last_keepalive_ms) >= KEEPALIVE_MS {
            (
                LstCore { group: Some(GroupCall { last_keepalive_ms: now, ..g }), ..c },
                seq![LstAction::NetworkCallMediaActivity { brew_uuid: g.uuid }],
            )
        } else {
            (c, Seq::empty())
        },
        None => (c, Seq::empty()),
    }
}

/// Reap a group call whose PTT has been held for more than 5 s without getting ready:
/// PTT is released and the timeout is reported.
pub open spec fn spec_reap(c: LstCore, now: u64) -> (LstCore, Seq<LstAction>) {
    match c.group {
        Some(g) => if g.ptt && g.call_id is None && elapsed(now, g.last_activity_ms) > GROUP_SETUP_TIMEOUT_MS {
            let (c1, acts) = spec_set_ptt(c, false, 0, now);
            (
                LstCore {
                    status: LstCallStatus { last_error: Some(LstError::GroupSetupTimeout(g.gssi)), ..c1.status },
                    ..c1
                },
                acts,
            )
        } else {
            (c, Seq::empty())
        },
        None => (c, Seq::empty()),
    }
}

/// The terminal hold ends when its time has come.
pub open spec fn spec_expire_hold(c: LstCore, now: u64) -> LstCore {
    match c.terminal_clear_at_ms {
        Some(at) => if now >= at {
            spec_clear_terminal_hold(c)
        } else {
            c
        },
        None => c,
    }
}

/// One operator command. `fresh` is a new UUID for a call this command may start.
pub open spec fn spec_apply_command(c: LstCore, cmd: LstUiCommand, fresh: u128, now: u64) -> (LstCore, Seq<LstAction>) {
    match cmd {
        LstUiCommand::SetOperatorIssi { issi } => (spec_set_operator_issi(c, issi), Seq::empty()),
        LstUiCommand::JoinGroup { gssi } => spec_join_group(c, gssi, fresh, now),
        LstUiCommand::LeaveGroup => spec_leave_group(c),
        LstUiCommand::Ptt { down } => spec_set_ptt(c, down, fresh, now),
        LstUiCommand::PrivateCall { dest_issi, duplex } => spec_start_private(c, dest_issi, duplex, fresh),
        LstUiCommand::Hangup => {
            let (c1, a1) = spec_hangup_private(c, now);
            let (c2, a2) = match c1.group {
                Some(g) => if g.ptt || g.call_id is Some {
                    spec_set_ptt(c1, false, fresh, now)
                } else {
                    (c1, Seq::empty())
                },
                None => (c1, Seq::empty()),
            };
            (LstCore { status: LstCallStatus { ptt: false, ..c2.status }, ..c2 }, a1 + a2)
        },
        LstUiCommand::UlPcm { pcm } => (c, Seq::empty()),
    }
}

// ---------------------------------------------------------------------------
// Executable transitions
// ---------------------------------------------------------------------------

/// `hold_until`.
fn hold_until_exec(now: u64) -> (r: u64)
    ensures
        r == hold_until(now),
{
    if now > u64::MAX - TERMINAL_HOLD_MS {
        u64::MAX
    } else {
        now + TERMINAL_HOLD_MS
    }
}

/// `elapsed`.
fn elapsed_exec(now: u64, then: u64) -> (r: u64)
    ensures
        r == elapsed(now, then),
{
    if now >= then {
        now - then
    } else {
        0
    }
}

/// `private_kind`.
fn private_kind_exec(duplex: bool) -> (r: CallKind)
    ensures
        r == private_kind(duplex),
{
    if duplex {
        CallKind::Duplex
    } else {
        CallKind::Simplex
    }
}

/// `is_terminal`.
fn is_terminal_exec(p: CallPhase) -> (r: bool)
    ensures
        r == is_terminal(p),
{
    p == CallPhase::Ended || p == CallPhase::Failed
}

impl LstCore {
    /// The state a dispatcher starts in.
    pub fn initial(operator_issi: u32, codec_available: bool) -> (r: Self)
        ensures
            r == spec_initial(operator_issi, codec_available),
    {
        LstCore {
            operator_issi,
            group: None,
            private: None,
            terminal_clear_at_ms: None,
            status: LstCallStatus {
                operator_issi,
                active_gssi: None,
                ptt: false,
                call_kind: None,
                call_peer: None,
                media_ready: false,
                codec_available,
                last_error: None,
                call_phase: CallPhase::Idle,
                disconnect_cause: None,
                call_started_ms: None,
            },
        }
    }

    /// See [`spec_set_operator_issi`].
    pub fn set_operator_issi(self, issi: u32) -> (r: Self)
        ensures
            r == spec_set_operator_issi(self, issi),
    {
        let v = if issi < 1 {
            1u32
        } else if issi > LST_MAX_SSI {
            LST_MAX_SSI
        } else {
            issi
        };
        LstCore { operator_issi: v, status: LstCallStatus { operator_issi: v, ..self.status }, ..self }
    }

    /// See [`spec_leave_group`].
    pub fn leave_group(self) -> (r: (Self, Vec<LstAction>))
        ensures
            (r.0, r.1@) == spec_leave_group(self),
    {
        let acts = match self.group {
            Some(g) => if g.call_id.is_some() || g.ptt {
                vec![LstAction::NetworkCallEnd { brew_uuid: g.uuid }]
            } else {
                Vec::new()
            },
            None => Vec::new(),
        };
        let s = self.status;
        let s2 = if self.private.is_some() {
            s
        } else if is_terminal_exec(s.call_phase) {
            LstCallStatus { active_gssi: None, ptt: false, ..s }
        } else {
            LstCallStatus {
                active_gssi: None,
                call_kind: None,
                call_peer: None,
                ptt: false,
                call_phase: CallPhase::Idle,
                disconnect_cause: None,
                call_started_ms: None,
                media_ready: false,
                ..s
            }
        };
        proof {
            assert(acts@ =~= spec_leave_group(self).1);
        }
        (LstCore { group: None, status: s2, ..self }, acts)
    }

    /// See [`spec_join_group`].
    pub fn join_group(self, gssi: u32, fresh: u128, now: u64) -> (r: (Self, Vec<LstAction>))
        ensures
            (r.0, r.1@) == spec_join_group(self, gssi, fresh, now),
    {
        if gssi == 0 || gssi > LST_MAX_SSI {
            let r = (LstCore { status: LstCallStatus { last_error: Some(LstError::InvalidGssi), ..self.status }, ..self }, Vec::new());
            assert(r.1@ =~= Seq::<LstAction>::empty());
            return r;
        }
        let (c1, acts) = self.leave_group();
        let s = c1.status;
        let s1 = LstCallStatus {
            active_gssi: Some(gssi),
            call_kind: Some(CallKind::Group),
            call_peer: Some(gssi),
            ptt: false,
            last_error: None,
            ..s
        };
        let s2 = if s1.call_phase == CallPhase::Idle || is_terminal_exec(s1.call_phase) {
            LstCallStatus {
                call_phase: CallPhase::Idle,
                disconnect_cause: None,
                call_started_ms: None,
                media_ready: false,
                ..s1
            }
        } else {
            s1
        };
        let g = GroupCall {
            uuid: fresh,
            gssi,
            call_id: None,
            carrier_num: None,
            ts: None,
            ptt: false,
            last_activity_ms: now,
            last_keepalive_ms: now,
        };
        (LstCore { group: Some(g), status: s2, ..c1 }, acts)
    }

    /// See [`spec_set_ptt`].
    pub fn set_ptt(self, down: bool, fresh: u128, now: u64) -> (r: (Self, Vec<LstAction>))
        ensures
            (r.0, r.1@) == spec_set_ptt(self, down, fresh, now),
    {
        match self.private {
            Some(p) => {
                let p2 = PrivateCall { ptt: down, ..p };
                if down {
                    let acts = if !p.duplex {
                        vec![LstAction::NetworkCircuitSimplexGranted { brew_uuid: p.uuid }]
                    } else {
                        Vec::new()
                    };
                    proof {
                        assert(acts@ =~= spec_set_ptt(self, down, fresh, now).1);
                    }
                    (
                        LstCore {
                            private: Some(p2),
                            status: LstCallStatus { ptt: true, last_error: None, ..self.status },
                            ..self
                        },
                        acts,
                    )
                } else {
                    let mut acts = if !p.duplex {
                        vec![LstAction::NetworkCircuitSimplexIdle { brew_uuid: p.uuid }]
                    } else {
                        Vec::new()
                    };
                    acts.push(LstAction::ResetUplink);
                    proof {
                        assert(acts@ =~= spec_set_ptt(self, down, fresh, now).1);
                    }
                    (LstCore { private: Some(p2), status: LstCallStatus { ptt: false, ..self.status }, ..self }, acts)
                }
            },
            None => match self.group {
                Some(g) => if down {
                    let fresh_call = g.call_id.is_none() && !g.ptt;
                    let g1 = if fresh_call {
                        GroupCall { uuid: fresh, call_id: None, carrier_num: None, ts: None, ..g }
                    } else {
                        g
                    };
                    let g2 = GroupCall { ptt: true, last_activity_ms: now, ..g1 };
                    let acts = vec![
                        LstAction::NetworkCallStart {
                            brew_uuid: g1.uuid,
                            source_issi: self.operator_issi,
                            dest_gssi: g.gssi,
                        },
                    ];
                    proof {
                        assert(acts@ =~= spec_set_ptt(self, down, fresh, now).1);
                    }
                    (
                        LstCore {
                            group: Some(g2),
                            status: LstCallStatus { ptt: true, last_error: None, ..self.status },
                            ..self
                        },
                        acts,
                    )
                } else {
                    let g2 = GroupCall {
                        ptt: false,
                        last_activity_ms: now,
                        call_id: None,
                        carrier_num: None,
                        ts: None,
                        ..g
                    };
                    let acts = vec![LstAction::NetworkCallEnd { brew_uuid: g.uuid }, LstAction::ResetUplink];
                    proof {
                        assert(acts@ =~= spec_set_ptt(self, down, fresh, now).1);
                    }
                    (LstCore { group: Some(g2), status: LstCallStatus { ptt: false, ..self.status }, ..self }, acts)
                },
                None => {
                    let acts: Vec<LstAction> = Vec::new();
                    assert(acts@ =~= Seq::<LstAction>::empty());
                    (
                        LstCore {
                            status: LstCallStatus { last_error: Some(LstError::NoActiveCallForPtt), ..self.status },
                            ..self
                        },
                        acts,
                    )
                },
            },
        }
    }

    /// See [`spec_start_private`].
    pub fn start_private(self, dest: u32, duplex: bool, fresh: u128) -> (r: (Self, Vec<LstAction>))
        ensures
            (r.0, r.1@) == spec_start_private(self, dest, duplex, fresh),
    {
        if dest == 0 || dest > LST_MAX_SSI {
            let r = (LstCore { status: LstCallStatus { last_error: Some(LstError::InvalidIssi), ..self.status }, ..self }, Vec::new());
            assert(r.1@ =~= Seq::<LstAction>::empty());
            return r;
        }
        let mut acts: Vec<LstAction> = match self.private {
            Some(p) => vec![LstAction::NetworkCircuitRelease { brew_uuid: p.uuid, cause: 0 }],
            None => Vec::new(),
        };
        acts.push(
            LstAction::NetworkCircuitSetupRequest {
                brew_uuid: fresh,
                source_issi: self.operator_issi,
                destination: dest,
                duplex,
            },
        );
        proof {
            assert(acts@ =~= spec_start_private(self, dest, duplex, fresh).1);
        }
        let p = PrivateCall {
            uuid: fresh,
            dest,
            duplex,
            call_id: None,
            carrier_num: None,
            ts: None,
            ptt: false,
        };
        (
            LstCore {
                terminal_clear_at_ms: None,
                private: Some(p),
                status: LstCallStatus {
                    call_kind: Some(private_kind_exec(duplex)),
                    call_peer: Some(dest),
                    media_ready: false,
                    ptt: false,
                    call_phase: CallPhase::Dialing,
                    disconnect_cause: None,
                    call_started_ms: None,
                    last_error: None,
                    ..self.status
                },
                ..self
            },
            acts,
        )
    }

    /// See [`spec_hangup_private`].
    pub fn hangup_private(self, now: u64) -> (r: (Self, Vec<LstAction>))
        ensures
            (r.0, r.1@) == spec_hangup_private(self, now),
    {
        match self.private {
            Some(p) => {
                let acts = vec![LstAction::NetworkCircuitRelease { brew_uuid: p.uuid, cause: 0 }];
                proof {
                    assert(acts@ =~= spec_hangup_private(self, now).1);
                }
                (
                    LstCore {
                        private: None,
                        terminal_clear_at_ms: Some(hold_until_exec(now)),
                        status: LstCallStatus {
                            call_kind: Some(private_kind_exec(p.duplex)),
                            call_peer: Some(p.dest),
                            ptt: false,
                            media_ready: false,
                            call_phase: CallPhase::Ended,
                            disconnect_cause: Some(1),
                            last_error: None,
                            ..self.status
                        },
                        ..self
                    },
                    acts,
                )
            },
            None => {
                let acts: Vec<LstAction> = Vec::new();
                assert(acts@ =~= Seq::<LstAction>::empty());
                (self, acts)
            },
        }
    }

    /// See [`spec_private_failed`].
    pub fn enter_private_failed(self, dest: u32, duplex: bool, cause: u8, now: u64) -> (r: Self)
        ensures
            r == spec_private_failed(self, dest, duplex, cause, now),
    {
        LstCore {
            private: None,
            terminal_clear_at_ms: Some(hold_until_exec(now)),
            status: LstCallStatus {
                call_kind: Some(private_kind_exec(duplex)),
                call_peer: Some(dest),
                ptt: false,
                media_ready: false,
                call_phase: CallPhase::Failed,
                disconnect_cause: Some(cause),
                call_started_ms: None,
                last_error: None,
                ..self.status
            },
            ..self
        }
    }

    /// See [`spec_private_ended`].
    pub fn enter_private_ended(self, dest: u32, duplex: bool, cause: u8, now: u64) -> (r: Self)
        ensures
            r == spec_private_ended(self, dest, duplex, cause, now),
    {
        LstCore {
            private: None,
            terminal_clear_at_ms: Some(hold_until_exec(now)),
            status: LstCallStatus {
                call_kind: Some(private_kind_exec(duplex)),
                call_peer: Some(dest),
                ptt: false,
                media_ready: false,
                call_phase: CallPhase::Ended,
                disconnect_cause: Some(cause),
                last_error: None,
                ..self.status
            },
            ..self
        }
    }

    /// See [`spec_clear_terminal_hold`].
    pub fn clear_terminal_hold(self) -> (r: Self)
        ensures
            r == spec_clear_terminal_hold(self),
    {
        let s = LstCallStatus {
            ptt: false,
            media_ready: false,
            call_phase: CallPhase::Idle,
            disconnect_cause: None,
            call_started_ms: None,
            last_error: None,
            ..self.status
        };
        let s2 = match self.group {
            Some(g) => LstCallStatus {
                active_gssi: Some(g.gssi),
                call_kind: Some(CallKind::Group),
                call_peer: Some(g.gssi),
                ..s
            },
            None => LstCallStatus { call_kind: None, call_peer: None, ..s },
        };
        LstCore { terminal_clear_at_ms: None, status: s2, ..self }
    }

    /// See [`spec_call_ready`].
    pub fn on_network_call_ready(self, uuid: u128, call_id: u16, carrier_num: u16, ts: u8, now: u64) -> (r: Self)
        ensures
            r == spec_call_ready(self, uuid, call_id, carrier_num, ts, now),
    {
        let g2 = match self.group {
            Some(g) => if g.uuid == uuid {
                Some(
                    GroupCall {
                        call_id: Some(call_id),
                        carrier_num: Some(carrier_num),
                        ts: Some(ts),
                        last_activity_ms: now,
                        ..g
                    },
                )
            } else {
                Some(g)
            },
            None => None,
        };
        let p2 = match self.private {
            Some(p) => if p.uuid == uuid {
                Some(PrivateCall { call_id: Some(call_id), carrier_num: Some(carrier_num), ts: Some(ts), ..p })
            } else {
                Some(p)
            },
            None => None,
        };
        LstCore { group: g2, private: p2, ..self }
    }

    /// See [`spec_call_end`].
    pub fn on_call_end_or_release(self, uuid: u128, cause: u8, now: u64) -> (r: Self)
        ensures
            r == spec_call_end(self, uuid, cause, now),
    {
        let c1 = match self.group {
            Some(g) => if g.uuid == uuid {
                let rejected = g.ptt && g.call_id.is_none();
                LstCore {
                    group: Some(GroupCall { ptt: false, call_id: None, carrier_num: None, ts: None, ..g }),
                    status: LstCallStatus {
                        ptt: false,
                        last_error: if rejected {
                            Some(LstError::GroupCallRejected)
                        } else {
                            self.status.last_error
                        },
                        ..self.status
                    },
                    ..self
                }
            } else {
                self
            },
            None => self,
        };
        match c1.private {
            Some(p) => if p.uuid == uuid {
                c1.enter_private_ended(p.dest, p.duplex, if cause == 0 { 14 } else { cause }, now)
            } else {
                c1
            },
            None => c1,
        }
    }

    /// See [`spec_rx_prim`].
    pub fn rx_prim(self, ev: LstNetEvent, now: u64, epoch_ms: u64) -> (r: (Self, Vec<LstAction>))
        ensures
            (r.0, r.1@) == spec_rx_prim(self, ev, now, epoch_ms),
    {
        let none: Vec<LstAction> = Vec::new();
        assert(none@ =~= Seq::<LstAction>::empty());
        match ev {
            LstNetEvent::NetworkCallReady { brew_uuid, call_id, carrier_num, ts } => (
                self.on_network_call_ready(brew_uuid, call_id, carrier_num, ts, now),
                none,
            ),
            LstNetEvent::NetworkCircuitMediaReady { brew_uuid, call_id, carrier_num, ts } => {
                let c1 = self.on_network_call_ready(brew_uuid, call_id, carrier_num, ts, now);
                let mine = match c1.private {
                    Some(p) => p.uuid == brew_uuid,
                    None => false,
                };
                if mine {
                    (
                        LstCore {
                            status: LstCallStatus {
                                media_ready: true,
                                call_phase: CallPhase::Established,
                                disconnect_cause: None,
                                call_started_ms: Some(epoch_ms),
                                last_error: None,
                                ..c1.status
                            },
                            ..c1
                        },
                        none,
                    )
                } else {
                    (c1, none)
                }
            },
            LstNetEvent::NetworkCircuitSetupAccept { brew_uuid } => {
                let mine = match self.private {
                    Some(p) => p.uuid == brew_uuid,
                    None => false,
                };
                if mine {
                    (LstCore { status: LstCallStatus { last_error: None, ..self.status }, ..self }, none)
                } else {
                    (self, none)
                }
            },
            LstNetEvent::NetworkCircuitAlert { brew_uuid } => {
                let mine = match self.private {
                    Some(p) => p.uuid == brew_uuid,
                    None => false,
                };
                if mine {
                    (
                        LstCore {
                            status: LstCallStatus { call_phase: CallPhase::Ringing, last_error: None, ..self.status },
                            ..self
                        },
                        none,
                    )
                } else {
                    (self, none)
                }
            },
            LstNetEvent::NetworkCircuitSetupReject { brew_uuid, cause } => match self.private {
                Some(p) => if p.uuid == brew_uuid {
                    (self.enter_private_failed(p.dest, p.duplex, cause, now), none)
                } else {
                    (self, none)
                },
                None => (self, none),
            },
            LstNetEvent::NetworkCircuitConnectRequest { brew_uuid } => {
                let mine = match self.private {
                    Some(p) => p.uuid == brew_uuid,
                    None => false,
                };
                if mine {
                    let acts = vec![LstAction::NetworkCircuitConnectConfirm { brew_uuid }];
                    assert(acts@ =~= seq![LstAction::NetworkCircuitConnectConfirm { brew_uuid }]);
                    (
                        LstCore {
                            status: LstCallStatus { call_phase: CallPhase::Answering, last_error: None, ..self.status },
                            ..self
                        },
                        acts,
                    )
                } else {
                    (self, none)
                }
            },
            LstNetEvent::NetworkCircuitConnectConfirm { brew_uuid } => (self, none),
            LstNetEvent::NetworkCallEnd { brew_uuid } => (self.on_call_end_or_release(brew_uuid, 1, now), none),
            LstNetEvent::NetworkCircuitRelease { brew_uuid, cause } => (
                self.on_call_end_or_release(brew_uuid, cause, now),
                none,
            ),
            LstNetEvent::Other => (self, none),
        }
    }

    /// See [`spec_ul_allowed`].
    pub fn ul_allowed(self) -> (r: bool)
        ensures
            r == spec_ul_allowed(self),
    {
        match self.private {
            Some(p) => if p.duplex {
                p.carrier_num.is_some() && p.ts.is_some()
            } else {
                p.ptt
            },
            None => match self.group {
                Some(g) => g.ptt,
                None => false,
            },
        }
    }

    /// See [`spec_ul_target`].
    pub fn ul_target(self) -> (r: Option<(u16, u8)>)
        ensures
            r == spec_ul_target(self),
    {
        match self.private {
            Some(p) => match (p.carrier_num, p.ts) {
                (Some(car), Some(t)) => if p.duplex || p.ptt {
                    Some((car, t))
                } else {
                    None
                },
                _ => None,
            },
            None => match self.group {
                Some(g) => match (g.carrier_num, g.ts) {
                    (Some(car), Some(t)) => if g.ptt {
                        Some((car, t))
                    } else {
                        None
                    },
                    _ => None,
                },
                None => None,
            },
        }
    }

    /// See [`spec_keepalive`].
    pub fn keepalive(self, now: u64) -> (r: (Self, Vec<LstAction>))
        ensures
            (r.0, r.1@) == spec_keepalive(self, now),
    {
        match self.group {
            Some(g) => if g.ptt && g.call_id.is_some() && elapsed_exec(now, g.last_keepalive_ms) >= KEEPALIVE_MS {
                let acts = vec![LstAction::NetworkCallMediaActivity { brew_uuid: g.uuid }];
                assert(acts@ =~= seq![LstAction::NetworkCallMediaActivity { brew_uuid: g.uuid }]);
                (LstCore { group: Some(GroupCall { last_keepalive_ms: now, ..g }), ..self }, acts)
            } else {
                let acts: Vec<LstAction> = Vec::new();
                assert(acts@ =~= Seq::<LstAction>::empty());
                (self, acts)
            },
            None => {
                let acts: Vec<LstAction> = Vec::new();
                assert(acts@ =~= Seq::<LstAction>::empty());
                (self, acts)
            },
        }
    }

    /// See [`spec_reap`].
    pub fn reap(self, now: u64) -> (r: (Self, Vec<LstAction>))
        ensures
            (r.0, r.1@) == spec_reap(self, now),
    {
        match self.group {
            Some(g) => if g.ptt && g.call_id.is_none() && elapsed_exec(now, g.last_activity_ms) > GROUP_SETUP_TIMEOUT_MS {
                let (c1, acts) = self.set_ptt(false, 0, now);
                (
                    LstCore {
                        status: LstCallStatus { last_error: Some(LstError::GroupSetupTimeout(g.gssi)), ..c1.status },
                        ..c1
                    },
                    acts,
                )
            } else {
                let acts: Vec<LstAction> = Vec::new();
                assert(acts@ =~= Seq::<LstAction>::empty());
                (self, acts)
            },
            None => {
                let acts: Vec<LstAction> = Vec::new();
                assert(acts@ =~= Seq::<LstAction>::empty());
                (self, acts)
            },
        }
    }

    /// See [`spec_expire_hold`].
    pub fn expire_hold(self, now: u64) -> (r: Self)
        ensures
            r == spec_expire_hold(self, now),
    {
        match self.terminal_clear_at_ms {
            Some(at) => if now >= at {
                self.clear_terminal_hold()
            } else {
                self
            },
            None => self,
        }
    }

    /// See [`spec_apply_command`].
    pub fn apply_command(self, cmd: &LstUiCommand, fresh: u128, now: u64) -> (r: (Self, Vec<LstAction>))
        ensures
            (r.0, r.1@) == spec_apply_command(self, *cmd, fresh, now),
    {
        match cmd {
            LstUiCommand::SetOperatorIssi { issi } => {
                let acts: Vec<LstAction> = Vec::new();
                assert(acts@ =~= Seq::<LstAction>::empty());
                (self.set_operator_issi(*issi), acts)
            },
            LstUiCommand::JoinGroup { gssi } => self.join_group(*gssi, fresh, now),
            LstUiCommand::LeaveGroup => self.leave_group(),
            LstUiCommand::Ptt { down } => self.set_ptt(*down, fresh, now),
            LstUiCommand::PrivateCall { dest_issi, duplex } => self.start_private(*dest_issi, *duplex, fresh),
            LstUiCommand::Hangup => {
                let (c1, mut a1) = self.hangup_private(now);
                let (c2, mut a2) = match c1.group {
                    Some(g) => if g.ptt || g.call_id.is_some() {
                        c1.set_ptt(false, fresh, now)
                    } else {
                        let acts: Vec<LstAction> = Vec::new();
                        assert(acts@ =~= Seq::<LstAction>::empty());
                        (c1, acts)
                    },
                    None => {
                        let acts: Vec<LstAction> = Vec::new();
                        assert(acts@ =~= Seq::<LstAction>::empty());
                        (c1, acts)
                    },
                };
                let ghost g1 = a1@;
                let ghost g2 = a2@;
                a1.append(&mut a2);
                assert(a1@ =~= g1 + g2);
                (LstCore { status: LstCallStatus { ptt: false, ..c2.status }, ..c2 }, a1)
            },
            LstUiCommand::UlPcm { pcm } => {
                let acts: Vec<LstAction> = Vec::new();
                assert(acts@ =~= Seq::<LstAction>::empty());
                (self, acts)
            },
        }
    }
}

// ---------------------------------------------------------------------------
// The entity
// ---------------------------------------------------------------------------

/// One uplink voice block for a traffic channel.
#[derive(Debug)]
pub struct UplinkBlock {
    pub carrier_num: u16,
    pub ts: u8,
    pub data: Vec<u8>,
}

/// The views of byte blocks.
pub open spec fn block_views(v: Seq<Vec<u8>>) -> Seq<Seq<u8>> {
    v.map_values(|b: Vec<u8>| b@)
}

/// The last `n` elements of `s` (all of it when shorter).
pub open spec fn keep_last<A>(s: Seq<A>, n: nat) -> Seq<A> {
    if s.len() > n {
        s.skip(s.len() - n)
    } else {
        s
    }
}

/// The actions ask for the uplink audio to be dropped.
pub open spec fn resets_uplink(acts: Seq<LstAction>) -> bool {
    acts.contains(LstAction::ResetUplink)
}

/// The dispatcher: its call state and the uplink voice blocks waiting for a channel.
pub struct LstDispatchEntity {
    core: LstCore,
    pending_ul: VecDeque<Vec<u8>>,
}

impl LstDispatchEntity {
    #[verifier::type_invariant]
    spec fn pending_capped(self) -> bool {
        self.pending_ul@.len() <= PENDING_UL_CAP
    }

    /// The call state.
    pub closed spec fn view_core(&self) -> LstCore {
        self.core
    }

    /// The uplink blocks waiting, oldest first.
    pub closed spec fn view_pending(&self) -> Seq<Seq<u8>> {
        block_views(self.pending_ul@)
    }

    /// A dispatcher with the configured operator ISSI (9990001 when none is configured).
    pub fn new(configured_issi: Option<u32>, codec_available: bool) -> (r: Self)
        ensures
            r.view_core() == spec_initial(
                match configured_issi {
                    Some(i) => i,
                    None => LST_DEFAULT_OPERATOR_ISSI,
                },
                codec_available,
            ),
            r.view_pending().len() == 0,
    {
        let issi = match configured_issi {
            Some(i) => i,
            None => LST_DEFAULT_OPERATOR_ISSI,
        };
        let r = LstDispatchEntity { core: LstCore::initial(issi, codec_available), pending_ul: VecDeque::new() };
        assert(block_views(r.pending_ul@) =~= Seq::<Seq<u8>>::empty());
        r
    }

    /// The call state.
    pub fn state(&self) -> (r: LstCore)
        ensures
            r == self.view_core(),
    {
        self.core
    }

    /// Drop the waiting uplink blocks when the actions ask for it.
    fn reset_if_asked(&mut self, acts: &Vec<LstAction>)
        ensures
            final(self).view_core() == old(self).view_core(),
            final(self).view_pending() == if resets_uplink(acts@) {
                Seq::<Seq<u8>>::empty()
            } else {
                old(self).view_pending()
            },
    {
        let mut found = false;
        let mut i: usize = 0;
        while i < acts.len()
            invariant
                i <= acts.len(),
                found == exists|k: int| 0 <= k < i && acts@[k] == LstAction::ResetUplink,
            decreases acts.len() - i,
        {
            if acts[i] == LstAction::ResetUplink {
                found = true;
            }
            i += 1;
        }
        assert(found == resets_uplink(acts@));
        if found {
            self.pending_ul = VecDeque::new();
            assert(block_views(self.pending_ul@) =~= Seq::<Seq<u8>>::empty());
        }
    }

    /// Apply one operator command (see [`spec_apply_command`]); `fresh` is a new UUID for
    /// a call it may start and `now` the monotonic clock in milliseconds.
    pub fn apply_command(&mut self, cmd: &LstUiCommand, fresh: u128, now: u64) -> (r: Vec<LstAction>)
        ensures
            (final(self).view_core(), r@) == spec_apply_command(old(self).view_core(), *cmd, fresh, now),
            final(self).view_pending() == if resets_uplink(r@) {
                Seq::<Seq<u8>>::empty()
            } else {
                old(self).view_pending()
            },
    {
        proof {
            use_type_invariant(&*self);
        }
        let (c, acts) = self.core.apply_command(cmd, fresh, now);
        self.core = c;
        self.reset_if_asked(&acts);
        acts
    }

    /// Take one CMCE message (see [`spec_rx_prim`]).
    pub fn rx_prim(&mut self, ev: LstNetEvent, now: u64, epoch_ms: u64) -> (r: Vec<LstAction>)
        ensures
            (final(self).view_core(), r@) == spec_rx_prim(old(self).view_core(), ev, now, epoch_ms),
            final(self).view_pending() == old(self).view_pending(),
    {
        proof {
            use_type_invariant(&*self);
        }
        let (c, acts) = self.core.rx_prim(ev, now, epoch_ms);
        self.core = c;
        acts
    }

    /// Whether uplink audio is taken now (see [`spec_ul_allowed`]).
    pub fn ul_allowed(&self) -> (r: bool)
        ensures
            r == spec_ul_allowed(self.view_core()),
    {
        self.core.ul_allowed()
    }

    /// Queue encoded uplink blocks; the oldest are dropped beyond twelve.
    pub fn queue_ul_blocks(&mut self, blocks: Vec<Vec<u8>>)
        ensures
            final(self).view_core() == old(self).view_core(),
            final(self).view_pending() == keep_last(old(self).view_pending() + block_views(blocks@), PENDING_UL_CAP as nat),
    {
        proof {
            use_type_invariant(&*self);
        }
        let ghost start = block_views(self.pending_ul@);
        let ghost bv = block_views(blocks@);
        let mut blocks = blocks;
        let mut q: VecDeque<Vec<u8>> = VecDeque::new();
        std::mem::swap(&mut q, &mut self.pending_ul);
        let mut i: usize = 0;
        let n = blocks.len();
        assert(bv.take(0) =~= Seq::<Seq<u8>>::empty());
        assert(keep_last(start + bv.take(0), PENDING_UL_CAP as nat) =~= start);
        while i < n
            invariant
                i <= n == bv.len(),
                blocks@.len() == n - i,
                forall|k: int| 0 <= k < n - i ==> #[trigger] blocks@[k]@ == bv[i + k],
                q@.len() <= PENDING_UL_CAP,
                block_views(q@) == keep_last(start + bv.take(i as int), PENDING_UL_CAP as nat),
            decreases n - i,
        {
            let b = blocks.remove(0);
            assert(b@ == bv[i as int]);
            let ghost before = block_views(q@);
            if q.len() >= PENDING_UL_CAP {
                q.pop_front();
            }
            let ghost mid = block_views(q@);
            q.push_back(b);
            proof {
                let all = start + bv.take(i + 1);
                assert(start + bv.take(i + 1) =~= (start + bv.take(i as int)).push(bv[i as int]));
                if before.len() >= PENDING_UL_CAP {
                    assert(mid =~= before.drop_first());
                } else {
                    assert(mid =~= before);
                }
                assert(block_views(q@) =~= mid.push(b@));
                assert(block_views(q@) =~= keep_last(all, PENDING_UL_CAP as nat));
            }
            i += 1;
        }
        assert(bv.take(n as int) =~= bv);
        self.pending_ul = q;
    }

    /// End of a tick: the terminal hold expires, waiting uplink blocks (up to six) go to the
    /// call's channel, a held group call gets its keepalive, and a group call that never got
    /// ready is reaped.
    pub fn tick_end(&mut self, now: u64) -> (r: (Vec<LstAction>, Vec<UplinkBlock>))
        ensures
            ({
                let c1 = spec_expire_hold(old(self).view_core(), now);
                let (c2, a1) = spec_keepalive(c1, now);
                let (c3, a2) = spec_reap(c2, now);
                let sent = match spec_ul_target(c1) {
                    Some(_) => if old(self).view_pending().len() > MAX_UL_BLOCKS_PER_TICK {
                        MAX_UL_BLOCKS_PER_TICK as int
                    } else {
                        old(self).view_pending().len() as int
                    },
                    None => 0,
                };
                &&& final(self).view_core() == c3
                &&& r.0@ == a1 + a2
                &&& r.1@.len() == sent
                &&& forall|k: int| 0 <= k < sent ==> (#[trigger] r.1@[k]).data@ == old(self).view_pending()[k]
                    && (r.1@[k].carrier_num, r.1@[k].ts) == spec_ul_target(c1)->0
                &&& final(self).view_pending() == if resets_uplink(a2) {
                    Seq::<Seq<u8>>::empty()
                } else {
                    old(self).view_pending().skip(sent)
                }
            }),
    {
        proof {
            use_type_invariant(&*self);
        }
        let ghost p0 = block_views(self.pending_ul@);
        let c1 = self.core.expire_hold(now);
        let mut out: Vec<UplinkBlock> = Vec::new();
        let mut q: VecDeque<Vec<u8>> = VecDeque::new();
        std::mem::swap(&mut q, &mut self.pending_ul);
        match c1.ul_target() {
            Some((car, t)) => {
                let mut n: usize = 0;
                while n < MAX_UL_BLOCKS_PER_TICK && q.len() > 0
                    invariant
                        n <= MAX_UL_BLOCKS_PER_TICK,
                        n <= p0.len(),
                        out@.len() == n,
                        block_views(q@) == p0.skip(n as int),
                        q@.len() <= PENDING_UL_CAP,
                        forall|k: int| 0 <= k < n ==> (#[trigger] out@[k]).data@ == p0[k] && out@[k].carrier_num == car && out@[k].ts == t,
                    decreases MAX_UL_BLOCKS_PER_TICK - n,
                {
                    let ghost before = q@;
                    assert(block_views(before).len() == before.len());
                    assert(p0.skip(n as int).len() > 0);
                    let data = q.pop_front().unwrap();
                    assert(data@ == p0[n as int]) by {
                        assert(block_views(before)[0] == before[0]@);
                        assert(p0.skip(n as int)[0] == p0[n as int]);
                    }
                    assert(block_views(q@) =~= p0.skip(n + 1)) by {
                        assert(q@ =~= before.subrange(1, before.len() as int));
                        assert forall|k: int| 0 <= k < q@.len() implies block_views(q@)[k] == p0.skip(n + 1)[k] by {
                            assert(block_views(q@)[k] == q@[k]@);
                            assert(q@[k] == before[k + 1]);
                            assert(block_views(before)[k + 1] == before[k + 1]@);
                            assert(p0.skip(n as int)[k + 1] == p0[n + 1 + k]);
                        }
                    }
                    out.push(UplinkBlock { carrier_num: car, ts: t, data });
                    n += 1;
                }
            },
            None => {},
        }
        self.pending_ul = q;
        let (c2, mut a1) = c1.keepalive(now);
        let (c3, mut a2) = c2.reap(now);
        self.core = c3;
        self.reset_if_asked(&a2);
        let ghost g1 = a1@;
        let ghost g2 = a2@;
        a1.append(&mut a2);
        assert(a1@ =~= g1 + g2);
        (a1, out)
    }
}

// ---------------------------------------------------------------------------
// Laws
// ---------------------------------------------------------------------------

/// The operator's ISSI is a valid individual address.
pub open spec fn issi_in_range(issi: u32) -> bool {
    1 <= issi <= LST_MAX_SSI
}

/// Setting the operator ISSI always leaves a valid one, whatever was asked for, and the
/// status shows it.
pub proof fn lemma_operator_issi_clamped(c: LstCore, issi: u32)
    ensures
        issi_in_range(spec_set_operator_issi(c, issi).operator_issi),
        spec_set_operator_issi(c, issi).status.operator_issi == spec_set_operator_issi(c, issi).operator_issi,
        issi_in_range(issi) ==> spec_set_operator_issi(c, issi).operator_issi == issi,
{
}

/// No operator command and no CMCE message moves the operator ISSI out of range.
pub proof fn lemma_operator_issi_stays_valid(c: LstCore, cmd: LstUiCommand, ev: LstNetEvent, fresh: u128, now: u64, epoch_ms: u64)
    requires
        issi_in_range(c.operator_issi),
    ensures
        issi_in_range(spec_apply_command(c, cmd, fresh, now).0.operator_issi),
        issi_in_range(spec_rx_prim(c, ev, now, epoch_ms).0.operator_issi),
{
}

/// A private call takes priority over a selected talkgroup: with a private call up, PTT
/// never starts or ends a group call and leaves the talkgroup as it was.
pub proof fn lemma_private_ptt_priority(c: LstCore, down: bool, fresh: u128, now: u64)
    requires
        c.private is Some,
    ensures
        spec_set_ptt(c, down, fresh, now).0.group == c.group,
        forall|i: int| 0 <= i < spec_set_ptt(c, down, fresh, now).1.len() ==> {
            let a = #[trigger] spec_set_ptt(c, down, fresh, now).1[i];
            !(a is NetworkCallStart) && !(a is NetworkCallEnd)
        },
{
}

/// On a talkgroup (no private call), PTT down starts a group call to that GSSI from the
/// operator, and releasing PTT afterwards ends that same call.
pub proof fn lemma_group_ptt_down_up(c: LstCore, fresh: u128, fresh2: u128, t0: u64, t1: u64)
    requires
        c.private is None,
        c.group is Some,
    ensures
        ({
            let (c1, a1) = spec_set_ptt(c, true, fresh, t0);
            let (c2, a2) = spec_set_ptt(c1, false, fresh2, t1);
            &&& a1.len() == 1
            &&& a1[0] matches LstAction::NetworkCallStart { brew_uuid, source_issi, dest_gssi }
            &&& source_issi == c.operator_issi
            &&& dest_gssi == c.group->0.gssi
            &&& a2 == seq![LstAction::NetworkCallEnd { brew_uuid }, LstAction::ResetUplink]
            &&& c1.status.ptt && !c2.status.ptt
            &&& c2.group->0.gssi == c.group->0.gssi
        }),
{
}

/// Hanging up a private call releases it, shows it as ended by the user (cause 1) and
/// starts the hold; PTT is released whatever was up.
pub proof fn lemma_hangup_ends_private(c: LstCore, fresh: u128, now: u64)
    requires
        c.private is Some,
    ensures
        ({
            let (c1, acts) = spec_apply_command(c, LstUiCommand::Hangup, fresh, now);
            &&& c1.private is None
            &&& c1.status.call_phase == CallPhase::Ended
            &&& c1.status.disconnect_cause == Some(1u8)
            &&& !c1.status.ptt
            &&& c1.terminal_clear_at_ms == Some(hold_until(now))
            &&& acts.len() >= 1
            &&& acts[0] == LstAction::NetworkCircuitRelease { brew_uuid: c.private->0.uuid, cause: 0 }
        }),
{
}

/// A finished private call stays on screen until the hold time has passed, and not a
/// moment longer: before `hold_until(now)` it still shows as ended; from then on the
/// console is idle again.
pub proof fn lemma_terminal_hold(c: LstCore, now: u64, t: u64)
    requires
        c.private is Some,
    ensures
        ({
            let c1 = spec_hangup_private(c, now).0;
            let c2 = spec_expire_hold(c1, t);
            &&& t < hold_until(now) ==> c2.status.call_phase == CallPhase::Ended
            &&& t >= hold_until(now) ==> c2.status.call_phase == CallPhase::Idle
                && c2.terminal_clear_at_ms is None
                && c2.status.disconnect_cause is None
        }),
{
}

/// Redialing replaces the private call: the previous one is released (not shown as ended),
/// any hold is cancelled, and the new call is requested from the operator's ISSI.
pub proof fn lemma_redial_releases_previous(c: LstCore, dest: u32, duplex: bool, fresh: u128)
    requires
        c.private is Some,
        1 <= dest <= LST_MAX_SSI,
    ensures
        ({
            let (c1, acts) = spec_start_private(c, dest, duplex, fresh);
            &&& acts == seq![
                LstAction::NetworkCircuitRelease { brew_uuid: c.private->0.uuid, cause: 0 },
                LstAction::NetworkCircuitSetupRequest {
                    brew_uuid: fresh,
                    source_issi: c.operator_issi,
                    destination: dest,
                    duplex,
                },
            ]
            &&& c1.private == Some(PrivateCall {
                uuid: fresh,
                dest,
                duplex,
                call_id: None,
                carrier_num: None,
                ts: None,
                ptt: false,
            })
            &&& c1.terminal_clear_at_ms is None
            &&& c1.status.call_phase == CallPhase::Dialing
        }),
{
}

/// An out-of-range GSSI or ISSI changes no call: only the error is set.
pub proof fn lemma_invalid_address_rejected(c: LstCore, addr: u32, duplex: bool, fresh: u128, now: u64)
    requires
        addr == 0 || addr > LST_MAX_SSI,
    ensures
        ({
            let (c1, a1) = spec_join_group(c, addr, fresh, now);
            &&& c1.group == c.group && c1.private == c.private && a1.len() == 0
            &&& c1.status.last_error == Some(LstError::InvalidGssi)
        }),
        ({
            let (c2, a2) = spec_start_private(c, addr, duplex, fresh);
            &&& c2.group == c.group && c2.private == c.private && a2.len() == 0
            &&& c2.status.last_error == Some(LstError::InvalidIssi)
        }),
{
}

/// The status the dashboard shows: the session lock's part and the dispatcher's part.
#[derive(Debug)]
pub struct LstRuntimeStatus {
    pub enabled: bool,
    pub session_busy: bool,
    pub session_holder: Option<String>,
    pub call: LstCallStatus,
}

impl LstRuntimeStatus {
    /// Status of an enabled dispatcher before any session or call.
    pub fn new(call: LstCallStatus) -> (r: Self)
        ensures
            r.enabled,
            !r.session_busy,
            r.session_holder is None,
            r.call == call,
    {
        LstRuntimeStatus { enabled: true, session_busy: false, session_holder: None, call }
    }
}

} // verus!
