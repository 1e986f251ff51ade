use flowstation::dual_carrier::upsert_soapysdr_keys;
use flowstation::health::{
    last_restart_age, request_restart, restart_stamp_text, seed_last_restart, watchdog_params, watchdog_step,
    HealthMonitorConfig, RestartReason, WatchdogState,
};
use flowstation::lst_dispatch::{
    is_lst_profile_name, CallKind, CallPhase, LstAction, LstDispatchEntity, LstError, LstNetEvent, LstUiCommand,
};
use flowstation::lst_media::{codec_available, pack_tmd_block, split_tmd, take_pcm_blocks, LstCodec};
use flowstation::lst_session::{is_stale, ClaimResult, SessionLock, SESSION_TTL_MS};
use flowstation::lst_shared::{ul_pcm_len_ok, LstShared, DL_PCM_CAP};
use flowstation::message_queue::{MessagePrio, MessageQueue};

#[test]
fn second_claim_busy() {
    let mut lock = SessionLock::default();
    assert!(matches!(lock.claim("a".into()), ClaimResult::Granted { .. }));
    assert!(matches!(lock.claim("b".into()), ClaimResult::Busy { .. }));
}

#[test]
fn release_allows_reclaim() {
    let mut lock = SessionLock::default();
    let ClaimResult::Granted { token } = lock.claim("a".into()) else {
        panic!("claim");
    };
    assert!(lock.release(token));
    assert!(matches!(lock.claim("b".into()), ClaimResult::Granted { .. }));
}

#[test]
fn session_tokens_and_holders() {
    let mut lock = SessionLock::default();
    let ClaimResult::Granted { token } = lock.claim("ops".into()) else {
        panic!("claim");
    };
    assert_eq!((token >> 76) & 0xF, 4);
    assert!(lock.is_owner(token));
    assert!(lock.heartbeat(token));
    assert!(!lock.heartbeat(token ^ 1));
    assert!(!lock.release(token ^ 1));
    assert_eq!(lock.busy_holder().as_deref(), Some("ops"));
    match lock.claim("other".into()) {
        ClaimResult::Busy { holder } => assert_eq!(holder, "ops"),
        _ => panic!("expected busy"),
    }
    lock.force_clear();
    assert!(!lock.has_owner());
}

#[test]
fn group_ptt_starts_and_ends_the_call() {
    let mut e = LstDispatchEntity::new(None, false);
    assert_eq!(e.state().operator_issi, 9_990_001);
    let acts = e.apply_command(&LstUiCommand::Ptt { down: true }, 1, 0);
    assert!(acts.is_empty());
    assert_eq!(e.state().status.last_error, Some(LstError::NoActiveCallForPtt));
    assert!(e.apply_command(&LstUiCommand::JoinGroup { gssi: 91 }, 10, 0).is_empty());
    assert_eq!(e.state().status.call_kind, Some(CallKind::Group));
    let acts = e.apply_command(&LstUiCommand::Ptt { down: true }, 11, 5);
    assert_eq!(acts, vec![LstAction::NetworkCallStart { brew_uuid: 11, source_issi: 9_990_001, dest_gssi: 91 }]);
    assert!(e.state().status.ptt);
    assert!(e.rx_prim(LstNetEvent::NetworkCallReady { brew_uuid: 11, call_id: 3, carrier_num: 1, ts: 2 }, 6, 0).is_empty());
    assert!(e.ul_allowed());
    e.queue_ul_blocks(vec![vec![1], vec![2]]);
    let (acts, blocks) = e.tick_end(500);
    assert_eq!(acts, vec![LstAction::NetworkCallMediaActivity { brew_uuid: 11 }]);
    assert_eq!(blocks.len(), 2);
    assert_eq!((blocks[0].carrier_num, blocks[0].ts, blocks[0].data.clone()), (1, 2, vec![1]));
    let acts = e.apply_command(&LstUiCommand::Ptt { down: false }, 12, 600);
    assert_eq!(acts, vec![LstAction::NetworkCallEnd { brew_uuid: 11 }, LstAction::ResetUplink]);
    assert!(!e.state().status.ptt);
}

#[test]
fn private_call_lifecycle() {
    let mut e = LstDispatchEntity::new(Some(100), false);
    let acts = e.apply_command(&LstUiCommand::PrivateCall { dest_issi: 200, duplex: false }, 7, 0);
    assert_eq!(
        acts,
        vec![LstAction::NetworkCircuitSetupRequest { brew_uuid: 7, source_issi: 100, destination: 200, duplex: false }]
    );
    assert_eq!(e.state().status.call_phase, CallPhase::Dialing);
    e.rx_prim(LstNetEvent::NetworkCircuitAlert { brew_uuid: 7 }, 1, 0);
    assert_eq!(e.state().status.call_phase, CallPhase::Ringing);
    let acts = e.rx_prim(LstNetEvent::NetworkCircuitConnectRequest { brew_uuid: 7 }, 2, 0);
    assert_eq!(acts, vec![LstAction::NetworkCircuitConnectConfirm { brew_uuid: 7 }]);
    e.rx_prim(LstNetEvent::NetworkCircuitMediaReady { brew_uuid: 7, call_id: 1, carrier_num: 3, ts: 4 }, 3, 999);
    assert_eq!(e.state().status.call_phase, CallPhase::Established);
    assert_eq!(e.state().status.call_started_ms, Some(999));
    let acts = e.apply_command(&LstUiCommand::Ptt { down: true }, 8, 4);
    assert_eq!(acts, vec![LstAction::NetworkCircuitSimplexGranted { brew_uuid: 7 }]);
    let acts = e.apply_command(&LstUiCommand::Hangup, 9, 10);
    assert_eq!(acts[0], LstAction::NetworkCircuitRelease { brew_uuid: 7, cause: 0 });
    assert_eq!(e.state().status.call_phase, CallPhase::Ended);
    assert_eq!(e.state().status.disconnect_cause, Some(1));
    let (_, _) = e.tick_end(5009);
    assert_eq!(e.state().status.call_phase, CallPhase::Ended);
    let (_, _) = e.tick_end(5010);
    assert_eq!(e.state().status.call_phase, CallPhase::Idle);
}

#[test]
fn dispatcher_input_checks() {
    let mut e = LstDispatchEntity::new(None, true);
    e.apply_command(&LstUiCommand::SetOperatorIssi { issi: 0 }, 1, 0);
    assert_eq!(e.state().operator_issi, 1);
    e.apply_command(&LstUiCommand::SetOperatorIssi { issi: u32::MAX }, 1, 0);
    assert_eq!(e.state().operator_issi, 16_777_214);
    e.apply_command(&LstUiCommand::JoinGroup { gssi: 0 }, 1, 0);
    assert_eq!(e.state().status.last_error, Some(LstError::InvalidGssi));
    assert_eq!(LstError::GroupSetupTimeout(5).message(), "group setup timeout on GSSI 5 — affiliated radios?");
    assert!(is_lst_profile_name(Some("__lst_dispatch__")));
    assert!(!is_lst_profile_name(Some("x")));
    assert!(!is_lst_profile_name(None));
}

#[test]
fn group_setup_is_reaped_after_timeout() {
    let mut e = LstDispatchEntity::new(None, false);
    e.apply_command(&LstUiCommand::JoinGroup { gssi: 9 }, 1, 0);
    e.apply_command(&LstUiCommand::Ptt { down: true }, 2, 0);
    let (acts, _) = e.tick_end(5001);
    assert_eq!(acts, vec![LstAction::NetworkCallEnd { brew_uuid: 2 }, LstAction::ResetUplink]);
    assert_eq!(e.state().status.last_error, Some(LstError::GroupSetupTimeout(9)));
}

#[test]
fn uplink_queue_keeps_the_newest_twelve() {
    let mut e = LstDispatchEntity::new(None, false);
    e.queue_ul_blocks((0..15u8).map(|i| vec![i]).collect());
    e.apply_command(&LstUiCommand::JoinGroup { gssi: 9 }, 1, 0);
    e.apply_command(&LstUiCommand::Ptt { down: true }, 2, 0);
    e.rx_prim(LstNetEvent::NetworkCallReady { brew_uuid: 2, call_id: 1, carrier_num: 1, ts: 1 }, 0, 0);
    let (_, blocks) = e.tick_end(1);
    assert_eq!(blocks.len(), 6);
    assert_eq!(blocks[0].data, vec![3]);
}

#[test]
fn codec_is_absent_and_blocks_pack() {
    assert!(!codec_available());
    assert!(LstCodec::new().is_none());
    let a = [0xFFu8; 18];
    let b = [0u8; 18];
    let packed = pack_tmd_block(&a, &b);
    assert_eq!(packed.len(), 35);
    assert_eq!(packed[0], 0xFF);
    assert_eq!(packed[16], 0xFF);
    assert_eq!(packed[17], 0x80);
    assert_eq!(packed[18], 0);
    let (fa, fb) = split_tmd(&packed).unwrap();
    let mut want = [0xFFu8; 18];
    want[17] = 0x80;
    assert_eq!(fa, want);
    assert_eq!(fb, [0u8; 18]);
    assert!(split_tmd(&packed[..34]).is_none());
}

#[test]
fn queue_order_and_priority() {
    let mut q = MessageQueue::new();
    q.push_back(1);
    q.push_prio(2, MessagePrio::Normal);
    q.push_prio(0, MessagePrio::Immediate);
    assert_eq!(q.len(), 3);
    assert_eq!(q.pop_front(), Some(0));
    assert_eq!(q.pop_front(), Some(1));
    assert_eq!(q.pop_front(), Some(2));
    assert_eq!(q.pop_front(), None);
    assert_eq!(MessagePrio::default(), MessagePrio::Normal);
}

#[test]
fn watchdog_restarts_after_stall_with_cooldown() {
    let mut cfg = HealthMonitorConfig::with_stall_threshold(500);
    cfg.restart_on_core_stall = true;
    cfg.restart_after_critical_ms = 30_000;
    cfg.restart_cooldown_ms = 600_000;
    let p = watchdog_params(&cfg);
    assert_eq!(p.stall_critical_ms, 1000);
    let st = WatchdogState { last_restart: None, stall_since: None, panic_window_start: 0, panic_window_base: 0 };
    let (st, r) = watchdog_step(st, p, 1_000, 0, 2_000);
    assert!(r.is_empty());
    assert_eq!(st.stall_since, Some(1_000));
    let (st, r) = watchdog_step(st, p, 31_000, 0, 32_000);
    assert_eq!(r, vec![RestartReason::CoreStalled(32_000)]);
    assert_eq!(r[0].text(), "core loop stalled 32s");
    let (_, r) = watchdog_step(st, p, 62_000, 0, 63_000);
    assert!(r.is_empty(), "cooldown");
    let (st, r) = watchdog_step(
        WatchdogState { last_restart: None, stall_since: None, panic_window_start: 0, panic_window_base: 0 },
        p,
        10_000,
        25,
        0,
    );
    assert_eq!(r, vec![RestartReason::PanicStorm(25)]);
    assert_eq!(r[0].text(), "25 panics caught in 60s (entity dispatch)");
    assert_eq!(st.panic_window_base, 25);
}

#[test]
fn restart_gate_and_stamps() {
    let mut last = None;
    assert!(request_restart(&mut last, 1000, 5));
    assert_eq!(last, Some(5));
    assert!(!request_restart(&mut last, 1000, 500));
    assert!(request_restart(&mut last, 1000, 1005));
    assert_eq!(last_restart_age(Some(" 100\n"), 160), Some(60));
    assert_eq!(last_restart_age(Some("not-a-timestamp"), 160), None);
    assert_eq!(last_restart_age(Some("200"), 160), None);
    assert_eq!(last_restart_age(None, 160), None);
    assert_eq!(restart_stamp_text(42), "42\n");
    assert_eq!(seed_last_restart(Some(100), 600, 1000), Some(900));
    assert_eq!(seed_last_restart(Some(700), 600, 1000), None);
    assert_eq!(seed_last_restart(Some(100), 600, 50), Some(50));
}

#[test]
fn soapy_keys_are_upserted() {
    let keys = vec![
        ("sample_rate".to_string(), "600000".to_string()),
        ("tx_center_freq".to_string(), "438037500".to_string()),
    ];
    let src = "[phy_io.soapysdr]\nsample_rate = 1\n# tx_center_freq = 0\n[cell_info]\nmain_carrier = 1\n";
    let out = upsert_soapysdr_keys(src, &keys);
    assert_eq!(
        out,
        "[phy_io.soapysdr]\nsample_rate = 600000\n# tx_center_freq = 0\ntx_center_freq = 438037500\n[cell_info]\nmain_carrier = 1\n"
    );
    let out = upsert_soapysdr_keys("[net]\nx = 1", &keys);
    assert_eq!(out, "[net]\nx = 1\n\n[phy_io.soapysdr]\nsample_rate = 600000\ntx_center_freq = 438037500");
    assert_eq!(upsert_soapysdr_keys("abc", &Vec::new()), "abc");
}

#[test]
fn persisted_restart_stamp_round_trips() {
    // No stamp yet: no cooldown to honour.
    assert!(last_restart_age(None, 1_700_000_000).is_none());

    // A stamp written now reads back as a very small age: the cooldown is still in force
    // after the restart it triggered.
    let now_secs: u64 = 1_700_000_000;
    let stamp = restart_stamp_text(now_secs);
    let age = last_restart_age(Some(&stamp), now_secs + 1).expect("stamp should read back");
    assert!(age < 5, "unexpected age {age}");

    // Garbage in the file is not taken for "just restarted".
    assert!(last_restart_age(Some("not-a-timestamp"), now_secs).is_none());
}

#[test]
fn cooldown_blocks_a_restart_right_after_boot() {
    let mut cfg = HealthMonitorConfig::with_stall_threshold(500);
    cfg.restart_on_core_stall = true;
    let p = watchdog_params(&cfg);
    // The previous restart was 60 s before this boot; the cooldown is 10 min.
    let boot = 1_000_000;
    let st = flowstation::health::watchdog_start(seed_last_restart(Some(60_000), p.cooldown_ms, boot), boot, 0);
    let (st, r) = watchdog_step(st, p, boot + 1_000, 0, 100_000);
    assert!(r.is_empty());
    let (st, r) = watchdog_step(st, p, boot + 40_000, 50, 100_000);
    assert!(r.is_empty(), "stall and panic storm are both held back by the cooldown");
    // Once the cooldown has run out from the earlier restart, the stall restarts the service.
    let (_, r) = watchdog_step(st, p, boot + 540_000, 50, 100_000);
    assert_eq!(r, vec![RestartReason::CoreStalled(100_000)]);
}

#[test]
fn finished_private_call_stays_on_screen_for_five_seconds() {
    let mut e = LstDispatchEntity::new(Some(1001), false);
    e.apply_command(&LstUiCommand::PrivateCall { dest_issi: 2002, duplex: false }, 77, 1_000);
    let acts = e.apply_command(&LstUiCommand::Hangup, 78, 2_000);
    assert_eq!(acts[0], LstAction::NetworkCircuitRelease { brew_uuid: 77, cause: 0 });
    assert_eq!(e.state().status.call_phase, CallPhase::Ended);
    assert_eq!(e.state().status.disconnect_cause, Some(1));
    let _ = e.tick_end(6_999);
    assert_eq!(e.state().status.call_phase, CallPhase::Ended);
    let _ = e.tick_end(7_000);
    assert_eq!(e.state().status.call_phase, CallPhase::Idle);
    assert_eq!(e.state().status.disconnect_cause, None);
}

#[test]
fn ptt_on_a_private_call_never_touches_the_talkgroup() {
    let mut e = LstDispatchEntity::new(Some(1001), false);
    e.apply_command(&LstUiCommand::JoinGroup { gssi: 91 }, 5, 0);
    e.apply_command(&LstUiCommand::PrivateCall { dest_issi: 2002, duplex: false }, 6, 0);
    let down = e.apply_command(&LstUiCommand::Ptt { down: true }, 7, 10);
    assert_eq!(down, vec![LstAction::NetworkCircuitSimplexGranted { brew_uuid: 6 }]);
    let up = e.apply_command(&LstUiCommand::Ptt { down: false }, 8, 20);
    assert_eq!(up, vec![LstAction::NetworkCircuitSimplexIdle { brew_uuid: 6 }, LstAction::ResetUplink]);
    assert_eq!(e.state().group.map(|g| g.gssi), Some(91));
    // Redialing releases the previous private call and cancels nothing else.
    let redial = e.apply_command(&LstUiCommand::PrivateCall { dest_issi: 3003, duplex: true }, 9, 30);
    assert_eq!(redial[0], LstAction::NetworkCircuitRelease { brew_uuid: 6, cause: 0 });
    assert_eq!(e.state().status.call_phase, CallPhase::Dialing);
}

#[test]
fn operator_issi_is_clamped() {
    let mut e = LstDispatchEntity::new(Some(1001), false);
    e.apply_command(&LstUiCommand::SetOperatorIssi { issi: 0 }, 1, 0);
    assert_eq!(e.state().operator_issi, 1);
    e.apply_command(&LstUiCommand::SetOperatorIssi { issi: u32::MAX }, 1, 0);
    assert_eq!(e.state().operator_issi, 16_777_214);
    assert_eq!(e.state().status.operator_issi, 16_777_214);
}

#[test]
fn shared_state_gates_audio_on_the_session_holder() {
    let call = LstDispatchEntity::new(None, true).state().status;
    let mut sh = LstShared::new(call);
    sh.refresh();
    assert!(sh.status().enabled);
    assert!(!sh.status().session_busy);
    assert_eq!(sh.status().call.operator_issi, 9_990_001);

    // Without a holder, downlink audio is not kept.
    sh.push_dl_pcm(vec![1, 2]);
    let ClaimResult::Granted { token } = sh.claim("console".into()) else {
        panic!("claim");
    };
    assert!(sh.status().session_busy);
    assert_eq!(sh.status().session_holder.as_deref(), Some("console"));
    assert!(sh.take_dl_pcm(token, 8).is_empty());

    // Beyond the cap the oldest chunks go.
    for i in 0..(DL_PCM_CAP as i16 + 3) {
        sh.push_dl_pcm(vec![i]);
    }
    assert!(sh.take_dl_pcm(token ^ 1, 8).is_empty());
    let first = sh.take_dl_pcm(token, 100);
    assert_eq!(first.len(), 8);
    assert_eq!(first[0], vec![3]);
    assert_eq!(first[7], vec![10]);
    let next = sh.take_dl_pcm(token, 2);
    assert_eq!(next, vec![vec![11], vec![12]]);

    // A second console is refused; releasing drops the audio and frees the session.
    assert!(matches!(sh.claim("other".into()), ClaimResult::Busy { holder } if holder == "console"));
    assert!(!sh.release(token ^ 1));
    assert!(sh.release(token));
    assert!(!sh.status().session_busy);
    assert!(sh.status().session_holder.is_none());
    let ClaimResult::Granted { token: t2 } = sh.claim("other".into()) else {
        panic!("reclaim");
    };
    assert!(sh.take_dl_pcm(t2, 8).is_empty());

    assert!(!ul_pcm_len_ok(0));
    assert!(ul_pcm_len_ok(1));
    assert!(ul_pcm_len_ok(8000));
    assert!(!ul_pcm_len_ok(8001));
}

#[test]
fn session_ttl_rule_with_given_readings() {
    let now = std::time::Instant::now();
    assert!(!is_stale(SESSION_TTL_MS - 1));
    assert!(is_stale(SESSION_TTL_MS));
    let mut lock = SessionLock::default();
    assert!(matches!(lock.claim_at("a".into(), 0, 7, now), ClaimResult::Granted { token: 7 }));
    // A live holder keeps the lock; its heartbeat succeeds and another token's fails.
    assert!(matches!(lock.claim_at("b".into(), SESSION_TTL_MS - 1, 8, now), ClaimResult::Busy { holder } if holder == "a"));
    assert!(lock.is_owner_at(7, 0));
    assert!(!lock.is_owner_at(8, 0));
    assert!(!lock.is_owner_at(7, SESSION_TTL_MS));
    assert!(lock.heartbeat_at(7, 5, now));
    assert!(!lock.heartbeat_at(8, 5, now));
    assert_eq!(lock.busy_holder_at(1).as_deref(), Some("a"));
    // Once stale, a heartbeat fails and the next claim takes the lock.
    assert!(!lock.heartbeat_at(7, SESSION_TTL_MS, now));
    assert!(!lock.has_owner_at(0));
    assert!(matches!(lock.claim_at("b".into(), 0, 9, now), ClaimResult::Granted { token: 9 }));
    assert!(matches!(lock.claim_at("c".into(), SESSION_TTL_MS + 5, 10, now), ClaimResult::Granted { token: 10 }));
    assert_eq!(lock.busy_holder_at(SESSION_TTL_MS).as_deref(), None);
}

#[test]
fn uplink_pcm_is_cut_into_two_frame_blocks() {
    let mut buf: Vec<i16> = (0..100).collect();
    let pcm: Vec<i16> = (100..1000).collect();
    let blocks = take_pcm_blocks(&mut buf, &pcm);
    assert_eq!(blocks.len(), 2);
    assert_eq!(blocks[0].0, (0..240).collect::<Vec<i16>>());
    assert_eq!(blocks[0].1, (240..480).collect::<Vec<i16>>());
    assert_eq!(blocks[1].0, (480..720).collect::<Vec<i16>>());
    assert_eq!(blocks[1].1, (720..960).collect::<Vec<i16>>());
    assert_eq!(buf, (960..1000).collect::<Vec<i16>>());

    let more: Vec<i16> = vec![7; 439];
    assert!(take_pcm_blocks(&mut buf, &more).is_empty());
    assert_eq!(buf.len(), 479);
    let blocks = take_pcm_blocks(&mut buf, &[9]);
    assert_eq!(blocks.len(), 1);
    assert_eq!(blocks[0].0[0], 960);
    assert_eq!(blocks[0].1[239], 9);
    assert!(buf.is_empty());
}
