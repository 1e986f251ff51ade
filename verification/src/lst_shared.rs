//! What the LST dispatcher shares with the dashboard: the operator session, the status
//! shown, and the downlink audio waiting for the operator's browser.
//!
//! Commands from the console travel on a channel beside this state; the caller queues
//! them only for the session holder (see [`LstShared::is_owner`]).
use vstd::prelude::*;
use std::collections::VecDeque;
use std::time::Instant;
use crate::lst_dispatch::{keep_last, LstCallStatus, LstRuntimeStatus};
use crate::lst_session::{ClaimResult, SessionLock, is_v4_uuid, seen_at};

verus! {

/// Most downlink PCM chunks kept for the browser; the oldest go first.
pub const DL_PCM_CAP: usize = 32;

/// Most downlink PCM chunks handed out per poll.
pub const DL_TAKE_CAP: usize = 8;

/// Most samples in one uplink PCM chunk from the browser.
pub const UL_PCM_MAX_SAMPLES: usize = 8000;

/// The samples of PCM chunks.
pub open spec fn pcm_views(v: Seq<Vec<i16>>) -> Seq<Seq<i16>> {
    v.map_values(|b: Vec<i16>| b@)
}

/// How many of `waiting` chunks a poll asking for `max` hands out.
pub open spec fn dl_take_count(max: int, waiting: int) -> int {
    let m = if max < waiting { max } else { waiting };
    if m > DL_TAKE_CAP { DL_TAKE_CAP as int } else { m }
}

/// An uplink PCM chunk is accepted: not empty, at most [`UL_PCM_MAX_SAMPLES`] samples.
pub fn ul_pcm_len_ok(n: usize) -> (r: bool)
    ensures
        r == (0 < n && n <= UL_PCM_MAX_SAMPLES),
{
    0 < n && n <= UL_PCM_MAX_SAMPLES
}

/// The session part of the status shows holder `o`: its label, and busy whenever there is
/// one (busy is read first, so it may also be left set for a holder that expired just
/// before its label was read).
pub open spec fn session_shown(s: LstRuntimeStatus, o: Option<(u128, Seq<char>)>) -> bool {
    &&& o is Some ==> s.session_busy
    &&& match o {
        Some(h) => s.session_holder matches Some(l) && l@ == h.1,
        None => s.session_holder is None,
    }
}

/// The state the dispatcher shares with the dashboard.
pub struct LstShared {
    session: SessionLock,
    status: LstRuntimeStatus,
    dl_pcm: VecDeque<Vec<i16>>,
}

impl LstShared {
    /// The session holder, as (token, label).
    pub closed spec fn view_owner(&self) -> Option<(u128, Seq<char>)> {
        self.session.view_owner()
    }

    /// When the holder was last seen and when it claimed the session.
    pub closed spec fn view_session_times(&self) -> Option<(Instant, Instant)> {
        self.session.view_times()
    }

    /// The downlink chunks waiting, oldest first.
    pub closed spec fn view_dl(&self) -> Seq<Seq<i16>> {
        pcm_views(self.dl_pcm@)
    }

    /// The status as last refreshed.
    pub closed spec fn view_status(&self) -> LstRuntimeStatus {
        self.status
    }

    /// The status shows the current holder.
    pub open spec fn fresh(&self) -> bool {
        session_shown(self.view_status(), self.view_owner())
    }

    /// Shared state of an enabled dispatcher whose call state starts as `call`: no session,
    /// no audio.
    pub fn new(call: LstCallStatus) -> (r: Self)
        ensures
            r.view_owner() is None,
            r.view_dl().len() == 0,
            r.fresh(),
            r.view_status().enabled,
            r.view_status().call == call,
    {
        let r = LstShared { session: SessionLock::default(), status: LstRuntimeStatus::new(call), dl_pcm: VecDeque::new() };
        assert(pcm_views(r.dl_pcm@) =~= Seq::<Seq<i16>>::empty());
        r
    }

    /// Show the current holder in the status (a holder not seen for the TTL is dropped
    /// first).
    pub fn refresh(&mut self)
        ensures
            final(self).view_owner() == old(self).view_owner() || final(self).view_owner() is None,
            final(self).view_owner() is Some ==> final(self).view_session_times() == old(self).view_session_times(),
            final(self).fresh(),
            final(self).view_dl() == old(self).view_dl(),
            final(self).view_status().enabled == old(self).view_status().enabled,
            final(self).view_status().call == old(self).view_status().call,
    {
        let busy = self.session.has_owner();
        let holder = self.session.busy_holder();
        self.status.session_busy = busy;
        self.status.session_holder = holder;
    }

    /// The status as last refreshed.
    pub fn status(&self) -> (r: &LstRuntimeStatus)
        ensures
            *r == self.view_status(),
    {
        &self.status
    }

    /// Take the session for `client_label`, unless a live holder has it (see
    /// [`SessionLock::claim`]).
    pub fn claim(&mut self, client_label: String) -> (r: ClaimResult)
        ensures
            final(self).fresh(),
            final(self).view_dl() == old(self).view_dl(),
            final(self).view_status().call == old(self).view_status().call,
            old(self).view_owner() is None ==> r is Granted,
            match r {
                ClaimResult::Granted { token } => is_v4_uuid(token) && (final(self).view_owner() == Some(
                    (token, client_label@),
                ) || final(self).view_owner() is None),
                ClaimResult::Busy { holder } => (old(self).view_owner() matches Some(o) && holder@ == o.1) && (
                final(self).view_owner() == old(self).view_owner() || final(self).view_owner() is None),
            },
            r is Granted && final(self).view_owner() is Some ==> exists|now: Instant| final(self).view_session_times()
                == Some((now, now)),
            r is Busy && final(self).view_owner() is Some ==> final(self).view_session_times() == old(
                self,
            ).view_session_times(),
    {
        let r = self.session.claim(client_label);
        self.refresh();
        r
    }

    /// Keep the session alive; false when `token` does not hold it.
    pub fn heartbeat(&mut self, token: u128) -> (r: bool)
        ensures
            final(self).fresh(),
            final(self).view_dl() == old(self).view_dl(),
            final(self).view_status().call == old(self).view_status().call,
            r ==> (old(self).view_owner() matches Some(o) && o.0 == token),
            final(self).view_owner() == old(self).view_owner() || final(self).view_owner() is None,
            r && final(self).view_owner() is Some ==> exists|now: Instant| final(self).view_session_times()
                == #[trigger] seen_at(old(self).view_session_times(), now),
            !r && final(self).view_owner() is Some ==> final(self).view_session_times() == old(
                self,
            ).view_session_times(),
    {
        let ok = self.session.heartbeat(token);
        self.refresh();
        ok
    }

    /// Give the session up: the holder's waiting audio is dropped. False (and the audio
    /// kept) when `token` does not hold it; the caller then asks the dispatcher to idle.
    pub fn release(&mut self, token: u128) -> (r: bool)
        ensures
            final(self).fresh(),
            final(self).view_status().call == old(self).view_status().call,
            r == (old(self).view_owner() matches Some(o) && o.0 == token),
            r ==> final(self).view_owner() is None && final(self).view_dl().len() == 0,
            !r ==> final(self).view_dl() == old(self).view_dl() && (final(self).view_owner() == old(
                self,
            ).view_owner() || final(self).view_owner() is None),
    {
        let ok = self.session.release(token);
        if ok {
            self.dl_pcm.clear();
            assert(pcm_views(self.dl_pcm@) =~= Seq::<Seq<i16>>::empty());
        }
        self.refresh();
        ok
    }

    /// `token` holds the session and was seen within the TTL.
    pub fn is_owner(&self, token: u128) -> (r: bool)
        ensures
            r ==> (self.view_owner() matches Some(o) && o.0 == token),
    {
        self.session.is_owner(token)
    }

    /// Publish the dispatcher's call state.
    pub fn set_call(&mut self, call: LstCallStatus)
        ensures
            final(self).fresh(),
            final(self).view_status().call == call,
            final(self).view_status().enabled == old(self).view_status().enabled,
            final(self).view_dl() == old(self).view_dl(),
            final(self).view_owner() == old(self).view_owner() || final(self).view_owner() is None,
    {
        self.status.call = call;
        self.refresh();
    }

    /// Queue a downlink chunk for the holder's browser, dropping the oldest beyond
    /// [`DL_PCM_CAP`]; without a live holder nothing is queued.
    pub fn push_dl_pcm(&mut self, pcm: Vec<i16>)
        ensures
            final(self).view_status() == old(self).view_status(),
            final(self).view_owner() == old(self).view_owner() || final(self).view_owner() is None,
            final(self).view_owner() is None ==> final(self).view_dl() == old(self).view_dl(),
            final(self).view_owner() is Some ==> final(self).view_dl() == keep_last(
                old(self).view_dl(),
                (DL_PCM_CAP - 1) as nat,
            ).push(pcm@),
    {
        if !self.session.has_owner() {
            return;
        }
        let ghost d0 = pcm_views(self.dl_pcm@);
        let ghost st0 = self.status;
        let ghost ow0 = self.session.view_owner();
        while self.dl_pcm.len() >= DL_PCM_CAP
            invariant
                self.status == st0,
                self.session.view_owner() == ow0,
                pcm_views(self.dl_pcm@) == d0.skip(d0.len() - self.dl_pcm@.len()),
                self.dl_pcm@.len() <= d0.len(),
                d0.len() <= DL_PCM_CAP - 1 ==> self.dl_pcm@.len() == d0.len(),
                d0.len() > DL_PCM_CAP - 1 ==> self.dl_pcm@.len() >= DL_PCM_CAP - 1,
            decreases self.dl_pcm@.len(),
        {
            let ghost before = self.dl_pcm@;
            let _ = self.dl_pcm.pop_front();
            assert(pcm_views(self.dl_pcm@) =~= pcm_views(before).drop_first());
            assert(d0.skip(d0.len() - before.len()).drop_first() =~= d0.skip(d0.len() - self.dl_pcm@.len()));
        }
        let ghost kept = self.dl_pcm@;
        self.dl_pcm.push_back(pcm);
        proof {
            assert(pcm_views(self.dl_pcm@) =~= pcm_views(kept).push(pcm@));
            if d0.len() <= DL_PCM_CAP - 1 {
                assert(kept.len() == d0.len());
                assert(d0.skip(0) =~= d0);
            }
        }
    }

    /// Hand the holder up to `max` waiting downlink chunks (at most [`DL_TAKE_CAP`]),
    /// oldest first; anyone else gets none.
    pub fn take_dl_pcm(&mut self, token: u128, max: usize) -> (r: Vec<Vec<i16>>)
        ensures
            final(self).view_status() == old(self).view_status(),
            final(self).view_owner() == old(self).view_owner(),
            !(old(self).view_owner() matches Some(o) && o.0 == token) ==> r@.len() == 0,
            ({
                let d = old(self).view_dl();
                let n = r@.len() as int;
                &&& pcm_views(r@) == d.take(n)
                &&& final(self).view_dl() == d.skip(n)
                &&& n == 0 || n == dl_take_count(max as int, d.len() as int)
            }),
    {
        let ghost d0 = pcm_views(self.dl_pcm@);
        let mut out: Vec<Vec<i16>> = Vec::new();
        if !self.session.is_owner(token) {
            assert(pcm_views(out@) =~= d0.take(0));
            assert(d0.skip(0) =~= d0);
            return out;
        }
        let mut n = if max < self.dl_pcm.len() { max } else { self.dl_pcm.len() };
        if n > DL_TAKE_CAP {
            n = DL_TAKE_CAP;
        }
        let mut i: usize = 0;
        assert(pcm_views(out@) =~= d0.take(0));
        assert(d0.skip(0) =~= d0);
        let ghost st0 = self.status;
        let ghost ow0 = self.session.view_owner();
        while i < n
            invariant
                self.status == st0,
                self.session.view_owner() == ow0,
                n == dl_take_count(max as int, d0.len() as int),
                i <= n,
                n <= d0.len(),
                pcm_views(out@) == d0.take(i as int),
                pcm_views(self.dl_pcm@) == d0.skip(i as int),
                self.dl_pcm@.len() == d0.len() - i,
                out@.len() == i,
            decreases n - i,
        {
            let ghost before = self.dl_pcm@;
            let ghost out0 = out@;
            match self.dl_pcm.pop_front() {
                Some(c) => {
                    out.push(c);
                    assert(pcm_views(before)[0] == d0[i as int]);
                    assert(pcm_views(out@) =~= pcm_views(out0).push(d0[i as int]));
                    assert(d0.take(i + 1) =~= d0.take(i as int).push(d0[i as int]));
                    assert(pcm_views(self.dl_pcm@) =~= pcm_views(before).drop_first());
                    assert(d0.skip(i + 1) =~= d0.skip(i as int).drop_first());
                },
                None => {
                    assert(false);
                },
            }
            i += 1;
        }
        out
    }
}


/// Queuing a downlink chunk never leaves more than [`DL_PCM_CAP`] chunks waiting, however
/// many were waiting before, and the chunk just queued is the last one out.
pub proof fn lemma_dl_pcm_capped(waiting: Seq<Seq<i16>>, pcm: Seq<i16>)
    ensures
        keep_last(waiting, (DL_PCM_CAP - 1) as nat).push(pcm).len() <= DL_PCM_CAP,
        keep_last(waiting, (DL_PCM_CAP - 1) as nat).push(pcm).last() == pcm,
{
}

} // verus!
