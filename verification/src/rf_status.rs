//! RF / PHY status for the dashboard and setup wizard.
//!
//! The stack can run with the dashboard up even when no SDR is open (setup mode or open
//! failure). The process holds one [`RfRegistry`]; consumers read its status without
//! needing a PHY entity.
use vstd::prelude::*;
use crate::text::{chars_of, string_of};

verus! {

/// High-level RF availability.
#[derive(Debug, Clone, Copy, PartialEq, Eq, Structural)]
pub enum RfState {
    /// SDR open and PHY registered.
    Online,
    /// Intentionally disabled (`phy_io.backend = None`).
    Offline,
    /// Wanted SoapySDR but open failed (or unsupported backend).
    Error,
    /// Still trying to open the radio.
    Starting,
}

/// What the dashboard shows of the radio.
#[derive(Debug)]
pub struct RfStatus {
    pub state: RfState,
    pub detail: String,
    pub backend: String,
}

impl Default for RfStatus {
    fn default() -> (r: Self)
        ensures
            r.state == RfState::Starting,
            r.detail@ == "RF not initialised yet"@,
            r.backend@ == "unknown"@,
    {
        RfStatus {
            state: RfState::Starting,
            detail: string_of(chars_of("RF not initialised yet").as_slice()),
            backend: string_of(chars_of("unknown").as_slice()),
        }
    }
}

/// `s` as a new `String`.
fn owned(s: &str) -> (r: String)
    ensures
        r@ == s@,
{
    string_of(chars_of(s).as_slice())
}

/// The process-wide RF status and the OTA request to power the SDR off.
pub struct RfRegistry {
    status: RfStatus,
    ota_rf_off: bool,
}

impl RfRegistry {
    /// What is known of the status: `(state, detail, backend)`.
    pub closed spec fn view_status(&self) -> (RfState, Seq<char>, Seq<char>) {
        (self.status.state, self.status.detail@, self.status.backend@)
    }

    /// An OTA build asked for the SDR to be powered off.
    pub closed spec fn view_ota_rf_off(&self) -> bool {
        self.ota_rf_off
    }

    /// The registry at process start: starting, with no detail or backend yet, and no OTA
    /// power-off request.
    pub fn new() -> (r: Self)
        ensures
            r.view_status() == (RfState::Starting, Seq::<char>::empty(), Seq::<char>::empty()),
            !r.view_ota_rf_off(),
    {
        RfRegistry {
            status: RfStatus { state: RfState::Starting, detail: String::new(), backend: String::new() },
            ota_rf_off: false,
        }
    }

    /// Replace the status.
    fn write_status(&mut self, state: RfState, detail: &str, backend: &str)
        ensures
            final(self).view_status() == (state, detail@, backend@),
            final(self).view_ota_rf_off() == old(self).view_ota_rf_off(),
    {
        self.status = RfStatus { state, detail: owned(detail), backend: owned(backend) };
    }

    /// The radio is being opened on `backend`.
    pub fn set_starting(&mut self, backend: &str)
        ensures
            final(self).view_status() == (RfState::Starting, "Opening SDR…"@, backend@),
            final(self).view_ota_rf_off() == old(self).view_ota_rf_off(),
    {
        self.write_status(RfState::Starting, "Opening SDR…", backend);
    }

    /// The radio is on the air.
    pub fn set_online(&mut self, backend: &str, detail: &str)
        ensures
            final(self).view_status() == (RfState::Online, detail@, backend@),
            final(self).view_ota_rf_off() == old(self).view_ota_rf_off(),
    {
        self.write_status(RfState::Online, detail, backend);
    }

    /// The radio is intentionally disabled.
    pub fn set_offline(&mut self, detail: &str)
        ensures
            final(self).view_status() == (RfState::Offline, detail@, "None"@),
            final(self).view_ota_rf_off() == old(self).view_ota_rf_off(),
    {
        self.write_status(RfState::Offline, detail, "None");
    }

    /// Opening the radio failed.
    pub fn set_error(&mut self, backend: &str, detail: &str)
        ensures
            final(self).view_status() == (RfState::Error, detail@, backend@),
            final(self).view_ota_rf_off() == old(self).view_ota_rf_off(),
    {
        self.write_status(RfState::Error, detail, backend);
    }

    /// A copy of the current status.
    pub fn get(&self) -> (r: RfStatus)
        ensures
            (r.state, r.detail@, r.backend@) == self.view_status(),
    {
        RfStatus {
            state: self.status.state,
            detail: owned(self.status.detail.as_str()),
            backend: owned(self.status.backend.as_str()),
        }
    }

    /// Ask the running PHY to power off the SDR for an in-process OTA build. Nothing clears
    /// the request: the service restarts after the install.
    pub fn request_ota_rf_off(&mut self)
        ensures
            final(self).view_ota_rf_off(),
            final(self).view_status() == old(self).view_status(),
    {
        self.ota_rf_off = true;
    }

    /// An OTA build asked for the SDR to be powered off.
    pub fn ota_rf_off_requested(&self) -> (r: bool)
        ensures
            r == self.view_ota_rf_off(),
    {
        self.ota_rf_off
    }
}

} // verus!
