//! Basic slot granting: the 4-bit granting delay element.
use vstd::prelude::*;
use crate::text::{append_chars, chars_of, dec, push_dec, string_of};

verus! {

/// Granting delay of a basic slot grant (4 bits).
#[derive(Debug, Clone, Copy, PartialEq, Eq, Structural)]
pub enum BasicSlotgrantGrantingDelay {
    /// Code 0.
    CapAllocAtNextOpportunity,
    /// Delay N opportunities, where N is in the range 1..=13 (codes 1 to 13).
    DelayNOpportunities(u8),
    /// Code 14.
    AllocStartsAtOpportunityInFr18,
    /// Code 15.
    WaitForAnotherSlotgrantMessage,
}

/// The 4-bit code of a granting delay. An out-of-range N is clamped into 1..=13, so that
/// neither a reserved code nor a truncated wrong delay can reach the air.
pub open spec fn spec_into_raw(d: BasicSlotgrantGrantingDelay) -> u64 {
    match d {
        BasicSlotgrantGrantingDelay::CapAllocAtNextOpportunity => 0,
        BasicSlotgrantGrantingDelay::DelayNOpportunities(n) => if n < 1 {
            1
        } else if n > 13 {
            13
        } else {
            n as u64
        },
        BasicSlotgrantGrantingDelay::AllocStartsAtOpportunityInFr18 => 14,
        BasicSlotgrantGrantingDelay::WaitForAnotherSlotgrantMessage => 15,
    }
}

/// The granting delay a code names; codes above 15 name none.
pub open spec fn spec_from_raw(x: u64) -> Option<BasicSlotgrantGrantingDelay> {
    if x == 0 {
        Some(BasicSlotgrantGrantingDelay::CapAllocAtNextOpportunity)
    } else if x <= 13 {
        Some(BasicSlotgrantGrantingDelay::DelayNOpportunities(x as u8))
    } else if x == 14 {
        Some(BasicSlotgrantGrantingDelay::AllocStartsAtOpportunityInFr18)
    } else if x == 15 {
        Some(BasicSlotgrantGrantingDelay::WaitForAnotherSlotgrantMessage)
    } else {
        None
    }
}

/// A delay whose N, if any, lies in 1..=13.
pub open spec fn delay_in_range(d: BasicSlotgrantGrantingDelay) -> bool {
    d matches BasicSlotgrantGrantingDelay::DelayNOpportunities(n) ==> 1 <= n <= 13
}

impl BasicSlotgrantGrantingDelay {
    /// Convert this enum back into the raw integer value.
    pub fn into_raw(self) -> (r: u64)
        ensures
            r == spec_into_raw(self),
            r < 16,
    {
        match self {
            BasicSlotgrantGrantingDelay::CapAllocAtNextOpportunity => 0,
            BasicSlotgrantGrantingDelay::DelayNOpportunities(n) => {
                if n < 1 {
                    1
                } else if n > 13 {
                    13
                } else {
                    n as u64
                }
            },
            BasicSlotgrantGrantingDelay::AllocStartsAtOpportunityInFr18 => 14,
            BasicSlotgrantGrantingDelay::WaitForAnotherSlotgrantMessage => 15,
        }
    }

    /// The granting delay a raw code names; `Err(())` for codes above 15.
    pub fn try_from_raw(x: u64) -> (r: Result<Self, ()>)
        ensures
            match spec_from_raw(x) {
                Some(d) => r == Ok::<Self, ()>(d),
                None => r == Err::<Self, ()>(()),
            },
    {
        if x == 0 {
            Ok(BasicSlotgrantGrantingDelay::CapAllocAtNextOpportunity)
        } else if x <= 13 {
            Ok(BasicSlotgrantGrantingDelay::DelayNOpportunities(x as u8))
        } else if x == 14 {
            Ok(BasicSlotgrantGrantingDelay::AllocStartsAtOpportunityInFr18)
        } else if x == 15 {
            Ok(BasicSlotgrantGrantingDelay::WaitForAnotherSlotgrantMessage)
        } else {
            Err(())
        }
    }
}

/// Every 4-bit code names a delay, and encoding that delay gives the code back; every delay
/// whose N lies in range decodes from its own code. Codes 16 and up name nothing.
pub proof fn lemma_granting_delay_round_trip(x: u64, d: BasicSlotgrantGrantingDelay)
    ensures
        x < 16 ==> (spec_from_raw(x) matches Some(e) && spec_into_raw(e) == x),
        x >= 16 ==> spec_from_raw(x) is None,
        delay_in_range(d) ==> spec_from_raw(spec_into_raw(d)) == Some(d),
        (spec_from_raw(spec_into_raw(d)) matches Some(e) && delay_in_range(e)),
{
}


/// The text form of a granting delay: its variant's name, with N spelled out for a delay
/// of N opportunities (`Delay3Opportunities`).
pub open spec fn spec_delay_text(d: BasicSlotgrantGrantingDelay) -> Seq<char> {
    match d {
        BasicSlotgrantGrantingDelay::CapAllocAtNextOpportunity => "CapAllocAtNextOpportunity"@,
        BasicSlotgrantGrantingDelay::DelayNOpportunities(n) => "Delay"@ + dec(n as nat) + "Opportunities"@,
        BasicSlotgrantGrantingDelay::AllocStartsAtOpportunityInFr18 => "AllocStartsAtOpportunityInFr18"@,
        BasicSlotgrantGrantingDelay::WaitForAnotherSlotgrantMessage => "WaitForAnotherSlotgrantMessage"@,
    }
}

impl BasicSlotgrantGrantingDelay {
    /// The text form (see [`spec_delay_text`]).
    pub fn to_string(&self) -> (r: String)
        ensures
            r@ == spec_delay_text(*self),
    {
        let mut v: Vec<char> = Vec::new();
        match self {
            BasicSlotgrantGrantingDelay::CapAllocAtNextOpportunity => {
                append_chars(&mut v, chars_of("CapAllocAtNextOpportunity").as_slice());
            },
            BasicSlotgrantGrantingDelay::DelayNOpportunities(n) => {
                append_chars(&mut v, chars_of("Delay").as_slice());
                push_dec(&mut v, *n as u64);
                append_chars(&mut v, chars_of("Opportunities").as_slice());
            },
            BasicSlotgrantGrantingDelay::AllocStartsAtOpportunityInFr18 => {
                append_chars(&mut v, chars_of("AllocStartsAtOpportunityInFr18").as_slice());
            },
            BasicSlotgrantGrantingDelay::WaitForAnotherSlotgrantMessage => {
                append_chars(&mut v, chars_of("WaitForAnotherSlotgrantMessage").as_slice());
            },
        }
        assert(Seq::<char>::empty() + spec_delay_text(*self) =~= spec_delay_text(*self));
        string_of(v.as_slice())
    }
}

} // verus!
