//! What a scan looks for: a time window, an amount range, and the contract
//! and event that a log entry must come from.

use vstd::prelude::*;
use crate::chain::{Address, Hash32};

verus! {

/// The criteria of one scan. Built once and never changed.
#[derive(Clone, Copy, Debug, PartialEq, Eq)]
pub struct Filter {
    /// First second of the time window (Unix time, inclusive).
    pub time_from: i64,
    /// Last second of the time window (Unix time, inclusive).
    pub time_to: i64,
    /// Smallest amount that matches, in the token's smallest units.
    pub amount_from: u128,
    /// Largest amount that matches, in the token's smallest units.
    pub amount_to: u128,
    /// The token contract whose transfers are wanted.
    pub contract_address: Address,
    /// Hash of the event's signature, as it stands in a log's first topic.
    pub event_signature: Hash32,
    /// Whether a log's first topic must equal `event_signature`. Without it a
    /// log is recognised by its number of topics alone.
    pub check_signature: bool,
    /// Whether the records name the sender and the recipient.
    pub decode_parties: bool,
}

/// Where a block's time lies with respect to the window.
#[derive(Clone, Copy, Debug, PartialEq, Eq, Structural)]
pub enum WindowSide {
    /// Earlier than the window's first second.
    Before,
    /// Within the window, bounds included.
    Inside,
    /// Later than the window's last second.
    After,
}

impl Filter {
    /// The window is not empty.
    pub open spec fn wf(&self) -> bool {
        self.time_from <= self.time_to
    }

    /// Builds a filter from its parts; `None` if the window would end before
    /// it starts.
    pub fn new(
        time_from: i64,
        time_to: i64,
        amount_from: u128,
        amount_to: u128,
        contract_address: Address,
        event_signature: Hash32,
        check_signature: bool,
        decode_parties: bool,
    ) -> (filter: Option<Filter>)
        ensures
            filter is Some <==> time_from <= time_to,
            filter matches Some(f) ==> f.wf() && f == (Filter {
                time_from,
                time_to,
                amount_from,
                amount_to,
                contract_address,
                event_signature,
                check_signature,
                decode_parties,
            }),
    {
        if time_from > time_to {
            None
        } else {
            Some(
                Filter {
                    time_from,
                    time_to,
                    amount_from,
                    amount_to,
                    contract_address,
                    event_signature,
                    check_signature,
                    decode_parties,
                },
            )
        }
    }

    /// The side of the window on which `time` lies.
    pub open spec fn side_of(&self, time: i64) -> WindowSide {
        if time < self.time_from {
            WindowSide::Before
        } else if time > self.time_to {
            WindowSide::After
        } else {
            WindowSide::Inside
        }
    }

    /// Whether `units` lies within the amount range, bounds included.
    pub open spec fn admits_amount(&self, units: nat) -> bool {
        self.amount_from <= units <= self.amount_to
    }

    /// Classifies a block's time against the window. A time before the
    /// window's start is `Before` even where the window is empty.
    pub fn classify_time(&self, time: i64) -> (side: WindowSide)
        ensures
            side == self.side_of(time),
    {
        if time < self.time_from {
            WindowSide::Before
        } else if time > self.time_to {
            WindowSide::After
        } else {
            WindowSide::Inside
        }
    }

    /// Tests an amount against the range.
    pub fn amount_in_range(&self, units: u128) -> (inside: bool)
        ensures
            inside == self.admits_amount(units as nat),
    {
        self.amount_from <= units && units <= self.amount_to
    }
}

} // verus!
