//! The campaign record and its bounds.

use vstd::prelude::*;

verus! {

/// Longest allowed campaign name, in bytes.
pub const MAX_CAMPAIGN_NAME: usize = 50;

/// Longest allowed campaign description, in bytes.
pub const MAX_CAMPAIGN_DESCR: usize = 250;

/// One coarse value unit equals this many base units. Donation and withdrawal
/// amounts arrive in coarse units; the transfer primitive and every carried
/// balance count base units. The stored counters stay in coarse units.
pub const BASE_UNITS_PER_UNIT: u64 = 1_000_000_000;

/// One fundraising campaign's persisted record.
///
/// `amount_donated` and `amount_withdrawn` are historical counters in coarse
/// units; the account's carried balance lives beside the record in the store
/// and is not derivable from them, since the balance can also move by direct
/// external credits.
pub struct Campaign {
    /// The one identity allowed to withdraw from and close this campaign.
    /// Set at creation and never changed.
    pub update_authority: u64,
    /// Human-readable label, at most [`MAX_CAMPAIGN_NAME`] bytes.
    pub name: Vec<u8>,
    /// Free text, at most [`MAX_CAMPAIGN_DESCR`] bytes.
    pub description: Vec<u8>,
    /// The fundraising goal, informational only: donations are not capped.
    pub target_amount: u64,
    /// Sum of every donation ever made, in coarse units. Never decreases.
    pub amount_donated: u64,
    /// Sum of every withdrawal ever made, in coarse units. Never decreases.
    pub amount_withdrawn: u64,
}

impl Campaign {
    /// The record's bounds: name and description within the byte limits.
    pub open spec fn wf(self) -> bool {
        self.name@.len() <= MAX_CAMPAIGN_NAME && self.description@.len() <= MAX_CAMPAIGN_DESCR
    }
}

} // verus!
