//! The failures an operation can end in.

use vstd::prelude::*;

verus! {

/// The engine's own rejections: input validation and balance sufficiency.
#[derive(Clone, Copy, Debug, PartialEq, Eq, Structural)]
pub enum CrowdFundError {
    /// The campaign name is longer than the byte limit allows.
    CampaignNameTooLong,
    /// The campaign description is longer than the byte limit allows.
    CampaignDescrTooLong,
    /// A donation or withdrawal amount of zero.
    InvalidAmount,
    /// A creation collided with a campaign already stored for the authority.
    CampaignAlreadyExists,
    /// Reserved: an authority mismatch on an operation that requires one.
    /// The address an authority derives always names its own campaign, so no
    /// operation here reaches a record with a foreign authority.
    InvalidOwner,
    /// A withdrawal that the campaign's carried balance cannot cover.
    InsufficientCampaignBalance,
}

/// What an operation surfaces to the caller: either one of the engine's own
/// rejections, or a failure of the account store or of the value-transfer
/// primitive, passed on unchanged.
#[derive(Clone, Copy, Debug, PartialEq, Eq, Structural)]
pub enum OpError {
    /// The engine itself rejected the request.
    CrowdFund(CrowdFundError),
    /// No campaign account exists at the derived address.
    CampaignNotFound,
    /// The transfer primitive refused the donation: the donor's balance does
    /// not cover the scaled amount.
    InsufficientDonorBalance,
}

} // verus!
