//! The engine's operations on concrete stores: creation bounds, donation and
//! withdrawal rules, closure, and the end-to-end lifecycle.

use crowd_fund::campaign::BASE_UNITS_PER_UNIT;
use crowd_fund::errors::CrowdFundError;
use crowd_fund::errors::OpError;
use crowd_fund::ledger::CloseCampaign;
use crowd_fund::ledger::CreateCampaign;
use crowd_fund::ledger::DonateToCampaign;
use crowd_fund::ledger::Ledger;
use crowd_fund::ledger::WithdrawFromCampaign;

fn create(l: &mut Ledger, authority: u64, name: &[u8], descr: &[u8], target: u64) -> Result<(), OpError> {
    l.create_campaign(
        CreateCampaign { update_authority: authority },
        name.to_vec(),
        descr.to_vec(),
        target,
    )
}

fn donate(l: &mut Ledger, donor: u64, authority: u64, amount: u64) -> Result<(), OpError> {
    l.donate_to_campaign(DonateToCampaign { campaign_authority: authority, signer: donor }, amount)
}

fn withdraw(l: &mut Ledger, authority: u64, amount: u64) -> Result<(), OpError> {
    l.withdraw_from_campaign(WithdrawFromCampaign { update_authority: authority }, amount)
}

fn close(l: &mut Ledger, authority: u64) -> Result<(), OpError> {
    l.close_campaign(CloseCampaign { update_authority: authority })
}

#[test]
fn create_stores_record_exactly() {
    let mut l = Ledger::new();
    let name = b"Clean water for the valley".to_vec();
    let descr = b"Drill two wells before the dry season.".to_vec();
    let r = l.create_campaign(CreateCampaign { update_authority: 7 }, name.clone(), descr.clone(), 100);
    assert_eq!(r, Ok(()));
    let c = l.load_campaign(7).expect("campaign must be stored");
    assert_eq!(c.update_authority, 7);
    assert_eq!(c.name, name);
    assert_eq!(c.description, descr);
    assert_eq!(c.target_amount, 100);
    assert_eq!(c.amount_donated, 0);
    assert_eq!(c.amount_withdrawn, 0);
    assert_eq!(l.campaign_balance(7), Some(0));
}

#[test]
fn create_name_boundary() {
    let mut l = Ledger::new();
    let at_limit = vec![b'n'; 50];
    assert_eq!(create(&mut l, 1, &at_limit, b"", 10), Ok(()));
    let over_limit = vec![b'n'; 51];
    assert_eq!(
        create(&mut l, 2, &over_limit, b"", 10),
        Err(OpError::CrowdFund(CrowdFundError::CampaignNameTooLong))
    );
    assert!(l.load_campaign(2).is_none());
}

#[test]
fn create_description_boundary() {
    let mut l = Ledger::new();
    let at_limit = vec![b'd'; 250];
    assert_eq!(create(&mut l, 1, b"a", &at_limit, 10), Ok(()));
    let over_limit = vec![b'd'; 251];
    assert_eq!(
        create(&mut l, 2, b"a", &over_limit, 10),
        Err(OpError::CrowdFund(CrowdFundError::CampaignDescrTooLong))
    );
    assert!(l.load_campaign(2).is_none());
}

#[test]
fn create_collision_rejected() {
    let mut l = Ledger::new();
    assert_eq!(create(&mut l, 1, b"first", b"", 10), Ok(()));
    assert_eq!(
        create(&mut l, 1, b"second", b"", 20),
        Err(OpError::CrowdFund(CrowdFundError::CampaignAlreadyExists))
    );
    let c = l.load_campaign(1).unwrap();
    assert_eq!(c.name, b"first".to_vec());
    assert_eq!(c.target_amount, 10);
}

#[test]
fn zero_amounts_rejected() {
    let mut l = Ledger::new();
    assert_eq!(create(&mut l, 1, b"x", b"", 10), Ok(()));
    l.credit_wallet(2, 10 * BASE_UNITS_PER_UNIT);
    assert_eq!(donate(&mut l, 2, 1, 0), Err(OpError::CrowdFund(CrowdFundError::InvalidAmount)));
    assert_eq!(withdraw(&mut l, 1, 0), Err(OpError::CrowdFund(CrowdFundError::InvalidAmount)));
    assert_eq!(l.load_campaign(1).unwrap().amount_donated, 0);
    assert_eq!(l.wallet_balance(2), 10 * BASE_UNITS_PER_UNIT);
}

#[test]
fn donation_moves_scaled_value() {
    let mut l = Ledger::new();
    assert_eq!(create(&mut l, 1, b"x", b"", 10), Ok(()));
    l.credit_wallet(2, 10 * BASE_UNITS_PER_UNIT);
    assert_eq!(donate(&mut l, 2, 1, 3), Ok(()));
    assert_eq!(l.load_campaign(1).unwrap().amount_donated, 3);
    assert_eq!(l.campaign_balance(1), Some(3 * BASE_UNITS_PER_UNIT));
    assert_eq!(l.wallet_balance(2), 7 * BASE_UNITS_PER_UNIT);
}

#[test]
fn donations_accumulate() {
    let mut l = Ledger::new();
    assert_eq!(create(&mut l, 1, b"x", b"", 10), Ok(()));
    l.credit_wallet(2, 20 * BASE_UNITS_PER_UNIT);
    assert_eq!(donate(&mut l, 2, 1, 5), Ok(()));
    assert_eq!(donate(&mut l, 2, 1, 3), Ok(()));
    assert_eq!(l.load_campaign(1).unwrap().amount_donated, 8);
    assert_eq!(l.campaign_balance(1), Some(8 * BASE_UNITS_PER_UNIT));
}

#[test]
fn donation_order_does_not_matter() {
    let mut one = Ledger::new();
    let mut other = Ledger::new();
    for l in [&mut one, &mut other] {
        assert_eq!(create(l, 1, b"x", b"", 10), Ok(()));
        l.credit_wallet(2, 20 * BASE_UNITS_PER_UNIT);
        l.credit_wallet(3, 20 * BASE_UNITS_PER_UNIT);
    }
    assert_eq!(donate(&mut one, 2, 1, 5), Ok(()));
    assert_eq!(donate(&mut one, 3, 1, 3), Ok(()));
    assert_eq!(donate(&mut other, 3, 1, 3), Ok(()));
    assert_eq!(donate(&mut other, 2, 1, 5), Ok(()));
    assert_eq!(one.load_campaign(1).unwrap().amount_donated, 8);
    assert_eq!(other.load_campaign(1).unwrap().amount_donated, 8);
    assert_eq!(one.campaign_balance(1), other.campaign_balance(1));
    assert_eq!(one.wallet_balance(2), other.wallet_balance(2));
    assert_eq!(one.wallet_balance(3), other.wallet_balance(3));
}

#[test]
fn donation_needs_existing_campaign() {
    let mut l = Ledger::new();
    l.credit_wallet(2, 10 * BASE_UNITS_PER_UNIT);
    assert_eq!(donate(&mut l, 2, 1, 3), Err(OpError::CampaignNotFound));
    assert_eq!(l.wallet_balance(2), 10 * BASE_UNITS_PER_UNIT);
}

#[test]
fn donation_needs_donor_funds() {
    let mut l = Ledger::new();
    assert_eq!(create(&mut l, 1, b"x", b"", 10), Ok(()));
    l.credit_wallet(2, 3 * BASE_UNITS_PER_UNIT);
    assert_eq!(donate(&mut l, 2, 1, 4), Err(OpError::InsufficientDonorBalance));
    assert_eq!(donate(&mut l, 9, 1, 1), Err(OpError::InsufficientDonorBalance));
    assert_eq!(l.load_campaign(1).unwrap().amount_donated, 0);
    assert_eq!(l.campaign_balance(1), Some(0));
    assert_eq!(l.wallet_balance(2), 3 * BASE_UNITS_PER_UNIT);
    assert_eq!(donate(&mut l, 2, 1, 3), Ok(()));
    assert_eq!(l.wallet_balance(2), 0);
}

#[test]
fn withdrawal_strictly_below_balance() {
    let mut l = Ledger::new();
    assert_eq!(create(&mut l, 1, b"x", b"", 10), Ok(()));
    l.credit_wallet(2, 10 * BASE_UNITS_PER_UNIT);
    assert_eq!(donate(&mut l, 2, 1, 5), Ok(()));
    assert_eq!(
        withdraw(&mut l, 1, 6),
        Err(OpError::CrowdFund(CrowdFundError::InsufficientCampaignBalance))
    );
    assert_eq!(
        withdraw(&mut l, 1, 5),
        Err(OpError::CrowdFund(CrowdFundError::InsufficientCampaignBalance))
    );
    assert_eq!(l.load_campaign(1).unwrap().amount_withdrawn, 0);
    assert_eq!(withdraw(&mut l, 1, 4), Ok(()));
    assert_eq!(l.load_campaign(1).unwrap().amount_withdrawn, 4);
    assert_eq!(l.campaign_balance(1), Some(BASE_UNITS_PER_UNIT));
    assert_eq!(l.wallet_balance(1), 4 * BASE_UNITS_PER_UNIT);
}

#[test]
fn withdrawal_by_other_identity_fails() {
    let mut l = Ledger::new();
    assert_eq!(create(&mut l, 1, b"x", b"", 10), Ok(()));
    l.credit_wallet(2, 10 * BASE_UNITS_PER_UNIT);
    assert_eq!(donate(&mut l, 2, 1, 5), Ok(()));
    // Identity 9 has no campaign: its derived address holds no account.
    assert_eq!(withdraw(&mut l, 9, 1), Err(OpError::CampaignNotFound));
    assert_eq!(l.campaign_balance(1), Some(5 * BASE_UNITS_PER_UNIT));
    assert_eq!(l.wallet_balance(9), 0);
}

#[test]
fn withdrawal_reaches_only_own_campaign() {
    let mut l = Ledger::new();
    assert_eq!(create(&mut l, 1, b"rich", b"", 10), Ok(()));
    assert_eq!(create(&mut l, 9, b"poor", b"", 10), Ok(()));
    l.credit_wallet(2, 10 * BASE_UNITS_PER_UNIT);
    assert_eq!(donate(&mut l, 2, 1, 5), Ok(()));
    // Identity 9 signs a withdrawal; only its own empty campaign is reached.
    assert_eq!(
        withdraw(&mut l, 9, 1),
        Err(OpError::CrowdFund(CrowdFundError::InsufficientCampaignBalance))
    );
    assert_eq!(l.campaign_balance(1), Some(5 * BASE_UNITS_PER_UNIT));
    assert_eq!(l.load_campaign(1).unwrap().amount_withdrawn, 0);
}

#[test]
fn close_sweeps_and_frees_address() {
    let mut l = Ledger::new();
    assert_eq!(create(&mut l, 1, b"x", b"", 10), Ok(()));
    l.credit_wallet(2, 10 * BASE_UNITS_PER_UNIT);
    assert_eq!(donate(&mut l, 2, 1, 5), Ok(()));
    assert_eq!(close(&mut l, 1), Ok(()));
    assert!(l.load_campaign(1).is_none());
    assert_eq!(l.campaign_balance(1), None);
    assert_eq!(l.wallet_balance(1), 5 * BASE_UNITS_PER_UNIT);
    // The address is free again: a fresh creation succeeds, zeroed.
    assert_eq!(create(&mut l, 1, b"again", b"", 20), Ok(()));
    let c = l.load_campaign(1).unwrap();
    assert_eq!(c.amount_donated, 0);
    assert_eq!(c.amount_withdrawn, 0);
    assert_eq!(l.campaign_balance(1), Some(0));
}

#[test]
fn close_by_other_identity_fails() {
    let mut l = Ledger::new();
    assert_eq!(create(&mut l, 1, b"x", b"", 10), Ok(()));
    assert_eq!(close(&mut l, 9), Err(OpError::CampaignNotFound));
    assert!(l.load_campaign(1).is_some());
}

#[test]
fn carried_balance_is_not_the_counters() {
    let mut l = Ledger::new();
    assert_eq!(create(&mut l, 1, b"x", b"", 10), Ok(()));
    // Value arrives outside the engine: counters stay at zero.
    assert_eq!(l.credit_campaign(1, 2 * BASE_UNITS_PER_UNIT), Ok(()));
    assert_eq!(l.load_campaign(1).unwrap().amount_donated, 0);
    assert_eq!(l.campaign_balance(1), Some(2 * BASE_UNITS_PER_UNIT));
    // The withdrawal check reads the carried balance, not the counters.
    assert_eq!(withdraw(&mut l, 1, 1), Ok(()));
    assert_eq!(l.load_campaign(1).unwrap().amount_withdrawn, 1);
    assert_eq!(l.campaign_balance(1), Some(BASE_UNITS_PER_UNIT));
    assert_eq!(l.credit_campaign(9, 1), Err(OpError::CampaignNotFound));
}

#[test]
fn end_to_end_lifecycle() {
    let mut l = Ledger::new();
    assert_eq!(create(&mut l, 10, b"X", b"", 100), Ok(()));
    l.credit_wallet(20, 10 * BASE_UNITS_PER_UNIT);
    l.credit_wallet(30, 5 * BASE_UNITS_PER_UNIT);
    assert_eq!(donate(&mut l, 20, 10, 10), Ok(()));
    assert_eq!(donate(&mut l, 30, 10, 5), Ok(()));
    assert_eq!(l.campaign_balance(10), Some(15 * BASE_UNITS_PER_UNIT));
    // 15 > 12: the withdrawal goes through.
    assert_eq!(withdraw(&mut l, 10, 12), Ok(()));
    // 3 is not strictly greater than 3: rejected.
    assert_eq!(
        withdraw(&mut l, 10, 3),
        Err(OpError::CrowdFund(CrowdFundError::InsufficientCampaignBalance))
    );
    let before = l.wallet_balance(10);
    assert_eq!(close(&mut l, 10), Ok(()));
    assert_eq!(l.wallet_balance(10), before + 3 * BASE_UNITS_PER_UNIT);
    assert!(l.load_campaign(10).is_none());
}
