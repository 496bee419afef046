//! The account store and the campaign ledger engine.
//!
//! The store keeps two tables: wallet accounts, keyed by the owner's
//! identity, and campaign accounts, keyed by the authority that the campaign
//! address derives from. An address derivation of the runtime maps each
//! authority to one campaign address, so keying the table by the authority
//! models exactly one campaign per authority.

use vstd::prelude::*;

use crate::campaign::Campaign;
use crate::campaign::BASE_UNITS_PER_UNIT;
use crate::campaign::MAX_CAMPAIGN_DESCR;
use crate::campaign::MAX_CAMPAIGN_NAME;
use crate::errors::CrowdFundError;
use crate::errors::OpError;

verus! {

/// One wallet account: an identity and the balance it carries, in base units.
#[derive(Clone, Copy)]
pub struct WalletEntry {
    /// The identity that owns the wallet.
    pub id: u64,
    /// The wallet's balance in base units.
    pub base_units: u64,
}

/// One campaign account: the persisted record and the carried balance of the
/// account that holds it, in base units.
pub struct CampaignEntry {
    /// The account's carried balance in base units.
    pub base_units: u64,
    /// The campaign record stored in the account.
    pub record: Campaign,
}

/// There is a wallet for `id` in `s`.
pub open spec fn has_wallet(s: Seq<WalletEntry>, id: u64) -> bool {
    exists|i: int| 0 <= i < s.len() && (#[trigger] s[i]).id == id
}

/// The position of `id`'s wallet in `s`.
pub open spec fn wallet_index(s: Seq<WalletEntry>, id: u64) -> int {
    choose|i: int| 0 <= i < s.len() && (#[trigger] s[i]).id == id
}

/// The balance `id` carries: every identity owns a wallet, one absent from
/// the table carries zero.
pub open spec fn wallet_bal(s: Seq<WalletEntry>, id: u64) -> u64 {
    if has_wallet(s, id) {
        s[wallet_index(s, id)].base_units
    } else {
        0
    }
}

/// No two wallets share an identity.
pub open spec fn unique_wallets(s: Seq<WalletEntry>) -> bool {
    forall|i: int, j: int|
        0 <= i < j < s.len() ==> (#[trigger] s[i]).id != (#[trigger] s[j]).id
}

/// There is a campaign whose address derives from `authority` in `s`.
pub open spec fn has_campaign(s: Seq<CampaignEntry>, authority: u64) -> bool {
    exists|i: int| 0 <= i < s.len() && (#[trigger] s[i]).record.update_authority == authority
}

/// The position of `authority`'s campaign in `s`.
pub open spec fn campaign_index(s: Seq<CampaignEntry>, authority: u64) -> int {
    choose|i: int| 0 <= i < s.len() && (#[trigger] s[i]).record.update_authority == authority
}

/// The campaign account stored for `authority`.
pub open spec fn campaign_entry(s: Seq<CampaignEntry>, authority: u64) -> CampaignEntry {
    s[campaign_index(s, authority)]
}

/// No two campaigns share an authority: each authority derives one address.
pub open spec fn unique_campaigns(s: Seq<CampaignEntry>) -> bool {
    forall|i: int, j: int|
        0 <= i < j < s.len() ==> (#[trigger] s[i]).record.update_authority != (
        #[trigger] s[j]).record.update_authority
}

/// An index that holds `id` is the one wallet the observers read.
pub proof fn lemma_wallet_at(s: Seq<WalletEntry>, id: u64, i: int)
    requires
        unique_wallets(s),
        0 <= i < s.len(),
        s[i].id == id,
    ensures
        has_wallet(s, id),
        wallet_index(s, id) == i,
        wallet_bal(s, id) == s[i].base_units,
{
    assert(has_wallet(s, id));
    let j = wallet_index(s, id);
    if i < j {
        assert(s[i].id != s[j].id);
    } else if j < i {
        assert(s[j].id != s[i].id);
    }
}

/// An index that holds `authority` is the one campaign the observers read.
pub proof fn lemma_campaign_at(s: Seq<CampaignEntry>, authority: u64, i: int)
    requires
        unique_campaigns(s),
        0 <= i < s.len(),
        s[i].record.update_authority == authority,
    ensures
        has_campaign(s, authority),
        campaign_index(s, authority) == i,
        campaign_entry(s, authority) == s[i],
{
    assert(has_campaign(s, authority));
    let j = campaign_index(s, authority);
    if i < j {
        assert(s[i].record.update_authority != s[j].record.update_authority);
    } else if j < i {
        assert(s[j].record.update_authority != s[i].record.update_authority);
    }
}

/// The accounts a creation names: the signer becomes the new campaign's
/// update authority and funds the account.
#[derive(Clone, Copy)]
pub struct CreateCampaign {
    /// The signer creating the campaign; stored as its update authority.
    pub update_authority: u64,
}

/// The accounts a donation names: any signer may donate to any campaign.
#[derive(Clone, Copy)]
pub struct DonateToCampaign {
    /// The authority whose derived address names the campaign donated to.
    pub campaign_authority: u64,
    /// The donor: the signer whose wallet the donation is debited from.
    pub signer: u64,
}

/// The accounts a withdrawal names: the signer's identity seeds the address
/// derivation, so the withdrawal can only reach the signer's own campaign.
#[derive(Clone, Copy)]
pub struct WithdrawFromCampaign {
    /// The signer withdrawing; only its own campaign's address derives from it.
    pub update_authority: u64,
}

/// The accounts a closure names: as with a withdrawal, the signer's identity
/// seeds the derivation, so only the signer's own campaign can be closed.
#[derive(Clone, Copy)]
pub struct CloseCampaign {
    /// The signer closing its campaign and receiving the residual balance.
    pub update_authority: u64,
}

/// Nothing observable moved: both tables read back unchanged.
pub open spec fn unchanged(pre: Ledger, post: Ledger) -> bool {
    post.wallets@ == pre.wallets@ && post.campaigns@ == pre.campaigns@
}

/// Every wallet but `id`'s reads back unchanged, and `id`'s balance moved by
/// exactly `delta` base units.
pub open spec fn wallets_shifted(pre: Ledger, post: Ledger, id: u64, delta: int) -> bool {
    &&& wallet_bal(post.wallets@, id) == wallet_bal(pre.wallets@, id) + delta
    &&& forall|o: u64|
        o != id ==> (#[trigger] wallet_bal(post.wallets@, o)) == wallet_bal(pre.wallets@, o)
}

/// Every campaign but `authority`'s reads back unchanged: operations on one
/// address leave every other address alone.
pub open spec fn campaigns_framed(pre: Ledger, post: Ledger, authority: u64) -> bool {
    forall|o: u64|
        o != authority ==> ((#[trigger] has_campaign(post.campaigns@, o)) <==> has_campaign(
            pre.campaigns@,
            o,
        )) && (has_campaign(pre.campaigns@, o) ==> campaign_entry(post.campaigns@, o)
            == campaign_entry(pre.campaigns@, o))
}

/// What a successful creation did: a fresh account at `authority`'s derived
/// address, the record echoing the inputs with both counters at zero, a
/// carried balance of zero, and nothing else moved.
pub open spec fn create_post(
    pre: Ledger,
    post: Ledger,
    authority: u64,
    name: Seq<u8>,
    description: Seq<u8>,
    target_amount: u64,
) -> bool {
    let e = post.campaign(authority);
    &&& !pre.holds_campaign(authority)
    &&& post.holds_campaign(authority)
    &&& e.base_units == 0
    &&& e.record.update_authority == authority
    &&& e.record.name@ == name
    &&& e.record.description@ == description
    &&& e.record.target_amount == target_amount
    &&& e.record.amount_donated == 0
    &&& e.record.amount_withdrawn == 0
    &&& campaigns_framed(pre, post, authority)
    &&& post.wallets@ == pre.wallets@
}

/// What a successful donation did: the campaign's carried balance grew by the
/// scaled amount, its donated counter by the unscaled amount, the donor's
/// wallet shrank by the scaled amount, and everything else held still.
pub open spec fn donate_post(
    pre: Ledger,
    post: Ledger,
    donor: u64,
    campaign_authority: u64,
    amount: u64,
) -> bool {
    let scaled = amount * BASE_UNITS_PER_UNIT;
    let e0 = pre.campaign(campaign_authority);
    let e1 = post.campaign(campaign_authority);
    &&& pre.holds_campaign(campaign_authority)
    &&& post.holds_campaign(campaign_authority)
    &&& e1.base_units == e0.base_units + scaled
    &&& e1.record.amount_donated == e0.record.amount_donated + amount
    &&& e1.record.amount_withdrawn == e0.record.amount_withdrawn
    &&& e1.record.update_authority == e0.record.update_authority
    &&& e1.record.name == e0.record.name
    &&& e1.record.description == e0.record.description
    &&& e1.record.target_amount == e0.record.target_amount
    &&& campaigns_framed(pre, post, campaign_authority)
    &&& wallets_shifted(pre, post, donor, -(scaled as int))
}

/// What a successful withdrawal did: the campaign's carried balance shrank by
/// the scaled amount, its withdrawn counter grew by the unscaled amount, the
/// authority's wallet grew by the scaled amount, and everything else held
/// still.
pub open spec fn withdraw_post(pre: Ledger, post: Ledger, authority: u64, amount: u64) -> bool {
    let scaled = amount * BASE_UNITS_PER_UNIT;
    let e0 = pre.campaign(authority);
    let e1 = post.campaign(authority);
    &&& pre.holds_campaign(authority)
    &&& post.holds_campaign(authority)
    &&& e0.base_units > scaled
    &&& e1.base_units == e0.base_units - scaled
    &&& e1.record.amount_withdrawn == e0.record.amount_withdrawn + amount
    &&& e1.record.amount_donated == e0.record.amount_donated
    &&& e1.record.update_authority == e0.record.update_authority
    &&& e1.record.name == e0.record.name
    &&& e1.record.description == e0.record.description
    &&& e1.record.target_amount == e0.record.target_amount
    &&& campaigns_framed(pre, post, authority)
    &&& wallets_shifted(pre, post, authority, scaled as int)
}

/// What a successful closure did: the account at `authority`'s derived
/// address is gone, its whole carried balance moved to `authority`'s wallet,
/// and everything else held still.
pub open spec fn close_post(pre: Ledger, post: Ledger, authority: u64) -> bool {
    &&& pre.holds_campaign(authority)
    &&& !post.holds_campaign(authority)
    &&& campaigns_framed(pre, post, authority)
    &&& wallets_shifted(pre, post, authority, pre.campaign(authority).base_units as int)
}

/// What a successful external credit did: the campaign's carried balance grew
/// by `base_units` while the record — counters included — held still, as did
/// everything else. This is how rent and direct transfers reach an account
/// without going through the engine's bookkeeping.
pub open spec fn credit_campaign_post(
    pre: Ledger,
    post: Ledger,
    authority: u64,
    base_units: u64,
) -> bool {
    let e0 = pre.campaign(authority);
    let e1 = post.campaign(authority);
    &&& pre.holds_campaign(authority)
    &&& post.holds_campaign(authority)
    &&& e1.base_units == e0.base_units + base_units
    &&& e1.record == e0.record
    &&& campaigns_framed(pre, post, authority)
    &&& post.wallets@ == pre.wallets@
}

/// Replacing one wallet in place, keeping its identity, moves that wallet's
/// balance alone and keeps the table uniquely keyed.
pub proof fn lemma_wallet_update_frame(s0: Seq<WalletEntry>, s1: Seq<WalletEntry>, i: int, id: u64)
    requires
        unique_wallets(s0),
        0 <= i < s0.len(),
        s0[i].id == id,
        s1.len() == s0.len(),
        s1[i].id == id,
        forall|k: int| 0 <= k < s0.len() && k != i ==> s1[k] == s0[k],
    ensures
        unique_wallets(s1),
        wallet_bal(s0, id) == s0[i].base_units,
        wallet_bal(s1, id) == s1[i].base_units,
        forall|o: u64| o != id ==> (#[trigger] wallet_bal(s1, o)) == wallet_bal(s0, o),
{
    assert forall|p: int, q: int| 0 <= p < q < s1.len() implies (#[trigger] s1[p]).id != (
    #[trigger] s1[q]).id by {
        assert(s1[p].id == s0[p].id && s1[q].id == s0[q].id);
    }
    lemma_wallet_at(s0, id, i);
    lemma_wallet_at(s1, id, i);
    assert forall|o: u64| o != id implies (#[trigger] wallet_bal(s1, o)) == wallet_bal(s0, o) by {
        if has_wallet(s0, o) {
            let k = wallet_index(s0, o);
            lemma_wallet_at(s1, o, k);
        } else if has_wallet(s1, o) {
            let k = wallet_index(s1, o);
            lemma_wallet_at(s0, o, k);
        }
    }
}

/// Replacing one campaign in place, keeping its authority, moves that
/// campaign alone and keeps the table uniquely keyed.
pub proof fn lemma_campaign_update_frame(
    s0: Seq<CampaignEntry>,
    s1: Seq<CampaignEntry>,
    i: int,
    authority: u64,
)
    requires
        unique_campaigns(s0),
        0 <= i < s0.len(),
        s0[i].record.update_authority == authority,
        s1.len() == s0.len(),
        s1[i].record.update_authority == authority,
        forall|k: int| 0 <= k < s0.len() && k != i ==> s1[k] == s0[k],
    ensures
        unique_campaigns(s1),
        has_campaign(s1, authority),
        campaign_entry(s0, authority) == s0[i],
        campaign_entry(s1, authority) == s1[i],
        forall|o: u64|
            o != authority ==> ((#[trigger] has_campaign(s1, o)) <==> has_campaign(s0, o)) && (
            has_campaign(s0, o) ==> campaign_entry(s1, o) == campaign_entry(s0, o)),
{
    assert forall|p: int, q: int| 0 <= p < q < s1.len() implies (#[trigger] s1[p]).record.update_authority
        != (#[trigger] s1[q]).record.update_authority by {
        assert(s1[p].record.update_authority == s0[p].record.update_authority);
        assert(s1[q].record.update_authority == s0[q].record.update_authority);
    }
    lemma_campaign_at(s0, authority, i);
    lemma_campaign_at(s1, authority, i);
    assert forall|o: u64|
        o != authority implies ((#[trigger] has_campaign(s1, o)) <==> has_campaign(s0, o)) && (
        has_campaign(s0, o) ==> campaign_entry(s1, o) == campaign_entry(s0, o)) by {
        if has_campaign(s0, o) {
            let k = campaign_index(s0, o);
            lemma_campaign_at(s1, o, k);
        } else if has_campaign(s1, o) {
            let k = campaign_index(s1, o);
            lemma_campaign_at(s0, o, k);
        }
    }
}

/// The account store with the campaign engine on top of it.
pub struct Ledger {
    /// The wallet accounts, each identity at most once.
    pub wallets: Vec<WalletEntry>,
    /// The campaign accounts, each authority at most once.
    pub campaigns: Vec<CampaignEntry>,
}

impl Ledger {
    /// The store's invariant: both tables keyed uniquely, and every stored
    /// record within the byte bounds.
    pub open spec fn wf(self) -> bool {
        &&& unique_wallets(self.wallets@)
        &&& unique_campaigns(self.campaigns@)
        &&& forall|i: int|
            0 <= i < self.campaigns@.len() ==> (#[trigger] self.campaigns@[i]).record.wf()
    }

    /// A campaign exists at the address `authority` derives.
    pub open spec fn holds_campaign(self, authority: u64) -> bool {
        has_campaign(self.campaigns@, authority)
    }

    /// The campaign account stored for `authority`.
    pub open spec fn campaign(self, authority: u64) -> CampaignEntry {
        campaign_entry(self.campaigns@, authority)
    }

    /// The balance `id`'s wallet carries, in base units.
    pub open spec fn balance(self, id: u64) -> u64 {
        wallet_bal(self.wallets@, id)
    }

    /// An empty store: no campaigns, every wallet at zero.
    pub fn new() -> (r: Ledger)
        ensures
            r.wf(),
            r.wallets@.len() == 0,
            r.campaigns@.len() == 0,
            forall|a: u64| !r.holds_campaign(a),
            forall|id: u64| r.balance(id) == 0,
    {
        Ledger { wallets: Vec::new(), campaigns: Vec::new() }
    }

    /// Where `id`'s wallet sits in the table, if it sits anywhere.
    fn find_wallet(&self, id: u64) -> (r: Option<usize>)
        ensures
            match r {
                Some(i) => i < self.wallets@.len() && self.wallets@[i as int].id == id,
                None => !has_wallet(self.wallets@, id),
            },
    {
        let mut i: usize = 0;
        while i < self.wallets.len()
            invariant
                i <= self.wallets@.len(),
                forall|j: int| 0 <= j < i ==> (#[trigger] self.wallets@[j]).id != id,
            decreases self.wallets@.len() - i,
        {
            if self.wallets[i].id == id {
                return Some(i);
            }
            i += 1;
        }
        None
    }

    /// Where `authority`'s campaign sits in the table, if it sits anywhere.
    fn find_campaign(&self, authority: u64) -> (r: Option<usize>)
        ensures
            match r {
                Some(i) => i < self.campaigns@.len() && self.campaigns@[
                    i as int
                ].record.update_authority == authority,
                None => !has_campaign(self.campaigns@, authority),
            },
    {
        let mut i: usize = 0;
        while i < self.campaigns.len()
            invariant
                i <= self.campaigns@.len(),
                forall|j: int|
                    0 <= j < i ==> (#[trigger] self.campaigns@[j]).record.update_authority
                        != authority,
            decreases self.campaigns@.len() - i,
        {
            if self.campaigns[i].record.update_authority == authority {
                return Some(i);
            }
            i += 1;
        }
        None
    }

    /// Creates a campaign at the address `ctx.update_authority` derives.
    ///
    /// The store rejects a second account at the same address; the engine
    /// rejects a name or description over its byte limit. On success the
    /// fresh record echoes the inputs with both counters at zero, carried by
    /// an account holding zero base units.
    pub fn create_campaign(
        &mut self,
        ctx: CreateCampaign,
        name: Vec<u8>,
        description: Vec<u8>,
        target_amount: u64,
    ) -> (r: Result<(), OpError>)
        requires
            old(self).wf(),
        ensures
            final(self).wf(),
            old(self).holds_campaign(ctx.update_authority) ==> r == Err::<(), OpError>(
                OpError::CrowdFund(CrowdFundError::CampaignAlreadyExists),
            ) && unchanged(*old(self), *final(self)),
            !old(self).holds_campaign(ctx.update_authority) && name@.len() > MAX_CAMPAIGN_NAME
                ==> r == Err::<(), OpError>(OpError::CrowdFund(CrowdFundError::CampaignNameTooLong))
                && unchanged(*old(self), *final(self)),
            !old(self).holds_campaign(ctx.update_authority) && name@.len() <= MAX_CAMPAIGN_NAME
                && description@.len() > MAX_CAMPAIGN_DESCR ==> r == Err::<(), OpError>(
                OpError::CrowdFund(CrowdFundError::CampaignDescrTooLong),
            ) && unchanged(*old(self), *final(self)),
            !old(self).holds_campaign(ctx.update_authority) && name@.len() <= MAX_CAMPAIGN_NAME
                && description@.len() <= MAX_CAMPAIGN_DESCR ==> r == Ok::<(), OpError>(())
                && create_post(
                *old(self),
                *final(self),
                ctx.update_authority,
                name@,
                description@,
                target_amount,
            ),
    {
        let authority = ctx.update_authority;
        if self.find_campaign(authority).is_some() {
            return Err(OpError::CrowdFund(CrowdFundError::CampaignAlreadyExists));
        }
        if name.len() > MAX_CAMPAIGN_NAME {
            return Err(OpError::CrowdFund(CrowdFundError::CampaignNameTooLong));
        }
        if description.len() > MAX_CAMPAIGN_DESCR {
            return Err(OpError::CrowdFund(CrowdFundError::CampaignDescrTooLong));
        }
        let ghost pre = *self;
        let record = Campaign {
            update_authority: authority,
            name,
            description,
            target_amount,
            amount_donated: 0,
            amount_withdrawn: 0,
        };
        self.campaigns.push(CampaignEntry { base_units: 0, record });
        proof {
            let s0 = pre.campaigns@;
            let s1 = self.campaigns@;
            assert(s1 == s0.push(s1.last()));
            assert forall|i: int, j: int| 0 <= i < j < s1.len() implies (#[trigger] s1[i]).record.update_authority
                != (#[trigger] s1[j]).record.update_authority by {
                if j < s0.len() {
                    assert(s1[i] == s0[i] && s1[j] == s0[j]);
                } else {
                    assert(s1[j].record.update_authority == authority);
                    assert(s1[i] == s0[i]);
                    if s0[i].record.update_authority == authority {
                        lemma_campaign_at(s0, authority, i);
                    }
                }
            }
            lemma_campaign_at(s1, authority, s0.len() as int);
            assert forall|o: u64|
                o != authority implies ((#[trigger] has_campaign(s1, o)) <==> has_campaign(s0, o))
                && (has_campaign(s0, o) ==> campaign_entry(s1, o) == campaign_entry(s0, o)) by {
                if has_campaign(s0, o) {
                    let i = campaign_index(s0, o);
                    lemma_campaign_at(s1, o, i);
                } else if has_campaign(s1, o) {
                    let i = campaign_index(s1, o);
                    assert(s1[i] == s0[i]);
                    lemma_campaign_at(s0, o, i);
                }
            }
        }
        Ok(())
    }

    /// Donates `amount` coarse units from `ctx.signer` to the campaign at the
    /// address `ctx.campaign_authority` derives.
    ///
    /// Any signer may donate. The transfer primitive moves the scaled amount
    /// from the donor's wallet to the campaign account, all or nothing; only
    /// then does the donated counter grow by the unscaled amount.
    pub fn donate_to_campaign(&mut self, ctx: DonateToCampaign, amount: u64) -> (r: Result<
        (),
        OpError,
    >)
        requires
            old(self).wf(),
            old(self).holds_campaign(ctx.campaign_authority) && amount > 0 ==> amount
                * BASE_UNITS_PER_UNIT <= u64::MAX,
            old(self).holds_campaign(ctx.campaign_authority) && amount > 0 && old(self).balance(
                ctx.signer,
            ) >= amount * BASE_UNITS_PER_UNIT ==> old(self).campaign(
                ctx.campaign_authority,
            ).record.amount_donated + amount <= u64::MAX && old(self).campaign(
                ctx.campaign_authority,
            ).base_units + amount * BASE_UNITS_PER_UNIT <= u64::MAX,
        ensures
            final(self).wf(),
            !old(self).holds_campaign(ctx.campaign_authority) ==> r == Err::<(), OpError>(
                OpError::CampaignNotFound,
            ) && unchanged(*old(self), *final(self)),
            old(self).holds_campaign(ctx.campaign_authority) && amount == 0 ==> r == Err::<
                (),
                OpError,
            >(OpError::CrowdFund(CrowdFundError::InvalidAmount)) && unchanged(
                *old(self),
                *final(self),
            ),
            old(self).holds_campaign(ctx.campaign_authority) && amount > 0 && old(self).balance(
                ctx.signer,
            ) < amount * BASE_UNITS_PER_UNIT ==> r == Err::<(), OpError>(
                OpError::InsufficientDonorBalance,
            ) && unchanged(*old(self), *final(self)),
            old(self).holds_campaign(ctx.campaign_authority) && amount > 0 && old(self).balance(
                ctx.signer,
            ) >= amount * BASE_UNITS_PER_UNIT ==> r == Ok::<(), OpError>(()) && donate_post(
                *old(self),
                *final(self),
                ctx.signer,
                ctx.campaign_authority,
                amount,
            ),
    {
        let authority = ctx.campaign_authority;
        let donor = ctx.signer;
        let cidx = match self.find_campaign(authority) {
            None => {
                return Err(OpError::CampaignNotFound);
            },
            Some(i) => i,
        };
        proof {
            lemma_campaign_at(self.campaigns@, authority, cidx as int);
        }
        if amount == 0 {
            return Err(OpError::CrowdFund(CrowdFundError::InvalidAmount));
        }
        let scaled = amount * BASE_UNITS_PER_UNIT;
        let widx = match self.find_wallet(donor) {
            None => {
                return Err(OpError::InsufficientDonorBalance);
            },
            Some(i) => i,
        };
        proof {
            lemma_wallet_at(self.wallets@, donor, widx as int);
        }
        let donor_balance = self.wallets[widx].base_units;
        if donor_balance < scaled {
            return Err(OpError::InsufficientDonorBalance);
        }
        let ghost pre = *self;
        let mut w = self.wallets[widx];
        w.base_units = donor_balance - scaled;
        self.wallets[widx] = w;
        let carried = self.campaigns[cidx].base_units;
        let donated = self.campaigns[cidx].record.amount_donated;
        self.campaigns[cidx].base_units = carried + scaled;
        self.campaigns[cidx].record.amount_donated = donated + amount;
        proof {
            lemma_wallet_update_frame(pre.wallets@, self.wallets@, widx as int, donor);
            lemma_campaign_update_frame(pre.campaigns@, self.campaigns@, cidx as int, authority);
        }
        Ok(())
    }

    /// Credits `id`'s wallet with `base_units`, creating the wallet when the
    /// table has none. Withdrawals and closures pay the authority through
    /// this, and it is how value first reaches a donor's wallet from outside
    /// the engine.
    pub fn credit_wallet(&mut self, id: u64, base_units: u64)
        requires
            old(self).wf(),
            old(self).balance(id) + base_units <= u64::MAX,
        ensures
            final(self).wf(),
            wallets_shifted(*old(self), *final(self), id, base_units as int),
            final(self).campaigns@ == old(self).campaigns@,
    {
        let ghost pre = *self;
        match self.find_wallet(id) {
            Some(i) => {
                proof {
                    lemma_wallet_at(self.wallets@, id, i as int);
                }
                let mut w = self.wallets[i];
                w.base_units = w.base_units + base_units;
                self.wallets[i] = w;
                proof {
                    lemma_wallet_update_frame(pre.wallets@, self.wallets@, i as int, id);
                }
            },
            None => {
                self.wallets.push(WalletEntry { id, base_units });
                proof {
                    let s0 = pre.wallets@;
                    let s1 = self.wallets@;
                    assert forall|p: int, q: int| 0 <= p < q < s1.len() implies (#[trigger] s1[p]).id
                        != (#[trigger] s1[q]).id by {
                        if q < s0.len() {
                            assert(s1[p] == s0[p] && s1[q] == s0[q]);
                        } else {
                            assert(s1[q].id == id);
                            assert(s1[p] == s0[p]);
                            if s0[p].id == id {
                                assert(has_wallet(s0, id));
                            }
                        }
                    }
                    lemma_wallet_at(s1, id, s0.len() as int);
                    assert forall|o: u64| o != id implies (#[trigger] wallet_bal(s1, o))
                        == wallet_bal(s0, o) by {
                        if has_wallet(s0, o) {
                            let k = wallet_index(s0, o);
                            lemma_wallet_at(s1, o, k);
                        } else if has_wallet(s1, o) {
                            let k = wallet_index(s1, o);
                            assert(s1[k] == s0[k]);
                            lemma_wallet_at(s0, o, k);
                        }
                    }
                }
            },
        }
    }

    /// Withdraws `amount` coarse units from the signer's own campaign.
    ///
    /// Only the address derived from `ctx.update_authority` is consulted, so
    /// no other identity's campaign can be reached. The carried balance must
    /// strictly exceed the scaled amount — a withdrawal that would drain the
    /// account to exactly zero is rejected by design. On success the scaled
    /// amount moves to the signer's wallet and the withdrawn counter grows by
    /// the unscaled amount.
    pub fn withdraw_from_campaign(&mut self, ctx: WithdrawFromCampaign, amount: u64) -> (r: Result<
        (),
        OpError,
    >)
        requires
            old(self).wf(),
            old(self).holds_campaign(ctx.update_authority) && amount > 0 ==> amount
                * BASE_UNITS_PER_UNIT <= u64::MAX,
            old(self).holds_campaign(ctx.update_authority) && amount > 0 && old(self).campaign(
                ctx.update_authority,
            ).base_units > amount * BASE_UNITS_PER_UNIT ==> old(self).campaign(
                ctx.update_authority,
            ).record.amount_withdrawn + amount <= u64::MAX && old(self).balance(
                ctx.update_authority,
            ) + amount * BASE_UNITS_PER_UNIT <= u64::MAX,
        ensures
            final(self).wf(),
            !old(self).holds_campaign(ctx.update_authority) ==> r == Err::<(), OpError>(
                OpError::CampaignNotFound,
            ) && unchanged(*old(self), *final(self)),
            old(self).holds_campaign(ctx.update_authority) && amount == 0 ==> r == Err::<
                (),
                OpError,
            >(OpError::CrowdFund(CrowdFundError::InvalidAmount)) && unchanged(
                *old(self),
                *final(self),
            ),
            old(self).holds_campaign(ctx.update_authority) && amount > 0 && old(self).campaign(
                ctx.update_authority,
            ).base_units <= amount * BASE_UNITS_PER_UNIT ==> r == Err::<(), OpError>(
                OpError::CrowdFund(CrowdFundError::InsufficientCampaignBalance),
            ) && unchanged(*old(self), *final(self)),
            old(self).holds_campaign(ctx.update_authority) && amount > 0 && old(self).campaign(
                ctx.update_authority,
            ).base_units > amount * BASE_UNITS_PER_UNIT ==> r == Ok::<(), OpError>(())
                && withdraw_post(*old(self), *final(self), ctx.update_authority, amount),
    {
        let authority = ctx.update_authority;
        let cidx = match self.find_campaign(authority) {
            None => {
                return Err(OpError::CampaignNotFound);
            },
            Some(i) => i,
        };
        proof {
            lemma_campaign_at(self.campaigns@, authority, cidx as int);
        }
        if amount == 0 {
            return Err(OpError::CrowdFund(CrowdFundError::InvalidAmount));
        }
        let scaled = amount * BASE_UNITS_PER_UNIT;
        let carried = self.campaigns[cidx].base_units;
        if carried <= scaled {
            return Err(OpError::CrowdFund(CrowdFundError::InsufficientCampaignBalance));
        }
        let ghost pre = *self;
        let withdrawn = self.campaigns[cidx].record.amount_withdrawn;
        self.campaigns[cidx].base_units = carried - scaled;
        self.campaigns[cidx].record.amount_withdrawn = withdrawn + amount;
        proof {
            lemma_campaign_update_frame(pre.campaigns@, self.campaigns@, cidx as int, authority);
        }
        let ghost mid = *self;
        self.credit_wallet(authority, scaled);
        proof {
            assert(final(self).campaigns@ == mid.campaigns@);
        }
        Ok(())
    }

    /// Closes the signer's own campaign: the account at the derived address
    /// is removed and its entire carried balance is swept to the signer's
    /// wallet in one step. The address is free for a new creation afterwards.
    pub fn close_campaign(&mut self, ctx: CloseCampaign) -> (r: Result<(), OpError>)
        requires
            old(self).wf(),
            old(self).holds_campaign(ctx.update_authority) ==> old(self).balance(
                ctx.update_authority,
            ) + old(self).campaign(ctx.update_authority).base_units <= u64::MAX,
        ensures
            final(self).wf(),
            !old(self).holds_campaign(ctx.update_authority) ==> r == Err::<(), OpError>(
                OpError::CampaignNotFound,
            ) && unchanged(*old(self), *final(self)),
            old(self).holds_campaign(ctx.update_authority) ==> r == Ok::<(), OpError>(())
                && close_post(*old(self), *final(self), ctx.update_authority),
    {
        let authority = ctx.update_authority;
        let cidx = match self.find_campaign(authority) {
            None => {
                return Err(OpError::CampaignNotFound);
            },
            Some(i) => i,
        };
        proof {
            lemma_campaign_at(self.campaigns@, authority, cidx as int);
        }
        let ghost pre = *self;
        let entry = self.campaigns.remove(cidx);
        proof {
            let s0 = pre.campaigns@;
            let s1 = self.campaigns@;
            let i = cidx as int;
            assert forall|k: int| 0 <= k < s1.len() implies (#[trigger] s1[k])
                == if k < i { s0[k] } else { s0[k + 1] } by {}
            assert forall|p: int, q: int| 0 <= p < q < s1.len() implies (#[trigger] s1[p]).record.update_authority
                != (#[trigger] s1[q]).record.update_authority by {}
            assert forall|k: int| 0 <= k < s1.len() implies (#[trigger] s1[k]).record.update_authority
                != authority by {
                if k < i {
                    assert(s1[k] == s0[k]);
                    if s0[k].record.update_authority == authority {
                        lemma_campaign_at(s0, authority, k);
                    }
                } else {
                    assert(s1[k] == s0[k + 1]);
                    if s0[k + 1].record.update_authority == authority {
                        lemma_campaign_at(s0, authority, k + 1);
                    }
                }
            }
            assert(!has_campaign(s1, authority));
            assert forall|o: u64|
                o != authority implies ((#[trigger] has_campaign(s1, o)) <==> has_campaign(s0, o))
                && (has_campaign(s0, o) ==> campaign_entry(s1, o) == campaign_entry(s0, o)) by {
                if has_campaign(s0, o) {
                    let k = campaign_index(s0, o);
                    if k < i {
                        lemma_campaign_at(s1, o, k);
                    } else {
                        lemma_campaign_at(s1, o, k - 1);
                    }
                } else if has_campaign(s1, o) {
                    let k = campaign_index(s1, o);
                    if k < i {
                        lemma_campaign_at(s0, o, k);
                    } else {
                        lemma_campaign_at(s0, o, k + 1);
                    }
                }
            }
        }
        let ghost mid = *self;
        self.credit_wallet(authority, entry.base_units);
        proof {
            assert(final(self).campaigns@ == mid.campaigns@);
        }
        Ok(())
    }

    /// Credits a campaign account's carried balance from outside the engine,
    /// leaving the record and its counters alone. This models rent deposits
    /// and direct transfers to the account: the reason the carried balance is
    /// not derivable from the donated and withdrawn counters.
    pub fn credit_campaign(&mut self, authority: u64, base_units: u64) -> (r: Result<(), OpError>)
        requires
            old(self).wf(),
            old(self).holds_campaign(authority) ==> old(self).campaign(authority).base_units
                + base_units <= u64::MAX,
        ensures
            final(self).wf(),
            !old(self).holds_campaign(authority) ==> r == Err::<(), OpError>(
                OpError::CampaignNotFound,
            ) && unchanged(*old(self), *final(self)),
            old(self).holds_campaign(authority) ==> r == Ok::<(), OpError>(())
                && credit_campaign_post(*old(self), *final(self), authority, base_units),
    {
        let cidx = match self.find_campaign(authority) {
            None => {
                return Err(OpError::CampaignNotFound);
            },
            Some(i) => i,
        };
        proof {
            lemma_campaign_at(self.campaigns@, authority, cidx as int);
        }
        let ghost pre = *self;
        let carried = self.campaigns[cidx].base_units;
        self.campaigns[cidx].base_units = carried + base_units;
        proof {
            lemma_campaign_update_frame(pre.campaigns@, self.campaigns@, cidx as int, authority);
        }
        Ok(())
    }

    /// Loads the campaign record at the address `authority` derives, or
    /// nothing when no campaign is stored there.
    pub fn load_campaign(&self, authority: u64) -> (r: Option<&Campaign>)
        requires
            self.wf(),
        ensures
            match r {
                Some(c) => self.holds_campaign(authority) && *c == self.campaign(authority).record,
                None => !self.holds_campaign(authority),
            },
    {
        match self.find_campaign(authority) {
            None => None,
            Some(i) => {
                proof {
                    lemma_campaign_at(self.campaigns@, authority, i as int);
                }
                Some(&self.campaigns[i].record)
            },
        }
    }

    /// The carried balance of the campaign account at `authority`'s derived
    /// address, in base units; nothing when no campaign is stored there.
    pub fn campaign_balance(&self, authority: u64) -> (r: Option<u64>)
        requires
            self.wf(),
        ensures
            match r {
                Some(b) => self.holds_campaign(authority) && b == self.campaign(
                    authority,
                ).base_units,
                None => !self.holds_campaign(authority),
            },
    {
        match self.find_campaign(authority) {
            None => None,
            Some(i) => {
                proof {
                    lemma_campaign_at(self.campaigns@, authority, i as int);
                }
                Some(self.campaigns[i].base_units)
            },
        }
    }

    /// The balance `id`'s wallet carries, in base units; zero for an
    /// identity the table has never seen.
    pub fn wallet_balance(&self, id: u64) -> (r: u64)
        requires
            self.wf(),
        ensures
            r == self.balance(id),
    {
        match self.find_wallet(id) {
            None => 0,
            Some(i) => {
                proof {
                    lemma_wallet_at(self.wallets@, id, i as int);
                }
                self.wallets[i].base_units
            },
        }
    }
}

} // verus!
