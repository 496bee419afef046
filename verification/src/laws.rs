//! Laws the engine obeys across calls, stated over the operations'
//! post-state relations and proved once for every input.

use vstd::prelude::*;

use crate::ledger::campaign_entry;
use crate::ledger::close_post;
use crate::ledger::create_post;
use crate::ledger::credit_campaign_post;
use crate::ledger::donate_post;
use crate::ledger::has_campaign;
use crate::ledger::unchanged;
use crate::ledger::wallet_bal;
use crate::ledger::wallets_shifted;
use crate::ledger::withdraw_post;
use crate::ledger::Ledger;

verus! {

/// Two donations to one campaign commute: whichever lands first, the store
/// reads back the same — every campaign account and every wallet balance —
/// so a sum of concurrent donations is independent of their interleaving.
pub proof fn lemma_donations_commute(
    s0: Ledger,
    s1: Ledger,
    s12: Ledger,
    s2: Ledger,
    s21: Ledger,
    d1: u64,
    d2: u64,
    ca: u64,
    a1: u64,
    a2: u64,
)
    requires
        donate_post(s0, s1, d1, ca, a1),
        donate_post(s1, s12, d2, ca, a2),
        donate_post(s0, s2, d2, ca, a2),
        donate_post(s2, s21, d1, ca, a1),
    ensures
        forall|o: u64|
            (#[trigger] has_campaign(s12.campaigns@, o)) <==> has_campaign(s21.campaigns@, o),
        forall|o: u64|
            has_campaign(s12.campaigns@, o) ==> (#[trigger] campaign_entry(s12.campaigns@, o))
                == campaign_entry(s21.campaigns@, o),
        forall|w: u64| (#[trigger] wallet_bal(s12.wallets@, w)) == wallet_bal(s21.wallets@, w),
{
    assert(campaign_entry(s12.campaigns@, ca).record == campaign_entry(
        s21.campaigns@,
        ca,
    ).record);
    assert(campaign_entry(s12.campaigns@, ca) == campaign_entry(s21.campaigns@, ca));
    assert forall|o: u64|
        (#[trigger] has_campaign(s12.campaigns@, o)) <==> has_campaign(s21.campaigns@, o) by {
        if o != ca {
            assert(has_campaign(s1.campaigns@, o) <==> has_campaign(s0.campaigns@, o));
            assert(has_campaign(s2.campaigns@, o) <==> has_campaign(s0.campaigns@, o));
        }
    }
    assert forall|o: u64|
        has_campaign(s12.campaigns@, o) implies (#[trigger] campaign_entry(s12.campaigns@, o))
        == campaign_entry(s21.campaigns@, o) by {
        if o != ca {
            assert(campaign_entry(s1.campaigns@, o) == campaign_entry(s0.campaigns@, o));
            assert(campaign_entry(s2.campaigns@, o) == campaign_entry(s0.campaigns@, o));
        }
    }
    assert forall|w: u64| (#[trigger] wallet_bal(s12.wallets@, w)) == wallet_bal(
        s21.wallets@,
        w,
    ) by {
        if w != d1 && w != d2 {
            assert(wallet_bal(s1.wallets@, w) == wallet_bal(s0.wallets@, w));
            assert(wallet_bal(s2.wallets@, w) == wallet_bal(s0.wallets@, w));
        }
    }
}

/// A withdrawal reaches only the signer's own campaign: every other
/// authority's campaign account and every other identity's wallet read back
/// unchanged, whether the call succeeded or was rejected.
pub proof fn lemma_withdraw_touches_only_own(
    pre: Ledger,
    post: Ledger,
    caller: u64,
    amount: u64,
    other: u64,
)
    requires
        withdraw_post(pre, post, caller, amount) || unchanged(pre, post),
        other != caller,
    ensures
        has_campaign(post.campaigns@, other) <==> has_campaign(pre.campaigns@, other),
        has_campaign(pre.campaigns@, other) ==> campaign_entry(post.campaigns@, other)
            == campaign_entry(pre.campaigns@, other),
        wallet_bal(post.wallets@, other) == wallet_bal(pre.wallets@, other),
{
}

/// The sufficiency check is strictly greater-than, by design: a successful
/// withdrawal always leaves the campaign account with a strictly positive
/// carried balance, so no withdrawal ever drains it to exactly zero.
pub proof fn lemma_withdrawal_never_drains(pre: Ledger, post: Ledger, authority: u64, amount: u64)
    requires
        withdraw_post(pre, post, authority, amount),
    ensures
        post.campaign(authority).base_units > 0,
{
}

/// Closing a campaign frees its address: no campaign is stored there
/// afterwards, so a new creation by the same authority is rejected only for
/// a broken length bound, never for a collision.
pub proof fn lemma_close_frees_address(pre: Ledger, post: Ledger, authority: u64)
    requires
        close_post(pre, post, authority),
    ensures
        !post.holds_campaign(authority),
{
}

/// One step of the engine, whichever operation it was: a rejected call, a
/// creation, a donation, a withdrawal, a closure, or a credit from outside
/// the engine.
pub open spec fn engine_step(pre: Ledger, post: Ledger) -> bool {
    ||| unchanged(pre, post)
    ||| (exists|a: u64, name: Seq<u8>, descr: Seq<u8>, t: u64|
        #[trigger] create_post(pre, post, a, name, descr, t))
    ||| (exists|donor: u64, ca: u64, amount: u64| #[trigger] donate_post(pre, post, donor, ca, amount))
    ||| (exists|a: u64, amount: u64| #[trigger] withdraw_post(pre, post, a, amount))
    ||| (exists|a: u64| #[trigger] close_post(pre, post, a))
    ||| (exists|a: u64, x: u64| #[trigger] credit_campaign_post(pre, post, a, x))
    ||| (exists|id: u64, x: u64|
        #[trigger] wallets_shifted(pre, post, id, x as int) && post.campaigns@ == pre.campaigns@)
}

/// Across every step the engine can take, a campaign that stays stored keeps
/// its authority, name, description and target, and its donated and
/// withdrawn counters never decrease.
pub proof fn lemma_record_monotonic(pre: Ledger, post: Ledger, a: u64)
    requires
        engine_step(pre, post),
        pre.holds_campaign(a),
        post.holds_campaign(a),
    ensures
        post.campaign(a).record.update_authority == pre.campaign(a).record.update_authority,
        post.campaign(a).record.name == pre.campaign(a).record.name,
        post.campaign(a).record.description == pre.campaign(a).record.description,
        post.campaign(a).record.target_amount == pre.campaign(a).record.target_amount,
        post.campaign(a).record.amount_donated >= pre.campaign(a).record.amount_donated,
        post.campaign(a).record.amount_withdrawn >= pre.campaign(a).record.amount_withdrawn,
{
    if unchanged(pre, post) {
    } else if exists|au: u64, name: Seq<u8>, descr: Seq<u8>, t: u64|
        #[trigger] create_post(pre, post, au, name, descr, t) {
        let (au, name, descr, t) = choose|au: u64, name: Seq<u8>, descr: Seq<u8>, t: u64|
            #[trigger] create_post(pre, post, au, name, descr, t);
        assert(au != a);
    } else if exists|donor: u64, ca: u64, amount: u64|
        #[trigger] donate_post(pre, post, donor, ca, amount) {
        let (donor, ca, amount) = choose|donor: u64, ca: u64, amount: u64|
            #[trigger] donate_post(pre, post, donor, ca, amount);
        if ca != a {
            assert(campaign_entry(post.campaigns@, a) == campaign_entry(pre.campaigns@, a));
        }
    } else if exists|au: u64, amount: u64| #[trigger] withdraw_post(pre, post, au, amount) {
        let (au, amount) = choose|au: u64, amount: u64|
            #[trigger] withdraw_post(pre, post, au, amount);
        if au != a {
            assert(campaign_entry(post.campaigns@, a) == campaign_entry(pre.campaigns@, a));
        }
    } else if exists|au: u64| #[trigger] close_post(pre, post, au) {
        let au = choose|au: u64| #[trigger] close_post(pre, post, au);
        assert(au != a);
        assert(campaign_entry(post.campaigns@, a) == campaign_entry(pre.campaigns@, a));
    } else if exists|au: u64, x: u64| #[trigger] credit_campaign_post(pre, post, au, x) {
        let (au, x) = choose|au: u64, x: u64| #[trigger] credit_campaign_post(pre, post, au, x);
        if au != a {
            assert(campaign_entry(post.campaigns@, a) == campaign_entry(pre.campaigns@, a));
        }
    } else {
    }
}

} // verus!
