//! The ledger as plain values, for a host that stores it between calls.
//!
//! A snapshot can hold anything. Whether it is the snapshot of a ledger is
//! decided here, before a ledger is made of it.

use vstd::prelude::*;
use crate::keyed::{keyed, lemma_keyed_at};
use crate::model::{LedgerView, ad_keys, config_valid, milestone_keys};
use crate::pricing::PERCENT_SCALE;
use crate::types::{
    Ad,
    Milestone,
    Reservation,
    WatchRecord,
    ad_views,
    milestone_views,
    record_accounts,
    record_ids,
    reservation_rows,
};

verus! {

/// Everything that a ledger holds.
///
/// `reservations` runs beside `ads`: its row at an ad's position lists the
/// watch slots held on that ad.
#[derive(Debug, PartialEq, Eq)]
pub struct LedgerSnapshot {
    pub distancia_price: u128,
    pub minimum_ad_value: u128,
    pub percentage_ad_watch_value: u128,
    pub percentage_milestone_completion_value: u128,
    pub percentage_commission_value: u128,
    pub token_contract_owner: String,
    pub ads_watched: Vec<WatchRecord>,
    pub milestones: Vec<Milestone>,
    pub ads: Vec<Ad>,
    pub reservations: Vec<Vec<Reservation>>,
    pub owner: String,
}

impl View for LedgerSnapshot {
    type V = LedgerView;

    open spec fn view(&self) -> LedgerView {
        LedgerView {
            distancia_price: self.distancia_price,
            minimum_ad_value: self.minimum_ad_value,
            percentage_ad_watch_value: self.percentage_ad_watch_value,
            percentage_milestone_completion_value: self.percentage_milestone_completion_value,
            percentage_commission_value: self.percentage_commission_value,
            token_contract_owner: self.token_contract_owner@,
            owner: self.owner@,
            ads: ad_views(self.ads@),
            ads_by_key: keyed(ad_keys(ad_views(self.ads@)), ad_views(self.ads@)),
            milestones: milestone_views(self.milestones@),
            milestones_by_key: keyed(
                milestone_keys(milestone_views(self.milestones@)),
                milestone_views(self.milestones@),
            ),
            ads_watched: keyed(record_accounts(self.ads_watched@), record_ids(self.ads_watched@)),
            reservations: reservation_rows(self.reservations@),
        }
    }
}

/// Whether each ad's id is its position plus one.
pub open spec fn ads_numbered(ads: Seq<Ad>) -> bool {
    forall|i: int| 0 <= i < ads.len() ==> (#[trigger] ads[i]).id == i + 1
}

/// Whether each milestone's id is its position plus one.
pub open spec fn milestones_numbered(milestones: Seq<Milestone>) -> bool {
    forall|i: int| 0 <= i < milestones.len() ==> (#[trigger] milestones[i]).id == i + 1
}

/// Whether there is one row of reservations for each ad, and no ad has more
/// watches, counted and reserved together, than it pays for.
pub open spec fn slots_within_caps(ads: Seq<Ad>, reservations: Seq<Vec<Reservation>>) -> bool {
    &&& reservations.len() == ads.len()
    &&& forall|i: int|
        0 <= i < ads.len() ==> (#[trigger] ads[i]).watched_count + reservations[i]@.len()
            <= ads[i].watchers_allowed
}

/// Whether every id in `record` is the id of one of `count` ads.
pub open spec fn record_refers_to_ads(record: WatchRecord, count: nat) -> bool {
    forall|n: int| 0 <= n < record.ad_ids@.len() ==> 1 <= #[trigger] record.ad_ids@[n] <= count
}

/// Whether every id in every watch record is the id of one of `count` ads.
pub open spec fn records_refer_to_ads(records: Seq<WatchRecord>, count: nat) -> bool {
    forall|i: int| 0 <= i < records.len() ==> record_refers_to_ads(#[trigger] records[i], count)
}

impl LedgerSnapshot {
    /// Whether this is the snapshot of a ledger: the parameters are valid,
    /// ads and milestones are numbered from one and no key occurs twice among
    /// either, every ad's slots are within its cap, no viewer has two watch
    /// records, and every watch record lists ids of ads.
    pub open spec fn valid(&self) -> bool {
        &&& config_valid(
            self.distancia_price,
            self.percentage_ad_watch_value,
            self.percentage_milestone_completion_value,
            self.percentage_commission_value,
        )
        &&& ads_numbered(self.ads@)
        &&& ad_keys(ad_views(self.ads@)).no_duplicates()
        &&& milestones_numbered(self.milestones@)
        &&& milestone_keys(milestone_views(self.milestones@)).no_duplicates()
        &&& slots_within_caps(self.ads@, self.reservations@)
        &&& record_accounts(self.ads_watched@).no_duplicates()
        &&& records_refer_to_ads(self.ads_watched@, self.ads@.len())
    }

    /// A valid snapshot describes a ledger that meets the ledger's invariant.
    pub proof fn lemma_valid_is_wf(&self)
        requires
            self.valid(),
        ensures
            self@.wf(),
    {
        let v = self@;
        let ads = ad_views(self.ads@);
        let keys = ad_keys(ads);
        assert forall|i: int| #![trigger v.ads[i]] 0 <= i < v.ads.len() implies {
            &&& v.ads[i].id == i + 1
            &&& v.ads_by_key.contains_key(v.ads[i].ad_key)
            &&& v.ads_by_key[v.ads[i].ad_key] == v.ads[i]
        } by {
            assert(self.ads@[i].id == i + 1);
            assert(keys[i] == v.ads[i].ad_key);
            lemma_keyed_at(keys, ads, i);
        }
        assert forall|k: Seq<char>|
            #![trigger v.ads_by_key[k]]
            #![trigger v.ads_by_key.dom().contains(k)]
            v.ads_by_key.contains_key(k) implies {
            &&& v.ads_by_key[k].ad_key == k
            &&& 1 <= v.ads_by_key[k].id <= v.ads.len()
            &&& v.ads[v.ads_by_key[k].id - 1] == v.ads_by_key[k]
        } by {
            let i = keys.index_of(k);
            assert(0 <= i < keys.len() && keys[i] == k);
            assert(self.ads@[i].id == i + 1);
        }
        let milestones = milestone_views(self.milestones@);
        let mkeys = milestone_keys(milestones);
        assert forall|i: int| #![trigger v.milestones[i]] 0 <= i < v.milestones.len() implies {
            &&& v.milestones[i].id == i + 1
            &&& v.milestones_by_key.contains_key(v.milestones[i].milestone_key)
            &&& v.milestones_by_key[v.milestones[i].milestone_key] == v.milestones[i]
        } by {
            assert(self.milestones@[i].id == i + 1);
            assert(mkeys[i] == v.milestones[i].milestone_key);
            lemma_keyed_at(mkeys, milestones, i);
        }
        assert forall|k: Seq<char>|
            #![trigger v.milestones_by_key[k]]
            #![trigger v.milestones_by_key.dom().contains(k)]
            v.milestones_by_key.contains_key(k) implies {
            &&& v.milestones_by_key[k].milestone_key == k
            &&& 1 <= v.milestones_by_key[k].id <= v.milestones.len()
            &&& v.milestones[v.milestones_by_key[k].id - 1] == v.milestones_by_key[k]
        } by {
            let i = mkeys.index_of(k);
            assert(0 <= i < mkeys.len() && mkeys[i] == k);
            assert(self.milestones@[i].id == i + 1);
        }
        assert forall|i: int|
            #![trigger v.ads[i]]
            #![trigger v.reservations[i]]
            0 <= i < v.ads.len() implies v.ads[i].watched_count + v.reservations[i].len()
            <= v.ads[i].watchers_allowed by {
            assert(self.ads@[i].watched_count + self.reservations@[i]@.len()
                <= self.ads@[i].watchers_allowed);
        }
        let accounts = record_accounts(self.ads_watched@);
        assert forall|account: Seq<char>, n: int|
            #![trigger v.ads_watched[account][n]]
            v.ads_watched.contains_key(account) && 0 <= n < v.ads_watched[account].len() implies 1
            <= v.ads_watched[account][n] <= v.ads.len() by {
            let i = accounts.index_of(account);
            assert(0 <= i < accounts.len() && accounts[i] == account);
            assert(record_refers_to_ads(self.ads_watched@[i], self.ads@.len()));
        }
    }

    /// A snapshot that describes a ledger meeting the ledger's invariant, and
    /// holds no two watch records of one viewer, is valid.
    pub proof fn lemma_wf_is_valid(&self)
        requires
            self@.wf(),
            record_accounts(self.ads_watched@).no_duplicates(),
        ensures
            self.valid(),
    {
        let v = self@;
        let keys = ad_keys(ad_views(self.ads@));
        assert forall|i: int, j: int|
            0 <= i < keys.len() && 0 <= j < keys.len() && i != j implies keys[i] != keys[j] by {
            if keys[i] == keys[j] {
                v.lemma_ad_keys_distinct(i, j);
            }
        }
        let mkeys = milestone_keys(milestone_views(self.milestones@));
        assert forall|i: int, j: int|
            0 <= i < mkeys.len() && 0 <= j < mkeys.len() && i != j implies mkeys[i] != mkeys[j] by {
            if mkeys[i] == mkeys[j] {
                v.lemma_milestone_keys_distinct(i, j);
            }
        }
        assert forall|i: int| 0 <= i < self.ads@.len() implies (#[trigger] self.ads@[i]).id == i
            + 1 by {
            assert(v.ads[i].id == i + 1);
        }
        assert forall|i: int| 0 <= i < self.milestones@.len() implies (
        #[trigger] self.milestones@[i]).id == i + 1 by {
            assert(v.milestones[i].id == i + 1);
        }
        assert forall|i: int| 0 <= i < self.ads@.len() implies (
        #[trigger] self.ads@[i]).watched_count + self.reservations@[i]@.len()
            <= self.ads@[i].watchers_allowed by {
            assert(v.ads[i].watched_count + v.reservations[i].len() <= v.ads[i].watchers_allowed);
        }
        let accounts = record_accounts(self.ads_watched@);
        let ids = record_ids(self.ads_watched@);
        assert forall|i: int| 0 <= i < self.ads_watched@.len() implies record_refers_to_ads(
            #[trigger] self.ads_watched@[i],
            self.ads@.len(),
        ) by {
            lemma_keyed_at(accounts, ids, i);
            assert forall|n: int| 0 <= n < self.ads_watched@[i].ad_ids@.len() implies 1
                <= #[trigger] self.ads_watched@[i].ad_ids@[n] <= self.ads@.len() by {
                assert(1 <= v.ads_watched[accounts[i]][n] <= v.ads.len());
            }
        }
    }
}

/// Whether no string occurs twice in `keys`.
fn distinct(keys: &Vec<String>) -> (r: bool)
    ensures
        r == keys@.map_values(|k: String| k@).no_duplicates(),
{
    let ghost views = keys@.map_values(|k: String| k@);
    let mut i: usize = 0;
    while i < keys.len()
        invariant
            i <= keys@.len(),
            views == keys@.map_values(|k: String| k@),
            forall|a: int, b: int| 0 <= a < b < i ==> views[a] != views[b],
        decreases keys@.len() - i,
    {
        let mut j: usize = 0;
        while j < i
            invariant
                j <= i,
                i < keys@.len(),
                views == keys@.map_values(|k: String| k@),
                forall|b: int| 0 <= b < j ==> views[b] != views[i as int],
            decreases i - j,
        {
            if keys[j] == keys[i] {
                assert(views[j as int] == views[i as int]);
                return false;
            }
            j += 1;
        }
        i += 1;
    }
    assert forall|a: int, b: int|
        0 <= a < views.len() && 0 <= b < views.len() && a != b implies views[a] != views[b] by {
        if a < b {
            assert(views[a] != views[b]);
        } else {
            assert(views[b] != views[a]);
        }
    }
    true
}

fn ads_are_numbered(ads: &Vec<Ad>) -> (r: bool)
    ensures
        r == ads_numbered(ads@),
{
    let mut i: usize = 0;
    while i < ads.len()
        invariant
            i <= ads@.len(),
            forall|j: int| 0 <= j < i ==> (#[trigger] ads@[j]).id == j + 1,
        decreases ads@.len() - i,
    {
        if ads[i].id != i as u128 + 1 {
            return false;
        }
        i += 1;
    }
    true
}

fn milestones_are_numbered(milestones: &Vec<Milestone>) -> (r: bool)
    ensures
        r == milestones_numbered(milestones@),
{
    let mut i: usize = 0;
    while i < milestones.len()
        invariant
            i <= milestones@.len(),
            forall|j: int| 0 <= j < i ==> (#[trigger] milestones@[j]).id == j + 1,
        decreases milestones@.len() - i,
    {
        if milestones[i].id != i as u128 + 1 {
            return false;
        }
        i += 1;
    }
    true
}

fn ad_keys_of(ads: &Vec<Ad>) -> (r: Vec<String>)
    ensures
        r@.map_values(|k: String| k@) == ad_keys(ad_views(ads@)),
{
    let mut out: Vec<String> = Vec::new();
    let mut i: usize = 0;
    while i < ads.len()
        invariant
            i <= ads@.len(),
            out@.len() == i,
            forall|j: int| 0 <= j < i ==> out@[j]@ == ads@[j].ad_key@,
        decreases ads@.len() - i,
    {
        out.push(ads[i].ad_key.clone());
        i += 1;
    }
    assert(out@.map_values(|k: String| k@) =~= ad_keys(ad_views(ads@)));
    out
}

fn milestone_keys_of(milestones: &Vec<Milestone>) -> (r: Vec<String>)
    ensures
        r@.map_values(|k: String| k@) == milestone_keys(milestone_views(milestones@)),
{
    let mut out: Vec<String> = Vec::new();
    let mut i: usize = 0;
    while i < milestones.len()
        invariant
            i <= milestones@.len(),
            out@.len() == i,
            forall|j: int| 0 <= j < i ==> out@[j]@ == milestones@[j].milestone_key@,
        decreases milestones@.len() - i,
    {
        out.push(milestones[i].milestone_key.clone());
        i += 1;
    }
    assert(out@.map_values(|k: String| k@) =~= milestone_keys(milestone_views(milestones@)));
    out
}

fn accounts_of(records: &Vec<WatchRecord>) -> (r: Vec<String>)
    ensures
        r@.map_values(|k: String| k@) == record_accounts(records@),
{
    let mut out: Vec<String> = Vec::new();
    let mut i: usize = 0;
    while i < records.len()
        invariant
            i <= records@.len(),
            out@.len() == i,
            forall|j: int| 0 <= j < i ==> out@[j]@ == records@[j].account@,
        decreases records@.len() - i,
    {
        out.push(records[i].account.clone());
        i += 1;
    }
    assert(out@.map_values(|k: String| k@) =~= record_accounts(records@));
    out
}

fn slots_are_within_caps(ads: &Vec<Ad>, reservations: &Vec<Vec<Reservation>>) -> (r: bool)
    ensures
        r == slots_within_caps(ads@, reservations@),
{
    if reservations.len() != ads.len() {
        return false;
    }
    let mut i: usize = 0;
    while i < ads.len()
        invariant
            i <= ads@.len(),
            reservations@.len() == ads@.len(),
            forall|j: int|
                0 <= j < i ==> (#[trigger] ads@[j]).watched_count + reservations@[j]@.len()
                    <= ads@[j].watchers_allowed,
        decreases ads@.len() - i,
    {
        if ads[i].watched_count > ads[i].watchers_allowed {
            return false;
        }
        if reservations[i].len() as u128 > ads[i].watchers_allowed - ads[i].watched_count {
            return false;
        }
        i += 1;
    }
    true
}

fn records_do_refer_to_ads(records: &Vec<WatchRecord>, count: usize) -> (r: bool)
    ensures
        r == records_refer_to_ads(records@, count as nat),
{
    let mut i: usize = 0;
    while i < records.len()
        invariant
            i <= records@.len(),
            forall|j: int|
                0 <= j < i ==> record_refers_to_ads(#[trigger] records@[j], count as nat),
        decreases records@.len() - i,
    {
        let mut n: usize = 0;
        while n < records[i].ad_ids.len()
            invariant
                i < records@.len(),
                n <= records@[i as int].ad_ids@.len(),
                forall|m: int|
                    0 <= m < n ==> 1 <= #[trigger] records@[i as int].ad_ids@[m] <= count,
            decreases records@[i as int].ad_ids@.len() - n,
        {
            let id = records[i].ad_ids[n];
            if id == 0 || id > count as u128 {
                assert(!record_refers_to_ads(records@[i as int], count as nat));
                return false;
            }
            n += 1;
        }
        i += 1;
    }
    true
}

impl LedgerSnapshot {
    /// Decides whether this is the snapshot of a ledger.
    pub fn is_valid(&self) -> (r: bool)
        ensures
            r == self.valid(),
    {
        if self.distancia_price == 0 || self.percentage_ad_watch_value == 0
            || self.percentage_milestone_completion_value > u128::MAX - PERCENT_SCALE
            || self.percentage_commission_value > PERCENT_SCALE {
            return false;
        }
        if !ads_are_numbered(&self.ads) || !milestones_are_numbered(&self.milestones) {
            return false;
        }
        if !slots_are_within_caps(&self.ads, &self.reservations) {
            return false;
        }
        if !records_do_refer_to_ads(&self.ads_watched, self.ads.len()) {
            return false;
        }
        let ad_keys = ad_keys_of(&self.ads);
        let milestone_keys = milestone_keys_of(&self.milestones);
        let accounts = accounts_of(&self.ads_watched);
        distinct(&ad_keys) && distinct(&milestone_keys) && distinct(&accounts)
    }
}

} // verus!
