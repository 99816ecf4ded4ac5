//! The ledger and its operations.
//!
//! Each operation takes what the host knows of the call (who called, what was
//! attached, what the clock reads) as plain arguments. An operation that needs
//! the token service returns the request to make; the outcome of the request
//! comes back through the matching callback, which alone changes what the
//! request was about.

use vstd::prelude::*;
use crate::keyed::{keyed, lemma_keyed_at, lemma_keyed_push, lemma_keyed_update};
use crate::model::{
    LedgerView,
    ad_keys,
    config_valid,
    initial_ledger,
    lapse_time,
    live_reservations,
    milestone_keys,
    oldest_reservation_at,
};
use crate::pricing::{PERCENT_SCALE, convert_rate, per_watch_reward, split_deposit, watcher_cap};
use crate::snapshot::LedgerSnapshot;
use crate::types::{
    Ad,
    BurnRequest,
    LedgerError,
    Milestone,
    MintRequest,
    Payout,
    Reservation,
    ReservationView,
    WatchRecord,
    ad_views,
    milestone_views,
    record_accounts,
    record_ids,
    reservation_rows,
    reservation_views,
};

verus! {

/// The ledger: the pricing parameters, the ads and milestones, the watch
/// record of each viewer, and the watch slots held for mint requests under way.
pub struct Distancia {
    distancia_price: u128,
    minimum_ad_value: u128,
    percentage_ad_watch_value: u128,
    percentage_milestone_completion_value: u128,
    percentage_commission_value: u128,
    token_contract_owner: String,
    ads_watched: Vec<WatchRecord>,
    milestones: Vec<Milestone>,
    ads: Vec<Ad>,
    reservations: Vec<Vec<Reservation>>,
    owner: String,
}

impl View for Distancia {
    type V = LedgerView;

    closed spec fn view(&self) -> LedgerView {
        LedgerView {
            distancia_price: self.distancia_price,
            minimum_ad_value: self.minimum_ad_value,
            percentage_ad_watch_value: self.percentage_ad_watch_value,
            percentage_milestone_completion_value: self.percentage_milestone_completion_value,
            percentage_commission_value: self.percentage_commission_value,
            token_contract_owner: self.token_contract_owner@,
            owner: self.owner@,
            ads: ad_views(self.ads@),
            ads_by_key: keyed(ad_keys(ad_views(self.ads@)), ad_views(self.ads@)),
            milestones: milestone_views(self.milestones@),
            milestones_by_key: keyed(
                milestone_keys(milestone_views(self.milestones@)),
                milestone_views(self.milestones@),
            ),
            ads_watched: keyed(record_accounts(self.ads_watched@), record_ids(self.ads_watched@)),
            reservations: reservation_rows(self.reservations@),
        }
    }
}

/// The position of the ad under `key`, if there is one.
fn find_ad(ads: &Vec<Ad>, key: &String) -> (r: Option<usize>)
    ensures
        match r {
            Some(i) => {
                &&& i < ads@.len()
                &&& ads@[i as int].ad_key@ == key@
                &&& ad_keys(ad_views(ads@)).contains(key@)
            },
            None => !ad_keys(ad_views(ads@)).contains(key@),
        },
{
    let mut i: usize = 0;
    while i < ads.len()
        invariant
            i <= ads@.len(),
            forall|j: int| 0 <= j < i ==> ads@[j].ad_key@ != key@,
        decreases ads@.len() - i,
    {
        if ads[i].ad_key == *key {
            assert(ad_keys(ad_views(ads@))[i as int] == key@);
            return Some(i);
        }
        i += 1;
    }
    None
}

/// A copy of `ads`.
fn copy_ads(ads: &Vec<Ad>) -> (r: Vec<Ad>)
    ensures
        ad_views(r@) == ad_views(ads@),
{
    let mut out: Vec<Ad> = Vec::new();
    let mut i: usize = 0;
    while i < ads.len()
        invariant
            i <= ads@.len(),
            out@.len() == i,
            forall|j: int| 0 <= j < i ==> out@[j]@ == ads@[j]@,
        decreases ads@.len() - i,
    {
        out.push(ads[i].clone());
        i += 1;
    }
    assert(ad_views(out@) =~= ad_views(ads@));
    out
}

/// The position of the milestone under `key`, if there is one.
fn find_milestone(milestones: &Vec<Milestone>, key: &String) -> (r: Option<usize>)
    ensures
        match r {
            Some(i) => {
                &&& i < milestones@.len()
                &&& milestones@[i as int].milestone_key@ == key@
                &&& milestone_keys(milestone_views(milestones@)).contains(key@)
            },
            None => !milestone_keys(milestone_views(milestones@)).contains(key@),
        },
{
    let mut i: usize = 0;
    while i < milestones.len()
        invariant
            i <= milestones@.len(),
            forall|j: int| 0 <= j < i ==> milestones@[j].milestone_key@ != key@,
        decreases milestones@.len() - i,
    {
        if milestones[i].milestone_key == *key {
            assert(milestone_keys(milestone_views(milestones@))[i as int] == key@);
            return Some(i);
        }
        i += 1;
    }
    None
}

/// A copy of `milestones`.
fn copy_milestones(milestones: &Vec<Milestone>) -> (r: Vec<Milestone>)
    ensures
        milestone_views(r@) == milestone_views(milestones@),
{
    let mut out: Vec<Milestone> = Vec::new();
    let mut i: usize = 0;
    while i < milestones.len()
        invariant
            i <= milestones@.len(),
            out@.len() == i,
            forall|j: int| 0 <= j < i ==> out@[j]@ == milestones@[j]@,
        decreases milestones@.len() - i,
    {
        out.push(milestones[i].clone());
        i += 1;
    }
    assert(milestone_views(out@) =~= milestone_views(milestones@));
    out
}

/// The position of the watch record of `account`, if there is one.
fn find_record(records: &Vec<WatchRecord>, account: &String) -> (r: Option<usize>)
    ensures
        match r {
            Some(i) => {
                &&& i < records@.len()
                &&& records@[i as int].account@ == account@
                &&& record_accounts(records@).contains(account@)
            },
            None => !record_accounts(records@).contains(account@),
        },
{
    let mut i: usize = 0;
    while i < records.len()
        invariant
            i <= records@.len(),
            forall|j: int| 0 <= j < i ==> records@[j].account@ != account@,
        decreases records@.len() - i,
    {
        if records[i].account == *account {
            assert(record_accounts(records@)[i as int] == account@);
            return Some(i);
        }
        i += 1;
    }
    None
}

/// Filtering a row with one more reservation at its end filters the row and
/// then decides on that reservation.
proof fn lemma_live_push(row: Seq<ReservationView>, last: ReservationView, now: u64)
    ensures
        live_reservations(row.push(last), now) == if last.live_at(now) {
            live_reservations(row, now).push(last)
        } else {
            live_reservations(row, now)
        },
{
    reveal(Seq::filter);
    assert(row.push(last).drop_last() =~= row);
}

/// A copy of the reservations of `row` that have not lapsed at `now`.
fn live_copy(row: &Vec<Reservation>, now: u64) -> (r: Vec<Reservation>)
    ensures
        reservation_views(r@) == live_reservations(reservation_views(row@), now),
        r@.len() <= row@.len(),
{
    let mut out: Vec<Reservation> = Vec::new();
    let mut i: usize = 0;
    proof {
        reveal(Seq::filter);
        assert(reservation_views(row@).take(0) =~= Seq::empty());
        assert(reservation_views(out@) =~= Seq::empty());
    }
    while i < row.len()
        invariant
            i <= row@.len(),
            out@.len() <= i,
            reservation_views(out@) == live_reservations(
                reservation_views(row@).take(i as int),
                now,
            ),
        decreases row@.len() - i,
    {
        let ghost before = reservation_views(out@);
        proof {
            let views = reservation_views(row@);
            assert(views.take(i + 1) =~= views.take(i as int).push(row@[i as int]@));
            lemma_live_push(views.take(i as int), row@[i as int]@, now);
        }
        if now < row[i].expires_at {
            let account = row[i].account.clone();
            out.push(Reservation { account, expires_at: row[i].expires_at });
            assert(reservation_views(out@) =~= before.push(row@[i as int]@));
        }
        i += 1;
    }
    assert(reservation_views(row@).take(row@.len() as int) =~= reservation_views(row@));
    out
}

/// The position of the oldest reservation of `account` in `row`, if it holds
/// one.
fn find_reservation(row: &Vec<Reservation>, account: &String) -> (r: Option<usize>)
    ensures
        match r {
            Some(j) => oldest_reservation_at(reservation_views(row@), account@, j as int),
            None => forall|j: int|
                !#[trigger] oldest_reservation_at(reservation_views(row@), account@, j),
        },
{
    let mut j: usize = 0;
    while j < row.len()
        invariant
            j <= row@.len(),
            forall|k: int|
                0 <= k < j ==> (#[trigger] reservation_views(row@)[k]).account != account@,
        decreases row@.len() - j,
    {
        if row[j].account == *account {
            return Some(j);
        }
        j += 1;
    }
    None
}

impl Distancia {
    /// What keeps the representation in step with its view: no viewer has two
    /// watch records.
    pub closed spec fn records_distinct(&self) -> bool {
        record_accounts(self.ads_watched@).no_duplicates()
    }

    /// The invariant of the ledger. Every operation keeps it.
    pub open spec fn wf(&self) -> bool {
        &&& self.records_distinct()
        &&& self@.wf()
    }

    proof fn lemma_ad_index(&self)
        requires
            self.wf(),
        ensures
            ad_keys(ad_views(self.ads@)).no_duplicates(),
            ad_keys(ad_views(self.ads@)).len() == self.ads@.len(),
            forall|k: Seq<char>|
                self@.ads_by_key.contains_key(k) <==> ad_keys(ad_views(self.ads@)).contains(k),
    {
        let keys = ad_keys(ad_views(self.ads@));
        assert forall|i: int, j: int|
            0 <= i < keys.len() && 0 <= j < keys.len() && i != j implies keys[i] != keys[j] by {
            if keys[i] == keys[j] {
                self@.lemma_ad_keys_distinct(i, j);
            }
        }
    }

    /// Creates the ledger. `contract_account` is the account that the ledger
    /// runs under, `signer` the principal that creates it and owns it from
    /// then on.
    ///
    /// Parameters with which a pricing formula cannot be evaluated are
    /// refused: a price or a watch percentage of zero, a milestone bonus whose
    /// factor leaves 128 bits, a commission of more than the whole deposit.
    pub fn new(
        distancia_price: u128,
        minimum_ad_value: u128,
        percentage_ad_watch_value: u128,
        percentage_milestone_completion_value: u128,
        percentage_commission_value: u128,
        contract_account: String,
        signer: String,
    ) -> (r: Result<Distancia, LedgerError>)
        ensures
            match r {
                Ok(ledger) => {
                    &&& config_valid(
                        distancia_price,
                        percentage_ad_watch_value,
                        percentage_milestone_completion_value,
                        percentage_commission_value,
                    )
                    &&& ledger.wf()
                    &&& ledger@ == initial_ledger(
                        distancia_price,
                        minimum_ad_value,
                        percentage_ad_watch_value,
                        percentage_milestone_completion_value,
                        percentage_commission_value,
                        contract_account@,
                        signer@,
                    )
                },
                Err(e) => {
                    &&& e == LedgerError::InvalidParameter
                    &&& !config_valid(
                        distancia_price,
                        percentage_ad_watch_value,
                        percentage_milestone_completion_value,
                        percentage_commission_value,
                    )
                },
            },
    {
        if distancia_price == 0 || percentage_ad_watch_value == 0
            || percentage_milestone_completion_value > u128::MAX - PERCENT_SCALE
            || percentage_commission_value > PERCENT_SCALE {
            return Err(LedgerError::InvalidParameter);
        }
        let ledger = Distancia {
            distancia_price,
            minimum_ad_value,
            percentage_ad_watch_value,
            percentage_milestone_completion_value,
            percentage_commission_value,
            token_contract_owner: contract_account,
            ads_watched: Vec::new(),
            milestones: Vec::new(),
            ads: Vec::new(),
            reservations: Vec::new(),
            owner: signer,
        };
        proof {
            let v = ledger@;
            assert(v.ads =~= Seq::empty());
            assert(v.milestones =~= Seq::empty());
            assert(v.reservations =~= Seq::empty());
            assert(v.ads_by_key =~= Map::empty());
            assert(v.milestones_by_key =~= Map::empty());
            assert(v.ads_watched =~= Map::empty());
        }
        Ok(ledger)
    }

    /// Makes a ledger of what a host has stored, if that is the snapshot of a
    /// ledger.
    pub fn restore(snapshot: LedgerSnapshot) -> (r: Result<Distancia, LedgerError>)
        ensures
            match r {
                Ok(ledger) => snapshot.valid() && ledger.wf() && ledger@ == snapshot@,
                Err(e) => e == LedgerError::InvalidSnapshot && !snapshot.valid(),
            },
    {
        if !snapshot.is_valid() {
            return Err(LedgerError::InvalidSnapshot);
        }
        proof {
            snapshot.lemma_valid_is_wf();
        }
        Ok(
            Distancia {
                distancia_price: snapshot.distancia_price,
                minimum_ad_value: snapshot.minimum_ad_value,
                percentage_ad_watch_value: snapshot.percentage_ad_watch_value,
                percentage_milestone_completion_value: snapshot
                    .percentage_milestone_completion_value,
                percentage_commission_value: snapshot.percentage_commission_value,
                token_contract_owner: snapshot.token_contract_owner,
                ads_watched: snapshot.ads_watched,
                milestones: snapshot.milestones,
                ads: snapshot.ads,
                reservations: snapshot.reservations,
                owner: snapshot.owner,
            },
        )
    }

    /// Hands the ledger over as plain values, for a host to store.
    pub fn into_snapshot(self) -> (snapshot: LedgerSnapshot)
        requires
            self.wf(),
        ensures
            snapshot.valid(),
            snapshot@ == self@,
    {
        let snapshot = LedgerSnapshot {
            distancia_price: self.distancia_price,
            minimum_ad_value: self.minimum_ad_value,
            percentage_ad_watch_value: self.percentage_ad_watch_value,
            percentage_milestone_completion_value: self.percentage_milestone_completion_value,
            percentage_commission_value: self.percentage_commission_value,
            token_contract_owner: self.token_contract_owner,
            ads_watched: self.ads_watched,
            milestones: self.milestones,
            ads: self.ads,
            reservations: self.reservations,
            owner: self.owner,
        };
        proof {
            snapshot.lemma_wf_is_valid();
        }
        snapshot
    }

    /// Uploads an ad under `ad_key`, funded by `attached_value` and owned by
    /// `caller`.
    ///
    /// The ad gets the next id, the per-watch reward and the watcher cap that
    /// the present parameters give, and no watch counted. It is appended to
    /// the ads and entered under its key in the same step. A refused upload
    /// leaves the ledger as it was.
    ///
    /// While the price does not exceed the milestone bonus factor, what the
    /// ad can pay out in rewards is within its deposit less the commission.
    pub fn upload_ad(
        &mut self,
        ad_key: String,
        metadata: String,
        attached_value: u128,
        caller: String,
    ) -> (r: Result<Ad, LedgerError>)
        requires
            old(self).wf(),
        ensures
            final(self).wf(),
            final(self)@.follows(old(self)@),
            match old(self)@.upload_refusal(ad_key@, attached_value) {
                Some(e) => r matches Err(reason) && reason == e && final(self)@ == old(self)@,
                None => {
                    &&& r matches Ok(ad)
                    &&& ad@ == old(self)@.priced_ad(ad_key@, metadata@, attached_value, caller@)
                    &&& final(self)@ == old(self)@.with_ad(ad@)
                },
            },
            r matches Ok(ad) ==> (old(self)@.distancia_price * PERCENT_SCALE <= PERCENT_SCALE
                + old(self)@.percentage_milestone_completion_value ==> ad.watch_value
                * ad.watchers_allowed <= old(self)@.amount_to_pay(attached_value)),
    {
        proof {
            self.lemma_ad_index();
            if self@.upload_refusal(ad_key@, attached_value) is None && self@.distancia_price
                * PERCENT_SCALE <= PERCENT_SCALE + self@.percentage_milestone_completion_value {
                self@.lemma_priced_ad_within_budget(ad_key@, metadata@, attached_value, caller@);
            }
        }
        if find_ad(&self.ads, &ad_key).is_some() {
            return Err(LedgerError::DuplicateKey);
        }
        if attached_value < self.minimum_ad_value {
            return Err(LedgerError::ValueTooLow);
        }
        let amount_to_pay = match split_deposit(attached_value, self.percentage_commission_value) {
            Some(a) => a,
            None => {
                return Err(LedgerError::InvalidParameter);
            },
        };
        let watch_value = match per_watch_reward(
            amount_to_pay,
            self.percentage_ad_watch_value,
            self.distancia_price,
            self.percentage_milestone_completion_value,
        ) {
            Some(w) => w,
            None => {
                return Err(LedgerError::AmountOverflow);
            },
        };
        let watchers_allowed = watcher_cap(self.percentage_ad_watch_value);
        let id: u128 = self.ads.len() as u128 + 1;
        let ad = Ad {
            id,
            metadata,
            owner: caller,
            ad_key,
            value: attached_value,
            watch_value,
            watchers_allowed,
            watched_count: 0,
        };
        let created = ad.clone();
        let no_reservations: Vec<Reservation> = Vec::new();
        proof {
            let before = ad_views(self.ads@);
            lemma_keyed_push(ad_keys(before), before, ad@.ad_key, ad@);
            assert(ad_views(self.ads@.push(ad)) =~= before.push(ad@));
            assert(ad_keys(before.push(ad@)) =~= ad_keys(before).push(ad@.ad_key));
            assert(reservation_views(no_reservations@) =~= Seq::empty());
            assert(reservation_rows(self.reservations@.push(no_reservations)) =~= reservation_rows(
                self.reservations@,
            ).push(Seq::empty()));
            self@.lemma_with_ad_wf(ad@);
        }
        self.ads.push(ad);
        self.reservations.push(no_reservations);
        Ok(created)
    }

    /// The ad under `ad_key`, if there is one.
    pub fn get_ad_by_key(&self, ad_key: String) -> (r: Option<Ad>)
        requires
            self.wf(),
        ensures
            match self@.ad_by_key(ad_key@) {
                Some(ad) => r matches Some(found) && found@ == ad,
                None => r is None,
            },
    {
        proof {
            self.lemma_ad_index();
        }
        match find_ad(&self.ads, &ad_key) {
            Some(i) => {
                proof {
                    let views = ad_views(self.ads@);
                    lemma_keyed_at(ad_keys(views), views, i as int);
                }
                Some(self.ads[i].clone())
            },
            None => None,
        }
    }

    /// Every ad, in the order of creation.
    pub fn get_ads(&self) -> (r: Vec<Ad>)
        ensures
            ad_views(r@) == self@.ads,
    {
        copy_ads(&self.ads)
    }

    proof fn lemma_milestone_index(&self)
        requires
            self.wf(),
        ensures
            milestone_keys(milestone_views(self.milestones@)).no_duplicates(),
            milestone_keys(milestone_views(self.milestones@)).len() == self.milestones@.len(),
            forall|k: Seq<char>|
                self@.milestones_by_key.contains_key(k) <==> milestone_keys(
                    milestone_views(self.milestones@),
                ).contains(k),
    {
        let keys = milestone_keys(milestone_views(self.milestones@));
        assert forall|i: int, j: int|
            0 <= i < keys.len() && 0 <= j < keys.len() && i != j implies keys[i] != keys[j] by {
            if keys[i] == keys[j] {
                self@.lemma_milestone_keys_distinct(i, j);
            }
        }
    }

    /// Creates a milestone of `valuation` under `milestone_key`. Only the
    /// owner may; and a key that is taken is refused, so that every milestone
    /// stays reachable under its key.
    ///
    /// The milestone gets the next id, and is appended to the milestones and
    /// entered under its key in the same step. A refused creation leaves the
    /// ledger as it was.
    pub fn create_milestone(
        &mut self,
        milestone_key: String,
        valuation: u128,
        caller: String,
    ) -> (r: Result<Milestone, LedgerError>)
        requires
            old(self).wf(),
        ensures
            final(self).wf(),
            final(self)@.follows(old(self)@),
            match old(self)@.milestone_refusal(milestone_key@, caller@) {
                Some(e) => r matches Err(reason) && reason == e && final(self)@ == old(self)@,
                None => {
                    &&& r matches Ok(milestone)
                    &&& milestone@ == old(self)@.new_milestone(milestone_key@, valuation)
                    &&& final(self)@ == old(self)@.with_milestone(milestone@)
                },
            },
    {
        proof {
            self.lemma_milestone_index();
        }
        if caller != self.owner {
            return Err(LedgerError::NotAuthorized);
        }
        if find_milestone(&self.milestones, &milestone_key).is_some() {
            return Err(LedgerError::DuplicateKey);
        }
        let id: u128 = self.milestones.len() as u128 + 1;
        let milestone = Milestone { id, milestone_key, value: valuation };
        let created = milestone.clone();
        proof {
            let before = milestone_views(self.milestones@);
            lemma_keyed_push(
                milestone_keys(before),
                before,
                milestone@.milestone_key,
                milestone@,
            );
            assert(milestone_views(self.milestones@.push(milestone)) =~= before.push(milestone@));
            assert(milestone_keys(before.push(milestone@)) =~= milestone_keys(before).push(
                milestone@.milestone_key,
            ));
            self@.lemma_with_milestone_wf(milestone@);
        }
        self.milestones.push(milestone);
        Ok(created)
    }

    /// The milestone under `milestone_key`, if there is one.
    pub fn get_milestone_by_key(&self, milestone_key: String) -> (r: Option<Milestone>)
        requires
            self.wf(),
        ensures
            match self@.milestone_by_key(milestone_key@) {
                Some(milestone) => r matches Some(found) && found@ == milestone,
                None => r is None,
            },
    {
        proof {
            self.lemma_milestone_index();
        }
        match find_milestone(&self.milestones, &milestone_key) {
            Some(i) => {
                proof {
                    let views = milestone_views(self.milestones@);
                    lemma_keyed_at(milestone_keys(views), views, i as int);
                }
                Some(self.milestones[i].clone())
            },
            None => None,
        }
    }

    /// Every milestone, in the order of creation.
    pub fn get_milestones(&self) -> (r: Vec<Milestone>)
        ensures
            milestone_views(r@) == self@.milestones,
    {
        copy_milestones(&self.milestones)
    }

    /// The price of one unit of base currency in reward currency.
    pub fn get_distancia_price(&self) -> (r: u128)
        ensures
            r == self@.distancia_price,
    {
        self.distancia_price
    }

    /// The owner of the token contract, as last reported by the token service.
    pub fn get_token_contract_owner(&self) -> (r: String)
        ensures
            r@ == self@.token_contract_owner,
    {
        self.token_contract_owner.clone()
    }

    /// Takes the answer of the token service to the question who owns the
    /// token contract.
    pub fn on_get_token_owner_callback(&mut self, owner: String)
        requires
            old(self).wf(),
        ensures
            final(self).wf(),
            final(self)@.follows(old(self)@),
            final(self)@ == (LedgerView { token_contract_owner: owner@, ..old(self)@ }),
    {
        self.token_contract_owner = owner;
    }

    /// Sets the least deposit that funds an ad. Only the owner may.
    pub fn set_minimum_ad_value(
        &mut self,
        new_min_ad_value: u128,
        caller: String,
    ) -> (r: Result<(), LedgerError>)
        requires
            old(self).wf(),
        ensures
            final(self).wf(),
            final(self)@.follows(old(self)@),
            if caller@ != old(self)@.owner {
                r matches Err(LedgerError::NotAuthorized) && final(self)@ == old(self)@
            } else {
                r is Ok && final(self)@ == (LedgerView {
                    minimum_ad_value: new_min_ad_value,
                    ..old(self)@
                })
            },
    {
        if caller != self.owner {
            return Err(LedgerError::NotAuthorized);
        }
        self.minimum_ad_value = new_min_ad_value;
        Ok(())
    }

    /// Sets the share of an ad's budget that one watch earns. Only the owner
    /// may, and not to zero: the watcher cap divides by it.
    pub fn set_percentage_ad_watch_value(
        &mut self,
        new_percentage_ad_watch_value: u128,
        caller: String,
    ) -> (r: Result<(), LedgerError>)
        requires
            old(self).wf(),
        ensures
            final(self).wf(),
            final(self)@.follows(old(self)@),
            if caller@ != old(self)@.owner {
                r matches Err(LedgerError::NotAuthorized) && final(self)@ == old(self)@
            } else if new_percentage_ad_watch_value == 0 {
                r matches Err(LedgerError::InvalidParameter) && final(self)@ == old(self)@
            } else {
                r is Ok && final(self)@ == (LedgerView {
                    percentage_ad_watch_value: new_percentage_ad_watch_value,
                    ..old(self)@
                })
            },
    {
        if caller != self.owner {
            return Err(LedgerError::NotAuthorized);
        }
        if new_percentage_ad_watch_value == 0 {
            return Err(LedgerError::InvalidParameter);
        }
        self.percentage_ad_watch_value = new_percentage_ad_watch_value;
        Ok(())
    }

    /// Sets the commission taken from a deposit. Only the owner may, and not
    /// above the whole deposit.
    pub fn set_percentage_commission_value(
        &mut self,
        new_percentage_commission_value: u128,
        caller: String,
    ) -> (r: Result<(), LedgerError>)
        requires
            old(self).wf(),
        ensures
            final(self).wf(),
            final(self)@.follows(old(self)@),
            if caller@ != old(self)@.owner {
                r matches Err(LedgerError::NotAuthorized) && final(self)@ == old(self)@
            } else if new_percentage_commission_value > PERCENT_SCALE {
                r matches Err(LedgerError::InvalidParameter) && final(self)@ == old(self)@
            } else {
                r is Ok && final(self)@ == (LedgerView {
                    percentage_commission_value: new_percentage_commission_value,
                    ..old(self)@
                })
            },
    {
        if caller != self.owner {
            return Err(LedgerError::NotAuthorized);
        }
        if new_percentage_commission_value > PERCENT_SCALE {
            return Err(LedgerError::InvalidParameter);
        }
        self.percentage_commission_value = new_percentage_commission_value;
        Ok(())
    }

    /// Sets the bonus of a conversion that clears a milestone. Only the owner
    /// may, and not so high that the bonus factor leaves 128 bits.
    pub fn set_percentage_milestone_completion_value(
        &mut self,
        new_percentage_milestone_completion_value: u128,
        caller: String,
    ) -> (r: Result<(), LedgerError>)
        requires
            old(self).wf(),
        ensures
            final(self).wf(),
            final(self)@.follows(old(self)@),
            if caller@ != old(self)@.owner {
                r matches Err(LedgerError::NotAuthorized) && final(self)@ == old(self)@
            } else if PERCENT_SCALE + new_percentage_milestone_completion_value > u128::MAX {
                r matches Err(LedgerError::InvalidParameter) && final(self)@ == old(self)@
            } else {
                r is Ok && final(self)@ == (LedgerView {
                    percentage_milestone_completion_value: new_percentage_milestone_completion_value,
                    ..old(self)@
                })
            },
    {
        if caller != self.owner {
            return Err(LedgerError::NotAuthorized);
        }
        if new_percentage_milestone_completion_value > u128::MAX - PERCENT_SCALE {
            return Err(LedgerError::InvalidParameter);
        }
        self.percentage_milestone_completion_value = new_percentage_milestone_completion_value;
        Ok(())
    }

    /// Sets the price of one unit of base currency in reward currency. Only
    /// the owner may, and not to zero: conversions divide by it.
    pub fn set_distancia_price(
        &mut self,
        new_distancia_price: u128,
        caller: String,
    ) -> (r: Result<(), LedgerError>)
        requires
            old(self).wf(),
        ensures
            final(self).wf(),
            final(self)@.follows(old(self)@),
            if caller@ != old(self)@.owner {
                r matches Err(LedgerError::NotAuthorized) && final(self)@ == old(self)@
            } else if new_distancia_price == 0 {
                r matches Err(LedgerError::InvalidParameter) && final(self)@ == old(self)@
            } else {
                r is Ok && final(self)@ == (LedgerView {
                    distancia_price: new_distancia_price,
                    ..old(self)@
                })
            },
    {
        if caller != self.owner {
            return Err(LedgerError::NotAuthorized);
        }
        if new_distancia_price == 0 {
            return Err(LedgerError::InvalidParameter);
        }
        self.distancia_price = new_distancia_price;
        Ok(())
    }

    /// Starts the conversion of `distancia_amount` of the caller's reward
    /// currency into base currency: returns the burn to request of the token
    /// service, together with the base currency that is owed once the burn is
    /// confirmed. Nothing is paid out here, and the ledger stays as it was.
    pub fn convert_distancia(
        &mut self,
        distancia_amount: u128,
        milestone_cleared: bool,
        caller: String,
    ) -> (r: Result<BurnRequest, LedgerError>)
        requires
            old(self).wf(),
        ensures
            final(self).wf(),
            final(self)@ == old(self)@,
            old(self)@.conversion_fits(distancia_amount, milestone_cleared) ==> {
                &&& r matches Ok(request)
                &&& request.account@ == caller@
                &&& request.amount == distancia_amount
                &&& request.near_amount == old(self)@.near_amount(
                    distancia_amount,
                    milestone_cleared,
                )
            },
            !old(self)@.conversion_fits(distancia_amount, milestone_cleared) ==> r matches Err(
                LedgerError::AmountOverflow,
            ),
    {
        match convert_rate(
            distancia_amount,
            self.distancia_price,
            self.percentage_milestone_completion_value,
            milestone_cleared,
        ) {
            Some(near_amount) => Ok(
                BurnRequest { account: caller, amount: distancia_amount, near_amount },
            ),
            None => Err(LedgerError::AmountOverflow),
        }
    }

    /// Clears the milestone under `milestone_key` for the caller: converts the
    /// milestone's value with the milestone bonus. Without such a milestone no
    /// burn is requested and nothing is owed. The milestone itself stays as it
    /// is, and can be cleared again.
    pub fn clear_milestone(&mut self, milestone_key: String, caller: String) -> (r: Result<
        BurnRequest,
        LedgerError,
    >)
        requires
            old(self).wf(),
        ensures
            final(self).wf(),
            final(self)@ == old(self)@,
            match old(self)@.milestone_by_key(milestone_key@) {
                None => r matches Err(LedgerError::MilestoneNotFound),
                Some(milestone) => if old(self)@.conversion_fits(milestone.value, true) {
                    &&& r matches Ok(request)
                    &&& request.account@ == caller@
                    &&& request.amount == milestone.value
                    &&& request.near_amount == old(self)@.near_amount(milestone.value, true)
                } else {
                    r matches Err(LedgerError::AmountOverflow)
                },
            },
    {
        proof {
            self.lemma_milestone_index();
        }
        match find_milestone(&self.milestones, &milestone_key) {
            Some(i) => {
                proof {
                    let views = milestone_views(self.milestones@);
                    lemma_keyed_at(milestone_keys(views), views, i as int);
                }
                let distancia_amount = self.milestones[i].value;
                self.convert_distancia(distancia_amount, true, caller)
            },
            None => Err(LedgerError::MilestoneNotFound),
        }
    }

    /// Takes the outcome of a burn request. A confirmed burn releases the
    /// payout of `near_amount` to `account_id`; a failed one releases nothing.
    /// The ledger stays as it was either way.
    pub fn on_burn_tokens_callback(
        &mut self,
        account_id: String,
        near_amount: u128,
        burned: bool,
    ) -> (r: Result<Payout, LedgerError>)
        requires
            old(self).wf(),
        ensures
            final(self).wf(),
            final(self)@ == old(self)@,
            burned ==> {
                &&& r matches Ok(payout)
                &&& payout.account@ == account_id@
                &&& payout.amount == near_amount
            },
            !burned ==> r matches Err(LedgerError::BurnFailed),
    {
        if burned {
            Ok(Payout { account: account_id, amount: near_amount })
        } else {
            Err(LedgerError::BurnFailed)
        }
    }

    proof fn lemma_record_index(&self, at: int)
        requires
            self.wf(),
            0 <= at < self.ads_watched@.len(),
        ensures
            self@.ads_watched.contains_key(self.ads_watched@[at].account@),
            self@.ads_watched[self.ads_watched@[at].account@] == self.ads_watched@[at].ad_ids@,
    {
        lemma_keyed_at(record_accounts(self.ads_watched@), record_ids(self.ads_watched@), at);
    }

    /// Asks for the reward for a watch of the ad under `ad_key` by `caller`.
    /// `now` is the reading of the host's clock, `hold` how long, by that
    /// clock, the slot stays held if no outcome arrives.
    ///
    /// Without such an ad nothing happens. The ad's own owner is refused, and
    /// so is anyone once every slot of the ad is counted or held. Otherwise
    /// the lapsed reservations of the ad are dropped, one slot is held for the
    /// caller, and the mint to request of the token service is returned. No
    /// watch is counted here: that is left to `on_mint_tokens_callback`.
    pub fn ad_watched(&mut self, ad_key: String, caller: String, now: u64, hold: u64) -> (r:
        Result<Option<MintRequest>, LedgerError>)
        requires
            old(self).wf(),
        ensures
            final(self).wf(),
            final(self)@.follows(old(self)@),
            match old(self)@.ad_by_key(ad_key@) {
                None => r matches Ok(None) && final(self)@ == old(self)@,
                Some(ad) => match old(self)@.watch_refusal(ad, caller@, now) {
                    Some(e) => r matches Err(reason) && reason == e && final(self)@
                        == old(self)@,
                    None => {
                        &&& r matches Ok(Some(request))
                        &&& request.account@ == caller@
                        &&& request.amount == ad.watch_value
                        &&& request.ad_id == ad.id
                        &&& final(self)@ == old(self)@.with_reservation(
                            ad.id,
                            caller@,
                            now,
                            lapse_time(now, hold),
                        )
                    },
                },
            },
    {
        proof {
            self.lemma_ad_index();
        }
        let at = match find_ad(&self.ads, &ad_key) {
            Some(i) => i,
            None => {
                return Ok(None);
            },
        };
        proof {
            let views = ad_views(self.ads@);
            lemma_keyed_at(ad_keys(views), views, at as int);
            assert(self@.ads[at as int].id == at + 1);
            assert(self@.ads[at as int].watched_count + self@.reservations[at as int].len()
                <= self@.ads[at as int].watchers_allowed);
        }
        if self.ads[at].owner == caller {
            return Err(LedgerError::SelfRewardForbidden);
        }
        let mut row = live_copy(&self.reservations[at], now);
        let free: u128 = self.ads[at].watchers_allowed - self.ads[at].watched_count;
        if row.len() as u128 >= free {
            return Err(LedgerError::RewardExhausted);
        }
        let request = MintRequest {
            account: caller.clone(),
            amount: self.ads[at].watch_value,
            ad_id: self.ads[at].id,
        };
        let held = Reservation { account: caller, expires_at: now.saturating_add(hold) };
        proof {
            let live = reservation_views(row@);
            assert(reservation_views(row@.push(held)) =~= live.push(held@));
            self@.lemma_with_reservation_wf(request.ad_id, held@.account, now, held.expires_at);
        }
        row.push(held);
        proof {
            assert(reservation_rows(self.reservations@.update(at as int, row)) =~= reservation_rows(
                self.reservations@,
            ).update(at as int, reservation_views(row@)));
        }
        self.reservations[at] = row;
        Ok(Some(request))
    }

    /// Takes the outcome of the mint that was requested for a watch of the ad
    /// `ad_id` by `account_id`.
    ///
    /// The outcome settles the oldest slot that the viewer holds on the ad.
    /// A confirmed mint turns it into a watch: the ad's id is appended to the
    /// viewer's watch record, and one more watch is counted on the ad as it
    /// stands now, under its id and under its key alike. A failed mint gives
    /// the slot up and changes nothing else. Where the viewer holds no slot
    /// on the ad, the outcome is refused and the ledger stays as it was.
    pub fn on_mint_tokens_callback(&mut self, account_id: &String, ad_id: u128, minted: bool) -> (r:
        Result<(), LedgerError>)
        requires
            old(self).wf(),
        ensures
            final(self).wf(),
            final(self)@.follows(old(self)@),
            match old(self)@.pending_slot(ad_id, account_id@) {
                None => {
                    &&& r matches Err(LedgerError::ReservationNotFound)
                    &&& final(self)@ == old(self)@
                },
                Some(slot) => if minted {
                    &&& r is Ok
                    &&& final(self)@ == old(self)@.with_watch(ad_id, slot, account_id@)
                } else {
                    &&& r matches Err(LedgerError::MintFailed)
                    &&& final(self)@ == old(self)@.without_reservation(ad_id, slot)
                },
            },
    {
        if ad_id == 0 || ad_id > self.ads.len() as u128 {
            return Err(LedgerError::ReservationNotFound);
        }
        let at = (ad_id - 1) as usize;
        let slot = match find_reservation(&self.reservations[at], account_id) {
            Some(j) => j,
            None => {
                return Err(LedgerError::ReservationNotFound);
            },
        };
        let ghost before = self@;
        let ghost held = reservation_views(self.reservations@[at as int]@);
        proof {
            assert(before.reservations[ad_id - 1] == held);
            assert(oldest_reservation_at(held, account_id@, slot as int));
            let chosen = before.pending_slot(ad_id, account_id@)->Some_0;
            assert(oldest_reservation_at(held, account_id@, chosen));
            assert(chosen == slot);
            let row = self.reservations@[at as int]@;
            assert(reservation_views(row.remove(slot as int)) =~= held.remove(slot as int));
        }
        let _ = self.reservations[at].remove(slot);
        proof {
            assert(self@.reservations =~= before.reservations.update(
                ad_id - 1,
                held.remove(slot as int),
            ));
            assert(self.ads_watched@ == old(self).ads_watched@);
            assert(self@ == before.without_reservation(ad_id, slot as int));
            before.lemma_without_reservation_wf(ad_id, slot as int);
        }
        if !minted {
            return Err(LedgerError::MintFailed);
        }
        proof {
            before.lemma_with_watch_wf(ad_id, slot as int, account_id@);
            self.lemma_ad_index();
        }
        let ghost ads_before = ad_views(self.ads@);
        self.ads[at].watched_count = self.ads[at].watched_count + 1;
        proof {
            let counted = before.watched_once_more(ad_id);
            assert(ad_views(self.ads@) =~= ads_before.update(at as int, counted));
            assert(ad_keys(ad_views(self.ads@)) =~= ad_keys(ads_before));
            lemma_keyed_update(ad_keys(ads_before), ads_before, at as int, counted);
        }
        let ghost accounts = record_accounts(self.ads_watched@);
        let ghost ids = record_ids(self.ads_watched@);
        match find_record(&self.ads_watched, account_id) {
            Some(k) => {
                proof {
                    lemma_keyed_at(accounts, ids, k as int);
                    lemma_keyed_update(accounts, ids, k as int, ids[k as int].push(ad_id));
                }
                self.ads_watched[k].ad_ids.push(ad_id);
                proof {
                    assert(record_accounts(self.ads_watched@) =~= accounts);
                    assert(record_ids(self.ads_watched@) =~= ids.update(
                        k as int,
                        ids[k as int].push(ad_id),
                    ));
                }
            },
            None => {
                let mut ad_ids: Vec<u128> = Vec::new();
                ad_ids.push(ad_id);
                let record = WatchRecord { account: account_id.clone(), ad_ids };
                proof {
                    lemma_keyed_push(accounts, ids, account_id@, record.ad_ids@);
                    assert(record.ad_ids@ =~= Seq::<u128>::empty().push(ad_id));
                    assert(record_accounts(self.ads_watched@.push(record)) =~= accounts.push(
                        account_id@,
                    ));
                    assert(record_ids(self.ads_watched@.push(record)) =~= ids.push(record.ad_ids@));
                }
                self.ads_watched.push(record);
            },
        }
        proof {
            assert(self@.ads_watched == before.ads_watched.insert(
                account_id@,
                before.watch_record(account_id@).push(ad_id),
            ));
            assert(self@ == before.with_watch(ad_id, slot as int, account_id@));
        }
        Ok(())
    }

    /// The ads that `account_id` was rewarded for, oldest first, each as it
    /// stands now.
    pub fn get_ads_watched(&self, account_id: String) -> (r: Vec<Ad>)
        requires
            self.wf(),
        ensures
            ad_views(r@) == self@.ads_watched_by(account_id@),
    {
        let mut out: Vec<Ad> = Vec::new();
        match find_record(&self.ads_watched, &account_id) {
            Some(k) => {
                proof {
                    self.lemma_record_index(k as int);
                }
                let ghost record = self@.watch_record(account_id@);
                let mut n: usize = 0;
                while n < self.ads_watched[k].ad_ids.len()
                    invariant
                        self.wf(),
                        k < self.ads_watched@.len(),
                        self@.ads_watched.contains_key(account_id@),
                        record == self@.ads_watched[account_id@],
                        record == self.ads_watched@[k as int].ad_ids@,
                        n <= record.len(),
                        out@.len() == n,
                        forall|m: int|
                            0 <= m < n ==> (#[trigger] out@[m])@ == self@.ads[record[m] - 1],
                    decreases record.len() - n,
                {
                    let id = self.ads_watched[k].ad_ids[n];
                    assert(1 <= self@.ads_watched[account_id@][n as int] <= self@.ads.len());
                    assert(id == record[n as int]);
                    assert(self@.ads.len() == self.ads.len());
                    let at = (id - 1) as usize;
                    let ad = self.ads[at].clone();
                    assert(ad@ == self@.ads[record[n as int] - 1]);
                    out.push(ad);
                    n += 1;
                }
                assert(ad_views(out@) =~= self@.ads_watched_by(account_id@));
            },
            None => {
                assert(!self@.ads_watched.contains_key(account_id@));
                assert(ad_views(out@) =~= self@.ads_watched_by(account_id@));
            },
        }
        out
    }
}

/// Reading the ads twice from one state of the ledger gives the same
/// sequence, in the same order, both times.
pub proof fn lemma_get_ads_repeatable(ledger: Distancia, first: Vec<Ad>, second: Vec<Ad>)
    requires
        call_ensures(Distancia::get_ads, (&ledger,), first),
        call_ensures(Distancia::get_ads, (&ledger,), second),
    ensures
        ad_views(first@) == ad_views(second@),
{
}

/// Reading the milestones twice from one state of the ledger gives the same
/// sequence, in the same order, both times.
pub proof fn lemma_get_milestones_repeatable(
    ledger: Distancia,
    first: Vec<Milestone>,
    second: Vec<Milestone>,
)
    requires
        call_ensures(Distancia::get_milestones, (&ledger,), first),
        call_ensures(Distancia::get_milestones, (&ledger,), second),
    ensures
        milestone_views(first@) == milestone_views(second@),
{
}

/// Reading the ads that a viewer was rewarded for twice from one state of the
/// ledger gives the same sequence, in the same order, both times.
pub proof fn lemma_get_ads_watched_repeatable(
    ledger: Distancia,
    account_id: String,
    first: Vec<Ad>,
    second: Vec<Ad>,
)
    requires
        ledger.wf(),
        call_ensures(Distancia::get_ads_watched, (&ledger, account_id), first),
        call_ensures(Distancia::get_ads_watched, (&ledger, account_id), second),
    ensures
        ad_views(first@) == ad_views(second@),
{
}

} // verus!
