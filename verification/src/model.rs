//! The ledger as a mathematical value, its invariant, and what each
//! operation makes of it.

use vstd::prelude::*;
use crate::pricing::{
    PERCENT_SCALE,
    lemma_rewards_within_budget,
    convert_rate_fits,
    convert_rate_spec,
    per_watch_reward_fits,
    per_watch_reward_spec,
    split_deposit_spec,
    watcher_cap_spec,
};
use crate::types::{AdView, LedgerError, MilestoneView, ReservationView};

verus! {

/// The keys of a sequence of ads, in the same order.
pub open spec fn ad_keys(ads: Seq<AdView>) -> Seq<Seq<char>> {
    ads.map_values(|a: AdView| a.ad_key)
}

/// The keys of a sequence of milestones, in the same order.
pub open spec fn milestone_keys(milestones: Seq<MilestoneView>) -> Seq<Seq<char>> {
    milestones.map_values(|m: MilestoneView| m.milestone_key)
}

/// The reservations of `row` that still hold their slot at `now`, in order.
pub open spec fn live_reservations(row: Seq<ReservationView>, now: u64) -> Seq<ReservationView> {
    row.filter(|r: ReservationView| r.live_at(now))
}

/// The reading of the clock at which a slot that is held at `now` for `hold`
/// lapses: `hold` later, or at the last reading that the clock has.
pub open spec fn lapse_time(now: u64, hold: u64) -> u64 {
    if now + hold > u64::MAX {
        u64::MAX
    } else {
        (now + hold) as u64
    }
}

/// Whether position `j` holds the oldest reservation of `account` in `row`.
pub open spec fn oldest_reservation_at(
    row: Seq<ReservationView>,
    account: Seq<char>,
    j: int,
) -> bool {
    &&& 0 <= j < row.len()
    &&& row[j].account == account
    &&& forall|k: int| 0 <= k < j ==> (#[trigger] row[k]).account != account
}

/// The state of the ledger.
///
/// Ads and milestones are reachable by two paths: by id, which is the position
/// in `ads` or `milestones` plus one, and by key, through `ads_by_key` or
/// `milestones_by_key`. `reservations` runs beside `ads`: its entry at an ad's
/// position lists the watch slots of that ad that are held for mint requests
/// under way.
pub struct LedgerView {
    pub distancia_price: u128,
    pub minimum_ad_value: u128,
    pub percentage_ad_watch_value: u128,
    pub percentage_milestone_completion_value: u128,
    pub percentage_commission_value: u128,
    pub token_contract_owner: Seq<char>,
    pub owner: Seq<char>,
    pub ads: Seq<AdView>,
    pub ads_by_key: Map<Seq<char>, AdView>,
    pub milestones: Seq<MilestoneView>,
    pub milestones_by_key: Map<Seq<char>, MilestoneView>,
    pub ads_watched: Map<Seq<char>, Seq<u128>>,
    pub reservations: Seq<Seq<ReservationView>>,
}

/// Whether the pricing parameters let every formula be evaluated: nothing
/// divides by zero, the bonus factor fits in 128 bits, and the commission is
/// no more than the whole deposit.
pub open spec fn config_valid(
    distancia_price: u128,
    percentage_ad_watch_value: u128,
    percentage_milestone_completion_value: u128,
    percentage_commission_value: u128,
) -> bool {
    &&& distancia_price > 0
    &&& percentage_ad_watch_value > 0
    &&& PERCENT_SCALE + percentage_milestone_completion_value <= u128::MAX
    &&& percentage_commission_value <= PERCENT_SCALE
}

/// The ledger right after its creation: the parameters as given, the
/// contract's own account standing in for the token owner until the token
/// service has named one, and nothing else.
pub open spec fn initial_ledger(
    distancia_price: u128,
    minimum_ad_value: u128,
    percentage_ad_watch_value: u128,
    percentage_milestone_completion_value: u128,
    percentage_commission_value: u128,
    contract_account: Seq<char>,
    signer: Seq<char>,
) -> LedgerView {
    LedgerView {
        distancia_price,
        minimum_ad_value,
        percentage_ad_watch_value,
        percentage_milestone_completion_value,
        percentage_commission_value,
        token_contract_owner: contract_account,
        owner: signer,
        ads: Seq::empty(),
        ads_by_key: Map::empty(),
        milestones: Seq::empty(),
        milestones_by_key: Map::empty(),
        ads_watched: Map::empty(),
        reservations: Seq::empty(),
    }
}

impl LedgerView {
    /// Ads are numbered from one in the order of their creation, each is
    /// found under its key with the same contents, and nothing else is found
    /// by key.
    pub open spec fn ads_indexed(self) -> bool {
        &&& forall|i: int|
            #![trigger self.ads[i]]
            0 <= i < self.ads.len() ==> {
                &&& self.ads[i].id == i + 1
                &&& self.ads_by_key.contains_key(self.ads[i].ad_key)
                &&& self.ads_by_key[self.ads[i].ad_key] == self.ads[i]
            }
        &&& forall|k: Seq<char>|
            #![trigger self.ads_by_key[k]]
            #![trigger self.ads_by_key.dom().contains(k)]
            self.ads_by_key.contains_key(k) ==> {
                &&& self.ads_by_key[k].ad_key == k
                &&& 1 <= self.ads_by_key[k].id <= self.ads.len()
                &&& self.ads[self.ads_by_key[k].id - 1] == self.ads_by_key[k]
            }
    }

    /// The same for milestones.
    pub open spec fn milestones_indexed(self) -> bool {
        &&& forall|i: int|
            #![trigger self.milestones[i]]
            0 <= i < self.milestones.len() ==> {
                &&& self.milestones[i].id == i + 1
                &&& self.milestones_by_key.contains_key(self.milestones[i].milestone_key)
                &&& self.milestones_by_key[self.milestones[i].milestone_key]
                    == self.milestones[i]
            }
        &&& forall|k: Seq<char>|
            #![trigger self.milestones_by_key[k]]
            #![trigger self.milestones_by_key.dom().contains(k)]
            self.milestones_by_key.contains_key(k) ==> {
                &&& self.milestones_by_key[k].milestone_key == k
                &&& 1 <= self.milestones_by_key[k].id <= self.milestones.len()
                &&& self.milestones[self.milestones_by_key[k].id - 1]
                    == self.milestones_by_key[k]
            }
    }

    /// No ad has more watches, counted and reserved together, than it pays
    /// for.
    pub open spec fn within_caps(self) -> bool {
        &&& self.reservations.len() == self.ads.len()
        &&& forall|i: int|
            #![trigger self.ads[i]]
            #![trigger self.reservations[i]]
            0 <= i < self.ads.len() ==> self.ads[i].watched_count + self.reservations[i].len()
                <= self.ads[i].watchers_allowed
    }

    /// Every entry of a watch record is the id of an ad.
    pub open spec fn watch_records_valid(self) -> bool {
        forall|account: Seq<char>, n: int|
            #![trigger self.ads_watched[account][n]]
            self.ads_watched.contains_key(account) && 0 <= n < self.ads_watched[account].len()
                ==> 1 <= self.ads_watched[account][n] <= self.ads.len()
    }

    /// The invariant of the ledger.
    pub open spec fn wf(self) -> bool {
        &&& config_valid(
            self.distancia_price,
            self.percentage_ad_watch_value,
            self.percentage_milestone_completion_value,
            self.percentage_commission_value,
        )
        &&& self.ads_indexed()
        &&& self.milestones_indexed()
        &&& self.within_caps()
        &&& self.watch_records_valid()
    }

    /// The ad under `key`, if there is one.
    pub open spec fn ad_by_key(self, key: Seq<char>) -> Option<AdView> {
        if self.ads_by_key.contains_key(key) {
            Some(self.ads_by_key[key])
        } else {
            None
        }
    }

    /// The milestone under `key`, if there is one.
    pub open spec fn milestone_by_key(self, key: Seq<char>) -> Option<MilestoneView> {
        if self.milestones_by_key.contains_key(key) {
            Some(self.milestones_by_key[key])
        } else {
            None
        }
    }

    /// The ids of the ads that `account` was rewarded for, oldest first.
    pub open spec fn watch_record(self, account: Seq<char>) -> Seq<u128> {
        if self.ads_watched.contains_key(account) {
            self.ads_watched[account]
        } else {
            Seq::empty()
        }
    }

    /// The ads that `account` was rewarded for, oldest first, as they stand
    /// now.
    pub open spec fn ads_watched_by(self, account: Seq<char>) -> Seq<AdView> {
        Seq::new(
            self.watch_record(account).len(),
            |n: int| self.ads[self.watch_record(account)[n] - 1],
        )
    }

    /// The deposit that is left for rewards under the present commission.
    pub open spec fn amount_to_pay(self, value: u128) -> int {
        split_deposit_spec(value as int, self.percentage_commission_value as int)
    }

    /// Whether the per-watch reward of an ad funded with `value` fits in 128
    /// bits.
    pub open spec fn pricing_fits(self, value: u128) -> bool {
        per_watch_reward_fits(
            self.amount_to_pay(value),
            self.percentage_ad_watch_value as int,
            self.distancia_price as int,
            self.percentage_milestone_completion_value as int,
        )
    }

    /// The ad that a deposit of `value` buys under the present parameters.
    pub open spec fn priced_ad(
        self,
        key: Seq<char>,
        metadata: Seq<char>,
        value: u128,
        caller: Seq<char>,
    ) -> AdView {
        AdView {
            id: (self.ads.len() + 1) as u128,
            metadata,
            owner: caller,
            ad_key: key,
            value,
            watch_value: per_watch_reward_spec(
                self.amount_to_pay(value),
                self.percentage_ad_watch_value as int,
                self.distancia_price as int,
                self.percentage_milestone_completion_value as int,
            ) as u128,
            watchers_allowed: watcher_cap_spec(self.percentage_ad_watch_value as int) as u128,
            watched_count: 0,
        }
    }

    /// Why an upload under `key` with a deposit of `value` is refused, if it
    /// is.
    pub open spec fn upload_refusal(self, key: Seq<char>, value: u128) -> Option<LedgerError> {
        if self.ads_by_key.contains_key(key) {
            Some(LedgerError::DuplicateKey)
        } else if value < self.minimum_ad_value {
            Some(LedgerError::ValueTooLow)
        } else if !self.pricing_fits(value) {
            Some(LedgerError::AmountOverflow)
        } else {
            None
        }
    }

    /// The ledger with `ad` appended, entered under its key, and no watch
    /// slot of it reserved.
    pub open spec fn with_ad(self, ad: AdView) -> LedgerView {
        LedgerView {
            ads: self.ads.push(ad),
            ads_by_key: self.ads_by_key.insert(ad.ad_key, ad),
            reservations: self.reservations.push(Seq::empty()),
            ..self
        }
    }

    /// The milestone that the owner creates under `key`.
    pub open spec fn new_milestone(self, key: Seq<char>, value: u128) -> MilestoneView {
        MilestoneView { id: (self.milestones.len() + 1) as u128, milestone_key: key, value }
    }

    /// Why the creation of a milestone under `key` by `caller` is refused, if
    /// it is.
    pub open spec fn milestone_refusal(self, key: Seq<char>, caller: Seq<char>) -> Option<
        LedgerError,
    > {
        if caller != self.owner {
            Some(LedgerError::NotAuthorized)
        } else if self.milestones_by_key.contains_key(key) {
            Some(LedgerError::DuplicateKey)
        } else {
            None
        }
    }

    /// The ledger with `milestone` appended and entered under its key.
    pub open spec fn with_milestone(self, milestone: MilestoneView) -> LedgerView {
        LedgerView {
            milestones: self.milestones.push(milestone),
            milestones_by_key: self.milestones_by_key.insert(milestone.milestone_key, milestone),
            ..self
        }
    }

    /// The number of watch slots of `ad` that are taken at `now`: the watches
    /// counted, and the reservations that have not lapsed.
    pub open spec fn slots_taken(self, ad: AdView, now: u64) -> int {
        ad.watched_count + live_reservations(self.reservations[ad.id - 1], now).len()
    }

    /// Why a watch of `ad` by `caller` at `now` is refused, if it is.
    pub open spec fn watch_refusal(self, ad: AdView, caller: Seq<char>, now: u64) -> Option<
        LedgerError,
    > {
        if ad.owner == caller {
            Some(LedgerError::SelfRewardForbidden)
        } else if self.slots_taken(ad, now) >= ad.watchers_allowed {
            Some(LedgerError::RewardExhausted)
        } else {
            None
        }
    }

    /// The ledger with the lapsed reservations of the ad `ad_id` dropped and
    /// one more slot of it held for `account` until `expires_at`.
    pub open spec fn with_reservation(
        self,
        ad_id: u128,
        account: Seq<char>,
        now: u64,
        expires_at: u64,
    ) -> LedgerView {
        LedgerView {
            reservations: self.reservations.update(
                ad_id - 1,
                live_reservations(self.reservations[ad_id - 1], now).push(
                    ReservationView { account, expires_at },
                ),
            ),
            ..self
        }
    }

    /// The position of the oldest reservation that `account` holds on the ad
    /// `ad_id`, if it holds one.
    pub open spec fn pending_slot(self, ad_id: u128, account: Seq<char>) -> Option<int> {
        let row = self.reservations[ad_id - 1];
        if 1 <= ad_id <= self.ads.len() && exists|j: int|
            #[trigger] oldest_reservation_at(row, account, j) {
            Some(choose|j: int| #[trigger] oldest_reservation_at(row, account, j))
        } else {
            None
        }
    }

    /// The ledger with the reservation at `slot` of the ad `ad_id` given up.
    pub open spec fn without_reservation(self, ad_id: u128, slot: int) -> LedgerView {
        LedgerView {
            reservations: self.reservations.update(
                ad_id - 1,
                self.reservations[ad_id - 1].remove(slot),
            ),
            ..self
        }
    }

    /// The ad `ad_id` with one more watch counted.
    pub open spec fn watched_once_more(self, ad_id: u128) -> AdView {
        AdView {
            watched_count: (self.ads[ad_id - 1].watched_count + 1) as u128,
            ..self.ads[ad_id - 1]
        }
    }

    /// The ledger with the reservation at `slot` of the ad `ad_id` turned into
    /// a watch: one more watch counted on the ad, under both of its paths,
    /// and the ad's id appended to the watch record of `account`.
    pub open spec fn with_watch(self, ad_id: u128, slot: int, account: Seq<char>) -> LedgerView {
        let ad = self.watched_once_more(ad_id);
        LedgerView {
            ads: self.ads.update(ad_id - 1, ad),
            ads_by_key: self.ads_by_key.insert(ad.ad_key, ad),
            ads_watched: self.ads_watched.insert(account, self.watch_record(account).push(ad_id)),
            reservations: self.reservations.update(
                ad_id - 1,
                self.reservations[ad_id - 1].remove(slot),
            ),
            ..self
        }
    }

    /// Whether the payout of a conversion of `distancia_amount` fits in 128
    /// bits.
    pub open spec fn conversion_fits(
        self,
        distancia_amount: u128,
        milestone_cleared: bool,
    ) -> bool {
        convert_rate_fits(
            distancia_amount as int,
            self.distancia_price as int,
            self.percentage_milestone_completion_value as int,
            milestone_cleared,
        )
    }

    /// The base currency that `distancia_amount` of reward currency converts
    /// into under the present parameters.
    pub open spec fn near_amount(self, distancia_amount: u128, milestone_cleared: bool) -> int {
        convert_rate_spec(
            distancia_amount as int,
            self.distancia_price as int,
            self.percentage_milestone_completion_value as int,
            milestone_cleared,
        )
    }
}

impl LedgerView {
    /// No two ads share a key.
    pub proof fn lemma_ad_keys_distinct(self, i: int, j: int)
        requires
            self.ads_indexed(),
            0 <= i < self.ads.len(),
            0 <= j < self.ads.len(),
            self.ads[i].ad_key == self.ads[j].ad_key,
        ensures
            i == j,
    {
    }

    /// No two milestones share a key.
    pub proof fn lemma_milestone_keys_distinct(self, i: int, j: int)
        requires
            self.milestones_indexed(),
            0 <= i < self.milestones.len(),
            0 <= j < self.milestones.len(),
            self.milestones[i].milestone_key == self.milestones[j].milestone_key,
        ensures
            i == j,
    {
    }

    /// Appending an ad under a fresh key, with the next id and no watch
    /// counted, keeps the invariant.
    pub proof fn lemma_with_ad_wf(self, ad: AdView)
        requires
            self.wf(),
            !self.ads_by_key.contains_key(ad.ad_key),
            ad.id == self.ads.len() + 1,
            ad.watched_count == 0,
        ensures
            self.with_ad(ad).wf(),
    {
        let next = self.with_ad(ad);
        assert forall|i: int| #![trigger next.ads[i]] 0 <= i < next.ads.len() implies {
            &&& next.ads[i].id == i + 1
            &&& next.ads_by_key.contains_key(next.ads[i].ad_key)
            &&& next.ads_by_key[next.ads[i].ad_key] == next.ads[i]
        } by {
            if i < self.ads.len() {
                assert(next.ads[i] == self.ads[i]);
            }
        }
        assert forall|k: Seq<char>|
            #![trigger next.ads_by_key[k]]
            #![trigger next.ads_by_key.dom().contains(k)]
            next.ads_by_key.contains_key(k) implies {
            &&& next.ads_by_key[k].ad_key == k
            &&& 1 <= next.ads_by_key[k].id <= next.ads.len()
            &&& next.ads[next.ads_by_key[k].id - 1] == next.ads_by_key[k]
        } by {
            if k != ad.ad_key {
                assert(self.ads_by_key.contains_key(k));
                assert(next.ads[self.ads_by_key[k].id - 1] == self.ads[self.ads_by_key[k].id - 1]);
            }
        }
        assert forall|i: int|
            #![trigger next.ads[i]]
            #![trigger next.reservations[i]]
            0 <= i < next.ads.len() implies next.ads[i].watched_count + next.reservations[i].len()
            <= next.ads[i].watchers_allowed by {
            if i < self.ads.len() {
                assert(next.ads[i] == self.ads[i]);
                assert(next.reservations[i] == self.reservations[i]);
            }
        }
        assert forall|account: Seq<char>, n: int|
            #![trigger next.ads_watched[account][n]]
            next.ads_watched.contains_key(account) && 0 <= n < next.ads_watched[account].len()
            implies 1 <= next.ads_watched[account][n] <= next.ads.len() by {
            assert(1 <= self.ads_watched[account][n] <= self.ads.len());
        }
    }

    /// Appending a milestone under a fresh key, with the next id, keeps the
    /// invariant.
    pub proof fn lemma_with_milestone_wf(self, milestone: MilestoneView)
        requires
            self.wf(),
            !self.milestones_by_key.contains_key(milestone.milestone_key),
            milestone.id == self.milestones.len() + 1,
        ensures
            self.with_milestone(milestone).wf(),
    {
        let next = self.with_milestone(milestone);
        assert forall|i: int|
            #![trigger next.milestones[i]]
            0 <= i < next.milestones.len() implies {
            &&& next.milestones[i].id == i + 1
            &&& next.milestones_by_key.contains_key(next.milestones[i].milestone_key)
            &&& next.milestones_by_key[next.milestones[i].milestone_key] == next.milestones[i]
        } by {
            if i < self.milestones.len() {
                assert(next.milestones[i] == self.milestones[i]);
            }
        }
        assert forall|k: Seq<char>|
            #![trigger next.milestones_by_key[k]]
            #![trigger next.milestones_by_key.dom().contains(k)]
            next.milestones_by_key.contains_key(k) implies {
            &&& next.milestones_by_key[k].milestone_key == k
            &&& 1 <= next.milestones_by_key[k].id <= next.milestones.len()
            &&& next.milestones[next.milestones_by_key[k].id - 1] == next.milestones_by_key[k]
        } by {
            if k != milestone.milestone_key {
                assert(self.milestones_by_key.contains_key(k));
                assert(next.milestones[self.milestones_by_key[k].id - 1]
                    == self.milestones[self.milestones_by_key[k].id - 1]);
            }
        }
    }

    /// Holding one more slot of an ad that has a slot free keeps the
    /// invariant: the watches counted and reserved stay within what the ad
    /// pays for.
    pub proof fn lemma_with_reservation_wf(
        self,
        ad_id: u128,
        account: Seq<char>,
        now: u64,
        expires_at: u64,
    )
        requires
            self.wf(),
            1 <= ad_id <= self.ads.len(),
            self.slots_taken(self.ads[ad_id - 1], now) < self.ads[ad_id - 1].watchers_allowed,
        ensures
            self.with_reservation(ad_id, account, now, expires_at).wf(),
    {
        let next = self.with_reservation(ad_id, account, now, expires_at);
        assert(self.ads[ad_id - 1].id == ad_id);
        assert forall|i: int|
            #![trigger next.ads[i]]
            #![trigger next.reservations[i]]
            0 <= i < next.ads.len() implies next.ads[i].watched_count + next.reservations[i].len()
            <= next.ads[i].watchers_allowed by {
            assert(next.ads[i] == self.ads[i]);
            if i != ad_id - 1 {
                assert(next.reservations[i] == self.reservations[i]);
            }
        }
    }

    /// Giving up a reservation keeps the invariant.
    pub proof fn lemma_without_reservation_wf(self, ad_id: u128, slot: int)
        requires
            self.wf(),
            1 <= ad_id <= self.ads.len(),
            0 <= slot < self.reservations[ad_id - 1].len(),
        ensures
            self.without_reservation(ad_id, slot).wf(),
    {
        let next = self.without_reservation(ad_id, slot);
        assert forall|i: int|
            #![trigger next.ads[i]]
            #![trigger next.reservations[i]]
            0 <= i < next.ads.len() implies next.ads[i].watched_count + next.reservations[i].len()
            <= next.ads[i].watchers_allowed by {
            assert(next.ads[i] == self.ads[i]);
            if i != ad_id - 1 {
                assert(next.reservations[i] == self.reservations[i]);
            }
        }
    }

    /// Turning a reservation into a watch keeps the invariant: the slot that
    /// was held is the slot that is counted.
    pub proof fn lemma_with_watch_wf(self, ad_id: u128, slot: int, account: Seq<char>)
        requires
            self.wf(),
            1 <= ad_id <= self.ads.len(),
            0 <= slot < self.reservations[ad_id - 1].len(),
        ensures
            self.with_watch(ad_id, slot, account).wf(),
            self.watched_once_more(ad_id).watched_count == self.ads[ad_id - 1].watched_count + 1,
    {
        let next = self.with_watch(ad_id, slot, account);
        let at = ad_id - 1;
        let ad = self.watched_once_more(ad_id);
        assert(self.ads[at].id == ad_id);
        assert(self.ads[at].watched_count + self.reservations[at].len()
            <= self.ads[at].watchers_allowed);
        assert forall|i: int| #![trigger next.ads[i]] 0 <= i < next.ads.len() implies {
            &&& next.ads[i].id == i + 1
            &&& next.ads_by_key.contains_key(next.ads[i].ad_key)
            &&& next.ads_by_key[next.ads[i].ad_key] == next.ads[i]
        } by {
            if i != at {
                assert(next.ads[i] == self.ads[i]);
                if self.ads[i].ad_key == ad.ad_key {
                    self.lemma_ad_keys_distinct(i, at);
                }
            }
        }
        assert forall|k: Seq<char>|
            #![trigger next.ads_by_key[k]]
            #![trigger next.ads_by_key.dom().contains(k)]
            next.ads_by_key.contains_key(k) implies {
            &&& next.ads_by_key[k].ad_key == k
            &&& 1 <= next.ads_by_key[k].id <= next.ads.len()
            &&& next.ads[next.ads_by_key[k].id - 1] == next.ads_by_key[k]
        } by {
            if k != ad.ad_key {
                assert(self.ads_by_key.contains_key(k));
                let other = self.ads_by_key[k].id - 1;
                assert(self.ads[other] == self.ads_by_key[k]);
                assert(other != at);
                assert(next.ads[other] == self.ads[other]);
            }
        }
        assert forall|i: int|
            #![trigger next.ads[i]]
            #![trigger next.reservations[i]]
            0 <= i < next.ads.len() implies next.ads[i].watched_count + next.reservations[i].len()
            <= next.ads[i].watchers_allowed by {
            if i != at {
                assert(next.ads[i] == self.ads[i]);
                assert(next.reservations[i] == self.reservations[i]);
            }
        }
        assert forall|a: Seq<char>, n: int|
            #![trigger next.ads_watched[a][n]]
            next.ads_watched.contains_key(a) && 0 <= n < next.ads_watched[a].len() implies 1
            <= next.ads_watched[a][n] <= next.ads.len() by {
            if a == account {
                if n < self.watch_record(account).len() {
                    assert(self.ads_watched.contains_key(account));
                    assert(next.ads_watched[a][n] == self.ads_watched[account][n]);
                }
            } else {
                assert(1 <= self.ads_watched[a][n] <= self.ads.len());
            }
        }
    }
}

impl LedgerView {
    /// In every state of the ledger, no ad has more watches counted than it
    /// pays for, whichever path it is read by, and however many mint requests
    /// are under way.
    pub proof fn lemma_watched_within_cap(self)
        requires
            self.wf(),
        ensures
            forall|i: int|
                0 <= i < self.ads.len() ==> (#[trigger] self.ads[i]).watched_count
                    <= self.ads[i].watchers_allowed,
            forall|k: Seq<char>|
                self.ads_by_key.contains_key(k) ==> (#[trigger] self.ads_by_key[k]).watched_count
                    <= self.ads_by_key[k].watchers_allowed,
    {
        assert forall|k: Seq<char>| self.ads_by_key.contains_key(k) implies (
        #[trigger] self.ads_by_key[k]).watched_count <= self.ads_by_key[k].watchers_allowed by {
            let i = self.ads_by_key[k].id - 1;
            assert(self.ads[i] == self.ads_by_key[k]);
        }
    }

    /// An ad that is priced while the price does not exceed the milestone
    /// bonus factor cannot pay out more than its budget: its per-watch reward
    /// times its watcher cap is at most the deposit less the commission.
    pub proof fn lemma_priced_ad_within_budget(
        self,
        key: Seq<char>,
        metadata: Seq<char>,
        value: u128,
        caller: Seq<char>,
    )
        requires
            self.wf(),
            self.pricing_fits(value),
            self.distancia_price * PERCENT_SCALE <= PERCENT_SCALE
                + self.percentage_milestone_completion_value,
        ensures
            self.priced_ad(key, metadata, value, caller).watch_value * self.priced_ad(
                key,
                metadata,
                value,
                caller,
            ).watchers_allowed <= self.amount_to_pay(value),
    {
        let budget = self.amount_to_pay(value);
        let share = self.percentage_ad_watch_value as int;
        let reward = per_watch_reward_spec(
            budget,
            share,
            self.distancia_price as int,
            self.percentage_milestone_completion_value as int,
        );
        let numerator = budget * share * self.distancia_price;
        let cap = watcher_cap_spec(share);
        assert(0 <= budget) by (nonlinear_arith)
            requires
                budget == value * (PERCENT_SCALE - self.percentage_commission_value) / (
                PERCENT_SCALE as int),
                self.percentage_commission_value <= PERCENT_SCALE,
                PERCENT_SCALE == 1_000_000,
        ;
        assert(0 <= numerator) by (nonlinear_arith)
            requires
                numerator == budget * share * self.distancia_price,
                0 <= budget,
                0 <= share,
        ;
        assert(0 <= reward <= numerator) by (nonlinear_arith)
            requires
                reward == numerator / (PERCENT_SCALE + self.percentage_milestone_completion_value),
                0 <= numerator,
                PERCENT_SCALE == 1_000_000,
        ;
        assert(0 <= cap <= PERCENT_SCALE) by (nonlinear_arith)
            requires
                cap == (PERCENT_SCALE as int) / share,
                share > 0,
                PERCENT_SCALE == 1_000_000,
        ;
        lemma_rewards_within_budget(
            budget as nat,
            self.percentage_ad_watch_value as nat,
            self.distancia_price as nat,
            self.percentage_milestone_completion_value as nat,
        );
    }

    /// An ad whose every watch is counted refuses anyone but its owner with
    /// `RewardExhausted`, at any reading of the clock: no request is made for
    /// it.
    pub proof fn lemma_exhausted_ad_refuses(self, ad: AdView, caller: Seq<char>, now: u64)
        requires
            ad.watched_count == ad.watchers_allowed,
            ad.owner != caller,
        ensures
            self.watch_refusal(ad, caller, now) == Some(LedgerError::RewardExhausted),
    {
    }

    /// A confirmed mint counts once: the viewer's watch record gains exactly
    /// one entry, the ad's id, at its end; the ad gains exactly one watch; and
    /// no other watch record and no other ad changes.
    pub proof fn lemma_watch_counted_once(self, ad_id: u128, slot: int, account: Seq<char>)
        requires
            self.wf(),
            1 <= ad_id <= self.ads.len(),
            0 <= slot < self.reservations[ad_id - 1].len(),
        ensures
            self.with_watch(ad_id, slot, account).watch_record(account) == self.watch_record(
                account,
            ).push(ad_id),
            self.with_watch(ad_id, slot, account).ads[ad_id - 1].watched_count
                == self.ads[ad_id - 1].watched_count + 1,
            forall|other: Seq<char>|
                other != account ==> #[trigger] self.with_watch(ad_id, slot, account).watch_record(
                    other,
                ) == self.watch_record(other),
            forall|i: int|
                0 <= i < self.ads.len() && i != ad_id - 1 ==> #[trigger] self.with_watch(
                    ad_id,
                    slot,
                    account,
                ).ads[i] == self.ads[i],
    {
        self.lemma_with_watch_wf(ad_id, slot, account);
    }

    /// A failed mint counts nothing: no ad and no watch record changes, only
    /// the slot that was held is free again.
    pub proof fn lemma_failed_mint_counts_nothing(self, ad_id: u128, slot: int)
        requires
            self.wf(),
            1 <= ad_id <= self.ads.len(),
            0 <= slot < self.reservations[ad_id - 1].len(),
        ensures
            self.without_reservation(ad_id, slot).ads == self.ads,
            self.without_reservation(ad_id, slot).ads_by_key == self.ads_by_key,
            self.without_reservation(ad_id, slot).ads_watched == self.ads_watched,
            self.without_reservation(ad_id, slot).reservations[ad_id - 1].len()
                == self.reservations[ad_id - 1].len() - 1,
    {
    }
}

/// A row in which every reservation has lapsed at `now` holds no slot at
/// `now`.
pub proof fn lemma_lapsed_row_is_free(row: Seq<ReservationView>, now: u64)
    requires
        forall|j: int| 0 <= j < row.len() ==> (#[trigger] row[j]).expires_at <= now,
    ensures
        live_reservations(row, now).len() == 0,
    decreases row.len(),
{
    reveal(Seq::filter);
    if row.len() > 0 {
        assert forall|j: int| 0 <= j < row.drop_last().len() implies (
        #[trigger] row.drop_last()[j]).expires_at <= now by {
            assert(row.drop_last()[j] == row[j]);
        }
        lemma_lapsed_row_is_free(row.drop_last(), now);
        assert(!row.last().live_at(now));
    }
}

impl LedgerView {
    /// Whether `self` can come after `before`: every ad and every milestone
    /// of `before` is still there, under the same id and key and with the
    /// same contents, but for an ad's watch count, which has not gone down;
    /// and every watch record of `before` is still there, with nothing taken
    /// out and nothing put in but at its end.
    pub open spec fn follows(self, before: LedgerView) -> bool {
        &&& before.ads.len() <= self.ads.len()
        &&& forall|i: int|
            #![trigger self.ads[i]]
            #![trigger before.ads[i]]
            0 <= i < before.ads.len() ==> {
                &&& self.ads[i] == (AdView {
                    watched_count: self.ads[i].watched_count,
                    ..before.ads[i]
                })
                &&& before.ads[i].watched_count <= self.ads[i].watched_count
            }
        &&& before.milestones.len() <= self.milestones.len()
        &&& forall|i: int|
            #![trigger self.milestones[i]]
            #![trigger before.milestones[i]]
            0 <= i < before.milestones.len() ==> self.milestones[i] == before.milestones[i]
        &&& forall|account: Seq<char>|
            #![trigger self.watch_record(account)]
            #![trigger before.watch_record(account)]
            before.watch_record(account).is_prefix_of(self.watch_record(account))
    }

    /// Every state comes after itself.
    pub proof fn lemma_follows_itself(self)
        ensures
            self.follows(self),
    {
    }

    /// What comes after a state that came after another, comes after that
    /// other.
    pub proof fn lemma_follows_on(self, middle: LedgerView, first: LedgerView)
        requires
            self.follows(middle),
            middle.follows(first),
        ensures
            self.follows(first),
    {
        assert forall|i: int|
            #![trigger self.ads[i]]
            #![trigger first.ads[i]]
            0 <= i < first.ads.len() implies {
            &&& self.ads[i] == (AdView { watched_count: self.ads[i].watched_count, ..first.ads[i] })
            &&& first.ads[i].watched_count <= self.ads[i].watched_count
        } by {
            assert(middle.ads[i].watched_count >= first.ads[i].watched_count);
            assert(self.ads[i].watched_count >= middle.ads[i].watched_count);
        }
        assert forall|i: int|
            #![trigger self.milestones[i]]
            #![trigger first.milestones[i]]
            0 <= i < first.milestones.len() implies self.milestones[i] == first.milestones[i] by {
            assert(middle.milestones[i] == first.milestones[i]);
        }
        assert forall|account: Seq<char>|
            #![trigger self.watch_record(account)]
            #![trigger first.watch_record(account)]
            first.watch_record(account).is_prefix_of(self.watch_record(account)) by {
            assert(first.watch_record(account).is_prefix_of(middle.watch_record(account)));
            assert(middle.watch_record(account).is_prefix_of(self.watch_record(account)));
        }
    }

    /// Uploading an ad takes nothing away and changes nothing that was there.
    pub proof fn lemma_with_ad_follows(self, ad: AdView)
        ensures
            self.with_ad(ad).follows(self),
    {
    }

    /// Creating a milestone takes nothing away and changes nothing that was
    /// there.
    pub proof fn lemma_with_milestone_follows(self, milestone: MilestoneView)
        ensures
            self.with_milestone(milestone).follows(self),
    {
    }

    /// Counting a watch changes one ad's watch count and one watch record's
    /// end, and nothing else that was there.
    pub proof fn lemma_with_watch_follows(self, ad_id: u128, slot: int, account: Seq<char>)
        requires
            self.wf(),
            1 <= ad_id <= self.ads.len(),
            0 <= slot < self.reservations[ad_id - 1].len(),
        ensures
            self.with_watch(ad_id, slot, account).follows(self),
    {
        self.lemma_with_watch_wf(ad_id, slot, account);
    }

    /// Every ad is reached by its id and by its key alike, with the same
    /// contents.
    pub proof fn lemma_reached_both_ways(self, i: int)
        requires
            self.wf(),
            0 <= i < self.ads.len(),
        ensures
            self.ads[i].id == i + 1,
            self.ad_by_key(self.ads[i].ad_key) == Some(self.ads[i]),
    {
    }

    /// An upload under a key that is taken is refused with `DuplicateKey`,
    /// whatever is attached.
    pub proof fn lemma_duplicate_upload_refused(self, key: Seq<char>, value: u128)
        requires
            self.ads_by_key.contains_key(key),
        ensures
            self.upload_refusal(key, value) == Some(LedgerError::DuplicateKey),
    {
    }

    /// Under a fresh key, a deposit below the minimum is refused with
    /// `ValueTooLow`, and a deposit of the minimum or more is only refused if
    /// it cannot be priced.
    pub proof fn lemma_upload_value_boundary(self, key: Seq<char>, value: u128)
        requires
            !self.ads_by_key.contains_key(key),
        ensures
            value < self.minimum_ad_value ==> self.upload_refusal(key, value) == Some(
                LedgerError::ValueTooLow,
            ),
            value >= self.minimum_ad_value && self.pricing_fits(value) ==> self.upload_refusal(
                key,
                value,
            ) is None,
    {
    }

    /// The owner of an ad is refused the reward for watching it with
    /// `SelfRewardForbidden`, whatever the state of the ad.
    pub proof fn lemma_owner_watch_refused(self, ad: AdView, now: u64)
        ensures
            self.watch_refusal(ad, ad.owner, now) == Some(LedgerError::SelfRewardForbidden),
    {
    }

    /// A slot does not stay held for ever: once every reservation of an ad
    /// has lapsed, the ad admits a viewer again as long as it has a watch
    /// left to count.
    pub proof fn lemma_lapsed_slots_are_free(self, ad: AdView, caller: Seq<char>, now: u64)
        requires
            ad.owner != caller,
            ad.watched_count < ad.watchers_allowed,
            forall|j: int|
                0 <= j < self.reservations[ad.id - 1].len() ==> (
                #[trigger] self.reservations[ad.id - 1][j]).expires_at <= now,
        ensures
            self.watch_refusal(ad, caller, now) is None,
    {
        lemma_lapsed_row_is_free(self.reservations[ad.id - 1], now);
    }
}

} // verus!
