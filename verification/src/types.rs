//! The entities of the ledger, the requests it hands to the host, and the
//! reasons for which an operation is refused.

use vstd::prelude::*;

verus! {

/// Why an operation was refused, or what an outside request came back with.
#[derive(Clone, Copy, Debug, PartialEq, Eq, Structural)]
pub enum LedgerError {
    /// The caller is not the configured owner.
    NotAuthorized,
    /// An entity with this key exists already.
    DuplicateKey,
    /// The attached deposit is below the minimum ad value.
    ValueTooLow,
    /// The owner of an ad asked to be rewarded for watching it.
    SelfRewardForbidden,
    /// Every watch that the ad pays for is taken or reserved.
    RewardExhausted,
    /// No milestone has this key.
    MilestoneNotFound,
    /// A parameter with which a pricing formula cannot be evaluated.
    InvalidParameter,
    /// A reward or a payout does not fit in 128 bits.
    AmountOverflow,
    /// An outcome arrived for which no reservation is pending.
    ReservationNotFound,
    /// The token service reported that it did not mint.
    MintFailed,
    /// The token service reported that it did not burn.
    BurnFailed,
    /// What was handed in to make a ledger of is not the snapshot of one.
    InvalidSnapshot,
}

impl LedgerError {
    /// The sentence that `message` gives for each reason.
    pub open spec fn message_spec(self) -> Seq<char> {
        match self {
            LedgerError::NotAuthorized => "Not authorized"@,
            LedgerError::DuplicateKey => "Supplied key already exists"@,
            LedgerError::ValueTooLow => "Ad value offered is very low"@,
            LedgerError::SelfRewardForbidden => "Can not get benefits from ads watched."@,
            LedgerError::RewardExhausted => "Value on ad already fully redeemed"@,
            LedgerError::MilestoneNotFound => "Milestone doesnt exist"@,
            LedgerError::InvalidParameter => "Parameter out of range"@,
            LedgerError::AmountOverflow => "Amount does not fit in 128 bits"@,
            LedgerError::ReservationNotFound => "No reservation is pending for this outcome"@,
            LedgerError::MintFailed => "Token service did not mint"@,
            LedgerError::BurnFailed => "Token service did not burn"@,
            LedgerError::InvalidSnapshot => "Stored state is not a ledger"@,
        }
    }

    /// The reason as a sentence for whoever made the call.
    pub fn message(&self) -> (r: &'static str)
        ensures
            r@ == self.message_spec(),
    {
        match self {
            LedgerError::NotAuthorized => "Not authorized",
            LedgerError::DuplicateKey => "Supplied key already exists",
            LedgerError::ValueTooLow => "Ad value offered is very low",
            LedgerError::SelfRewardForbidden => "Can not get benefits from ads watched.",
            LedgerError::RewardExhausted => "Value on ad already fully redeemed",
            LedgerError::MilestoneNotFound => "Milestone doesnt exist",
            LedgerError::InvalidParameter => "Parameter out of range",
            LedgerError::AmountOverflow => "Amount does not fit in 128 bits",
            LedgerError::ReservationNotFound => "No reservation is pending for this outcome",
            LedgerError::MintFailed => "Token service did not mint",
            LedgerError::BurnFailed => "Token service did not burn",
            LedgerError::InvalidSnapshot => "Stored state is not a ledger",
        }
    }
}

/// A funded advertisement.
#[derive(Debug, PartialEq, Eq)]
pub struct Ad {
    pub id: u128,
    pub metadata: String,
    pub owner: String,
    pub ad_key: String,
    pub value: u128,
    pub watch_value: u128,
    pub watchers_allowed: u128,
    pub watched_count: u128,
}

/// What an `Ad` holds, with its strings as character sequences.
pub struct AdView {
    pub id: u128,
    pub metadata: Seq<char>,
    pub owner: Seq<char>,
    pub ad_key: Seq<char>,
    pub value: u128,
    pub watch_value: u128,
    pub watchers_allowed: u128,
    pub watched_count: u128,
}

impl View for Ad {
    type V = AdView;

    open spec fn view(&self) -> AdView {
        AdView {
            id: self.id,
            metadata: self.metadata@,
            owner: self.owner@,
            ad_key: self.ad_key@,
            value: self.value,
            watch_value: self.watch_value,
            watchers_allowed: self.watchers_allowed,
            watched_count: self.watched_count,
        }
    }
}

impl Clone for Ad {
    fn clone(&self) -> (r: Ad)
        ensures
            r@ == self@,
    {
        Ad {
            id: self.id,
            metadata: self.metadata.clone(),
            owner: self.owner.clone(),
            ad_key: self.ad_key.clone(),
            value: self.value,
            watch_value: self.watch_value,
            watchers_allowed: self.watchers_allowed,
            watched_count: self.watched_count,
        }
    }
}

/// A target of a fixed value in reward currency.
#[derive(Debug, PartialEq, Eq)]
pub struct Milestone {
    pub id: u128,
    pub milestone_key: String,
    pub value: u128,
}

/// What a `Milestone` holds, with its key as a character sequence.
pub struct MilestoneView {
    pub id: u128,
    pub milestone_key: Seq<char>,
    pub value: u128,
}

impl View for Milestone {
    type V = MilestoneView;

    open spec fn view(&self) -> MilestoneView {
        MilestoneView { id: self.id, milestone_key: self.milestone_key@, value: self.value }
    }
}

impl Clone for Milestone {
    fn clone(&self) -> (r: Milestone)
        ensures
            r@ == self@,
    {
        Milestone { id: self.id, milestone_key: self.milestone_key.clone(), value: self.value }
    }
}

/// A watch slot of an ad that is held for a viewer while a mint request is
/// under way. It lapses once the host's clock reaches `expires_at`.
#[derive(Debug, PartialEq, Eq)]
pub struct Reservation {
    pub account: String,
    pub expires_at: u64,
}

/// What a `Reservation` holds, with the account as a character sequence.
pub struct ReservationView {
    pub account: Seq<char>,
    pub expires_at: u64,
}

impl View for Reservation {
    type V = ReservationView;

    open spec fn view(&self) -> ReservationView {
        ReservationView { account: self.account@, expires_at: self.expires_at }
    }
}

impl ReservationView {
    /// Whether the reservation still holds its slot at `now`.
    pub open spec fn live_at(self, now: u64) -> bool {
        now < self.expires_at
    }
}

/// The ads that one viewer was rewarded for, by id, oldest first.
#[derive(Debug, PartialEq, Eq)]
pub struct WatchRecord {
    pub account: String,
    pub ad_ids: Vec<u128>,
}

/// A request to the token service to mint `amount` of reward currency for
/// `account`, for a watch of the ad `ad_id`.
#[derive(Debug, PartialEq, Eq)]
pub struct MintRequest {
    pub account: String,
    pub amount: u128,
    pub ad_id: u128,
}

/// A request to the token service to burn `amount` of reward currency of
/// `account`. `near_amount` is the base currency owed once the burn is
/// confirmed.
#[derive(Debug, PartialEq, Eq)]
pub struct BurnRequest {
    pub account: String,
    pub amount: u128,
    pub near_amount: u128,
}

/// A transfer of `amount` of base currency to `account`.
#[derive(Debug, PartialEq, Eq)]
pub struct Payout {
    pub account: String,
    pub amount: u128,
}

/// What a sequence of ads holds, in the same order.
pub open spec fn ad_views(ads: Seq<Ad>) -> Seq<AdView> {
    ads.map_values(|a: Ad| a@)
}

/// What a sequence of milestones holds, in the same order.
pub open spec fn milestone_views(milestones: Seq<Milestone>) -> Seq<MilestoneView> {
    milestones.map_values(|m: Milestone| m@)
}

/// What a sequence of reservations holds, in the same order.
pub open spec fn reservation_views(row: Seq<Reservation>) -> Seq<ReservationView> {
    row.map_values(|r: Reservation| r@)
}

/// What the rows of reservations hold, one row for each ad, in the same order.
pub open spec fn reservation_rows(rows: Seq<Vec<Reservation>>) -> Seq<Seq<ReservationView>> {
    rows.map_values(|row: Vec<Reservation>| reservation_views(row@))
}

/// The viewers of a sequence of watch records, in the same order.
pub open spec fn record_accounts(records: Seq<WatchRecord>) -> Seq<Seq<char>> {
    records.map_values(|r: WatchRecord| r.account@)
}

/// The ids listed in each of a sequence of watch records, in the same order.
pub open spec fn record_ids(records: Seq<WatchRecord>) -> Seq<Seq<u128>> {
    records.map_values(|r: WatchRecord| r.ad_ids@)
}

} // verus!
