use distancia::ledger::Distancia;
use distancia::snapshot::LedgerSnapshot;
use distancia::types::{Ad, LedgerError, Milestone, Reservation, WatchRecord};

fn ad(id: u128, key: &str, cap: u128, watched: u128) -> Ad {
    Ad {
        id,
        metadata: "meta".to_string(),
        owner: "adv.near".to_string(),
        ad_key: key.to_string(),
        value: 10_000,
        watch_value: 1_500,
        watchers_allowed: cap,
        watched_count: watched,
    }
}

fn held(account: &str, expires_at: u64) -> Reservation {
    Reservation { account: account.to_string(), expires_at }
}

/// A snapshot of a ledger with two ads, one milestone, one watch record and
/// one slot held.
fn sound() -> LedgerSnapshot {
    LedgerSnapshot {
        distancia_price: 2,
        minimum_ad_value: 1_000,
        percentage_ad_watch_value: 100_000,
        percentage_milestone_completion_value: 200_000,
        percentage_commission_value: 100_000,
        token_contract_owner: "treasury.near".to_string(),
        ads_watched: vec![WatchRecord { account: "bob.near".to_string(), ad_ids: vec![2, 1, 2] }],
        milestones: vec![Milestone { id: 1, milestone_key: "ten-km".to_string(), value: 1_200 }],
        ads: vec![ad(1, "a", 10, 1), ad(2, "b", 3, 2)],
        reservations: vec![vec![], vec![held("carol.near", 50)]],
        owner: "owner.near".to_string(),
    }
}

fn refused(snapshot: LedgerSnapshot) -> bool {
    !snapshot.is_valid() && Distancia::restore(snapshot).err() == Some(LedgerError::InvalidSnapshot)
}

#[test]
fn sound_snapshot_is_valid() {
    assert!(sound().is_valid());
}

#[test]
fn restore_gives_back_what_was_stored() {
    let ledger = Distancia::restore(sound()).unwrap();
    assert_eq!(ledger.get_ads(), sound().ads);
    assert_eq!(ledger.get_milestones(), sound().milestones);
    assert_eq!(ledger.get_distancia_price(), 2);
    assert_eq!(ledger.get_token_contract_owner(), "treasury.near");
    assert_eq!(ledger.get_ad_by_key("b".to_string()), Some(ad(2, "b", 3, 2)));
    let watched: Vec<u128> =
        ledger.get_ads_watched("bob.near".to_string()).iter().map(|ad| ad.id).collect();
    assert_eq!(watched, vec![2, 1, 2]);
    assert_eq!(ledger.into_snapshot(), sound());
}

#[test]
fn restored_ledger_keeps_the_slots_that_were_held() {
    let mut ledger = Distancia::restore(sound()).unwrap();
    // ad b: three watches paid for, two counted, one held by carol
    assert_eq!(
        ledger.ad_watched("b".to_string(), "dave.near".to_string(), 10, 100),
        Err(LedgerError::RewardExhausted)
    );
    assert_eq!(ledger.on_mint_tokens_callback(&"carol.near".to_string(), 2, true), Ok(()));
    assert_eq!(ledger.get_ad_by_key("b".to_string()).unwrap().watched_count, 3);
}

#[test]
fn restored_ledger_keeps_its_owner() {
    let mut ledger = Distancia::restore(sound()).unwrap();
    assert_eq!(ledger.set_distancia_price(3, "treasury.near".to_string()), Err(LedgerError::NotAuthorized));
    assert_eq!(ledger.set_distancia_price(3, "owner.near".to_string()), Ok(()));
}

#[test]
fn snapshot_round_trip_after_operations() {
    let mut ledger =
        Distancia::new(2, 1_000, 100_000, 200_000, 100_000, "ledger.near".to_string(), "owner.near".to_string())
            .unwrap();
    ledger.upload_ad("a".to_string(), "m".to_string(), 10_000, "adv.near".to_string()).unwrap();
    ledger.create_milestone("m".to_string(), 5, "owner.near".to_string()).unwrap();
    ledger.ad_watched("a".to_string(), "bob.near".to_string(), 0, 100).unwrap();
    ledger.ad_watched("a".to_string(), "carol.near".to_string(), 0, 100).unwrap();
    ledger.on_mint_tokens_callback(&"bob.near".to_string(), 1, true).unwrap();
    let snapshot = ledger.into_snapshot();
    assert!(snapshot.is_valid());
    assert_eq!(snapshot.ads.len(), 1);
    assert_eq!(snapshot.ads[0].watched_count, 1);
    assert_eq!(snapshot.reservations, vec![vec![held("carol.near", 100)]]);
    assert_eq!(
        snapshot.ads_watched,
        vec![WatchRecord { account: "bob.near".to_string(), ad_ids: vec![1] }]
    );
    let mut again = Distancia::restore(snapshot).unwrap();
    assert_eq!(again.on_mint_tokens_callback(&"carol.near".to_string(), 1, true), Ok(()));
    assert_eq!(again.get_ad_by_key("a".to_string()).unwrap().watched_count, 2);
}

#[test]
fn empty_snapshot_is_valid() {
    let mut s = sound();
    s.ads.clear();
    s.reservations.clear();
    s.milestones.clear();
    s.ads_watched.clear();
    assert!(s.is_valid());
    assert!(Distancia::restore(s).is_ok());
}

#[test]
fn snapshot_with_invalid_parameters_is_refused() {
    let mut s = sound();
    s.distancia_price = 0;
    assert!(refused(s));
    let mut s = sound();
    s.percentage_ad_watch_value = 0;
    assert!(refused(s));
    let mut s = sound();
    s.percentage_commission_value = 1_000_001;
    assert!(refused(s));
    let mut s = sound();
    s.percentage_milestone_completion_value = u128::MAX - 999_999;
    assert!(refused(s));
    let mut s = sound();
    s.percentage_milestone_completion_value = u128::MAX - 1_000_000;
    assert!(s.is_valid());
}

#[test]
fn snapshot_with_misnumbered_ads_is_refused() {
    let mut s = sound();
    s.ads[1].id = 3;
    assert!(refused(s));
    let mut s = sound();
    s.ads[0].id = 0;
    assert!(refused(s));
    let mut s = sound();
    s.ads.swap(0, 1);
    assert!(refused(s));
}

#[test]
fn snapshot_with_a_repeated_ad_key_is_refused() {
    let mut s = sound();
    s.ads[1].ad_key = "a".to_string();
    assert!(refused(s));
}

#[test]
fn snapshot_with_misnumbered_milestones_is_refused() {
    let mut s = sound();
    s.milestones[0].id = 2;
    assert!(refused(s));
}

#[test]
fn snapshot_with_a_repeated_milestone_key_is_refused() {
    let mut s = sound();
    s.milestones.push(Milestone { id: 2, milestone_key: "ten-km".to_string(), value: 7 });
    assert!(refused(s));
    let mut s = sound();
    s.milestones.push(Milestone { id: 2, milestone_key: "marathon".to_string(), value: 7 });
    assert!(s.is_valid());
}

#[test]
fn snapshot_with_more_watches_than_paid_for_is_refused() {
    let mut s = sound();
    s.ads[0].watched_count = 11;
    assert!(refused(s));
    let mut s = sound();
    s.ads[0].watched_count = 10;
    assert!(s.is_valid());
}

#[test]
fn snapshot_with_more_slots_than_paid_for_is_refused() {
    let mut s = sound();
    s.reservations[1].push(held("dave.near", 60));
    assert!(refused(s));
    let mut s = sound();
    s.ads[1].watched_count = u128::MAX;
    s.ads[1].watchers_allowed = u128::MAX;
    assert!(refused(s));
    let mut s = sound();
    s.ads[1].watched_count = u128::MAX - 1;
    s.ads[1].watchers_allowed = u128::MAX;
    assert!(s.is_valid());
}

#[test]
fn snapshot_without_a_row_of_slots_for_each_ad_is_refused() {
    let mut s = sound();
    s.reservations.pop();
    assert!(refused(s));
    let mut s = sound();
    s.reservations.push(vec![]);
    assert!(refused(s));
}

#[test]
fn snapshot_with_two_records_of_one_viewer_is_refused() {
    let mut s = sound();
    s.ads_watched.push(WatchRecord { account: "bob.near".to_string(), ad_ids: vec![] });
    assert!(refused(s));
    let mut s = sound();
    s.ads_watched.push(WatchRecord { account: "carol.near".to_string(), ad_ids: vec![] });
    assert!(s.is_valid());
}

#[test]
fn snapshot_with_a_record_of_an_unknown_ad_is_refused() {
    let mut s = sound();
    s.ads_watched[0].ad_ids.push(3);
    assert!(refused(s));
    let mut s = sound();
    s.ads_watched[0].ad_ids.push(0);
    assert!(refused(s));
}

#[test]
fn every_reason_has_its_own_message() {
    let reasons = [
        LedgerError::NotAuthorized,
        LedgerError::DuplicateKey,
        LedgerError::ValueTooLow,
        LedgerError::SelfRewardForbidden,
        LedgerError::RewardExhausted,
        LedgerError::MilestoneNotFound,
        LedgerError::InvalidParameter,
        LedgerError::AmountOverflow,
        LedgerError::ReservationNotFound,
        LedgerError::MintFailed,
        LedgerError::BurnFailed,
        LedgerError::InvalidSnapshot,
    ];
    for (i, a) in reasons.iter().enumerate() {
        assert!(!a.message().is_empty());
        for b in &reasons[i + 1..] {
            assert_ne!(a.message(), b.message());
        }
    }
    assert_eq!(LedgerError::NotAuthorized.message(), "Not authorized");
    assert_eq!(LedgerError::MilestoneNotFound.message(), "Milestone doesnt exist");
}
