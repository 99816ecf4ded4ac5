use distancia::ledger::Distancia;
use distancia::types::LedgerError;

fn ledger() -> Distancia {
    Distancia::new(2, 1_000, 100_000, 200_000, 100_000, "ledger.near".to_string(), "owner.near".to_string())
        .unwrap()
}

fn owner() -> String {
    "owner.near".to_string()
}

fn stranger() -> String {
    "bob.near".to_string()
}

/// The parameters as an upload and two conversions show them.
fn observed(ledger: &mut Distancia) -> (u128, u128, u128, u128, bool) {
    let plain = ledger.convert_distancia(1_200_000, false, stranger()).unwrap().near_amount;
    let bonus = ledger.convert_distancia(1_200_000, true, stranger()).unwrap().near_amount;
    let n = ledger.get_ads().len();
    let at_minimum_less_one = ledger
        .upload_ad(format!("probe-low-{}", n), "m".to_string(), 999, "adv.near".to_string())
        .is_ok();
    let ad = ledger
        .upload_ad(format!("probe-{}", n), "m".to_string(), 10_000_000, "adv.near".to_string())
        .unwrap();
    (plain, bonus, ad.watch_value, ad.watchers_allowed, at_minimum_less_one)
}

#[test]
fn setters_by_a_stranger_fail_and_change_nothing() {
    let mut ledger = ledger();
    let before = observed(&mut ledger);
    assert_eq!(ledger.set_minimum_ad_value(1, stranger()), Err(LedgerError::NotAuthorized));
    assert_eq!(ledger.set_percentage_ad_watch_value(500_000, stranger()), Err(LedgerError::NotAuthorized));
    assert_eq!(ledger.set_percentage_commission_value(0, stranger()), Err(LedgerError::NotAuthorized));
    assert_eq!(
        ledger.set_percentage_milestone_completion_value(0, stranger()),
        Err(LedgerError::NotAuthorized)
    );
    assert_eq!(ledger.set_distancia_price(7, stranger()), Err(LedgerError::NotAuthorized));
    assert_eq!(ledger.get_distancia_price(), 2);
    assert_eq!(observed(&mut ledger), before);
}

#[test]
fn the_contract_account_is_not_the_owner() {
    let mut ledger = ledger();
    assert_eq!(ledger.set_distancia_price(7, "ledger.near".to_string()), Err(LedgerError::NotAuthorized));
    assert_eq!(ledger.get_distancia_price(), 2);
}

#[test]
fn stranger_is_refused_before_the_value_is_looked_at() {
    let mut ledger = ledger();
    assert_eq!(ledger.set_distancia_price(0, stranger()), Err(LedgerError::NotAuthorized));
    assert_eq!(ledger.set_percentage_ad_watch_value(0, stranger()), Err(LedgerError::NotAuthorized));
    assert_eq!(
        ledger.set_percentage_commission_value(2_000_000, stranger()),
        Err(LedgerError::NotAuthorized)
    );
    assert_eq!(
        ledger.set_percentage_milestone_completion_value(u128::MAX, stranger()),
        Err(LedgerError::NotAuthorized)
    );
}

#[test]
fn set_distancia_price_by_owner() {
    let mut ledger = ledger();
    assert_eq!(ledger.set_distancia_price(7, owner()), Ok(()));
    assert_eq!(ledger.get_distancia_price(), 7);
}

#[test]
fn set_distancia_price_to_zero_is_refused() {
    let mut ledger = ledger();
    assert_eq!(ledger.set_distancia_price(0, owner()), Err(LedgerError::InvalidParameter));
    assert_eq!(ledger.get_distancia_price(), 2);
    assert_eq!(ledger.convert_distancia(1_200, false, stranger()).unwrap().near_amount, 600);
}

#[test]
fn set_minimum_ad_value_by_owner() {
    let mut ledger = ledger();
    assert_eq!(ledger.set_minimum_ad_value(5_000, owner()), Ok(()));
    assert_eq!(
        ledger.upload_ad("a".to_string(), "m".to_string(), 4_999, "adv.near".to_string()),
        Err(LedgerError::ValueTooLow)
    );
    assert!(ledger.upload_ad("a".to_string(), "m".to_string(), 5_000, "adv.near".to_string()).is_ok());
    assert_eq!(ledger.set_minimum_ad_value(0, owner()), Ok(()));
    assert!(ledger.upload_ad("b".to_string(), "m".to_string(), 0, "adv.near".to_string()).is_ok());
}

#[test]
fn set_percentage_ad_watch_value_by_owner() {
    let mut ledger = ledger();
    assert_eq!(ledger.set_percentage_ad_watch_value(250_000, owner()), Ok(()));
    let ad = ledger.upload_ad("a".to_string(), "m".to_string(), 10_000, "adv.near".to_string()).unwrap();
    assert_eq!(ad.watchers_allowed, 4);
    // 9000 * 250000 * 2 / 1200000
    assert_eq!(ad.watch_value, 3_750);
}

#[test]
fn set_percentage_ad_watch_value_to_zero_is_refused() {
    let mut ledger = ledger();
    assert_eq!(ledger.set_percentage_ad_watch_value(0, owner()), Err(LedgerError::InvalidParameter));
    let ad = ledger.upload_ad("a".to_string(), "m".to_string(), 10_000, "adv.near".to_string()).unwrap();
    assert_eq!(ad.watchers_allowed, 10);
}

#[test]
fn set_percentage_commission_value_by_owner() {
    let mut ledger = ledger();
    assert_eq!(ledger.set_percentage_commission_value(500_000, owner()), Ok(()));
    let ad = ledger.upload_ad("a".to_string(), "m".to_string(), 10_000, "adv.near".to_string()).unwrap();
    // 5000 * 100000 * 2 / 1200000 = 833.3
    assert_eq!(ad.watch_value, 833);
    assert_eq!(ledger.set_percentage_commission_value(1_000_000, owner()), Ok(()));
    let ad = ledger.upload_ad("b".to_string(), "m".to_string(), 10_000, "adv.near".to_string()).unwrap();
    assert_eq!(ad.watch_value, 0);
}

#[test]
fn set_percentage_commission_value_above_the_whole_is_refused() {
    let mut ledger = ledger();
    assert_eq!(
        ledger.set_percentage_commission_value(1_000_001, owner()),
        Err(LedgerError::InvalidParameter)
    );
    let ad = ledger.upload_ad("a".to_string(), "m".to_string(), 10_000, "adv.near".to_string()).unwrap();
    assert_eq!(ad.watch_value, 1_500);
}

#[test]
fn set_percentage_milestone_completion_value_by_owner() {
    let mut ledger = ledger();
    assert_eq!(ledger.set_percentage_milestone_completion_value(500_000, owner()), Ok(()));
    // 1200 * 1500000 / 2000000
    assert_eq!(ledger.convert_distancia(1_200, true, stranger()).unwrap().near_amount, 900);
    assert_eq!(ledger.convert_distancia(1_200, false, stranger()).unwrap().near_amount, 600);
    let ad = ledger.upload_ad("a".to_string(), "m".to_string(), 10_000, "adv.near".to_string()).unwrap();
    // 9000 * 100000 * 2 / 1500000
    assert_eq!(ad.watch_value, 1_200);
}

#[test]
fn set_percentage_milestone_completion_value_beyond_128_bits_is_refused() {
    let mut ledger = ledger();
    assert_eq!(
        ledger.set_percentage_milestone_completion_value(u128::MAX, owner()),
        Err(LedgerError::InvalidParameter)
    );
    assert_eq!(
        ledger.set_percentage_milestone_completion_value(u128::MAX - 999_999, owner()),
        Err(LedgerError::InvalidParameter)
    );
    assert_eq!(ledger.convert_distancia(1_200, true, stranger()).unwrap().near_amount, 720);
    assert_eq!(ledger.set_percentage_milestone_completion_value(u128::MAX - 1_000_000, owner()), Ok(()));
    // 1200 * MAX / 2000000
    assert_eq!(
        ledger.convert_distancia(1_200, true, stranger()).unwrap().near_amount,
        204169420152563078078024764459060926u128
    );
    assert_eq!(ledger.convert_distancia(2_000_000, true, stranger()).unwrap().near_amount, u128::MAX);
    assert_eq!(ledger.convert_distancia(2_000_001, true, stranger()), Err(LedgerError::AmountOverflow));
    assert_eq!(ledger.convert_distancia(1_200, false, stranger()).unwrap().near_amount, 600);
}

#[test]
fn token_owner_is_the_contract_account_until_reported() {
    let mut ledger = ledger();
    assert_eq!(ledger.get_token_contract_owner(), "ledger.near");
    ledger.on_get_token_owner_callback("treasury.near".to_string());
    assert_eq!(ledger.get_token_contract_owner(), "treasury.near");
    ledger.on_get_token_owner_callback("ledger.near".to_string());
    assert_eq!(ledger.get_token_contract_owner(), "ledger.near");
}

#[test]
fn token_owner_does_not_become_the_ledger_owner() {
    let mut ledger = ledger();
    ledger.on_get_token_owner_callback("treasury.near".to_string());
    assert_eq!(ledger.set_distancia_price(7, "treasury.near".to_string()), Err(LedgerError::NotAuthorized));
    assert_eq!(ledger.set_distancia_price(7, owner()), Ok(()));
}
