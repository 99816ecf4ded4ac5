use distancia::ledger::Distancia;
use distancia::types::{BurnRequest, LedgerError, Payout};

fn ledger() -> Distancia {
    Distancia::new(2, 1_000, 100_000, 200_000, 100_000, "ledger.near".to_string(), "owner.near".to_string())
        .unwrap()
}

#[test]
fn convert_distancia_with_milestone_cleared() {
    let mut ledger = ledger();
    let request = ledger.convert_distancia(1_200, true, "bob.near".to_string());
    assert_eq!(
        request,
        Ok(BurnRequest { account: "bob.near".to_string(), amount: 1_200, near_amount: 720 })
    );
}

#[test]
fn convert_distancia_without_milestone() {
    let mut ledger = ledger();
    let request = ledger.convert_distancia(1_200, false, "bob.near".to_string());
    assert_eq!(
        request,
        Ok(BurnRequest { account: "bob.near".to_string(), amount: 1_200, near_amount: 600 })
    );
}

#[test]
fn convert_distancia_of_a_small_amount_owes_nothing() {
    let mut ledger = ledger();
    let request = ledger.convert_distancia(1, false, "bob.near".to_string()).unwrap();
    assert_eq!(request.amount, 1);
    assert_eq!(request.near_amount, 0);
    let request = ledger.convert_distancia(0, true, "bob.near".to_string()).unwrap();
    assert_eq!(request.near_amount, 0);
}

#[test]
fn convert_distancia_of_the_largest_amount() {
    let mut ledger = ledger();
    // MAX * 1.2 / 2 fits, though MAX * 1200000 does not
    assert_eq!(
        ledger.convert_distancia(u128::MAX, true, "bob.near".to_string()).unwrap().near_amount,
        204169420152563078078024764459060926873u128
    );
    assert_eq!(
        ledger.convert_distancia(u128::MAX, false, "bob.near".to_string()).unwrap().near_amount,
        u128::MAX / 2
    );
}

#[test]
fn convert_distancia_that_does_not_fit_is_refused() {
    let mut ledger = ledger();
    ledger.set_distancia_price(1, "owner.near".to_string()).unwrap();
    assert_eq!(
        ledger.convert_distancia(u128::MAX, true, "bob.near".to_string()),
        Err(LedgerError::AmountOverflow)
    );
    assert_eq!(
        ledger.convert_distancia(u128::MAX, false, "bob.near".to_string()).unwrap().near_amount,
        u128::MAX
    );
}

#[test]
fn convert_distancia_follows_the_price() {
    let mut ledger = ledger();
    ledger.set_distancia_price(4, "owner.near".to_string()).unwrap();
    assert_eq!(ledger.convert_distancia(1_200, false, "bob.near".to_string()).unwrap().near_amount, 300);
    assert_eq!(ledger.convert_distancia(1_200, true, "bob.near".to_string()).unwrap().near_amount, 360);
    ledger.set_percentage_milestone_completion_value(0, "owner.near".to_string()).unwrap();
    assert_eq!(ledger.convert_distancia(1_200, true, "bob.near".to_string()).unwrap().near_amount, 300);
}

#[test]
fn convert_distancia_changes_nothing() {
    let mut ledger = ledger();
    ledger.upload_ad("a".to_string(), "m".to_string(), 10_000, "adv.near".to_string()).unwrap();
    ledger.create_milestone("m".to_string(), 1_200, "owner.near".to_string()).unwrap();
    let ads = ledger.get_ads();
    let milestones = ledger.get_milestones();
    ledger.convert_distancia(1_200, true, "bob.near".to_string()).unwrap();
    assert_eq!(ledger.get_ads(), ads);
    assert_eq!(ledger.get_milestones(), milestones);
}

#[test]
fn clear_milestone_converts_its_value_with_the_bonus() {
    let mut ledger = ledger();
    ledger.create_milestone("ten-km".to_string(), 1_200, "owner.near".to_string()).unwrap();
    let request = ledger.clear_milestone("ten-km".to_string(), "bob.near".to_string());
    assert_eq!(
        request,
        Ok(BurnRequest { account: "bob.near".to_string(), amount: 1_200, near_amount: 720 })
    );
}

#[test]
fn clear_milestone_on_unknown_key_fails() {
    let mut ledger = ledger();
    ledger.create_milestone("ten-km".to_string(), 1_200, "owner.near".to_string()).unwrap();
    assert_eq!(
        ledger.clear_milestone("marathon".to_string(), "bob.near".to_string()),
        Err(LedgerError::MilestoneNotFound)
    );
    assert_eq!(
        ledger.clear_milestone("".to_string(), "owner.near".to_string()),
        Err(LedgerError::MilestoneNotFound)
    );
    assert_eq!(ledger.get_milestones().len(), 1);
}

#[test]
fn clear_milestone_on_empty_ledger_fails() {
    let mut ledger = ledger();
    assert_eq!(
        ledger.clear_milestone("ten-km".to_string(), "bob.near".to_string()),
        Err(LedgerError::MilestoneNotFound)
    );
}

#[test]
fn clear_milestone_leaves_the_milestone_clearable() {
    let mut ledger = ledger();
    let m = ledger.create_milestone("ten-km".to_string(), 1_200, "owner.near".to_string()).unwrap();
    let first = ledger.clear_milestone("ten-km".to_string(), "bob.near".to_string()).unwrap();
    let second = ledger.clear_milestone("ten-km".to_string(), "carol.near".to_string()).unwrap();
    assert_eq!(first.near_amount, second.near_amount);
    assert_eq!(second.account, "carol.near");
    assert_eq!(ledger.get_milestone_by_key("ten-km".to_string()), Some(m));
}

#[test]
fn clear_milestone_that_does_not_fit_is_refused() {
    let mut ledger = ledger();
    ledger.set_distancia_price(1, "owner.near".to_string()).unwrap();
    ledger.create_milestone("huge".to_string(), u128::MAX, "owner.near".to_string()).unwrap();
    assert_eq!(
        ledger.clear_milestone("huge".to_string(), "bob.near".to_string()),
        Err(LedgerError::AmountOverflow)
    );
    assert_eq!(ledger.get_milestones().len(), 1);
}

#[test]
fn confirmed_burn_releases_the_payout() {
    let mut ledger = ledger();
    let request = ledger.convert_distancia(1_200, true, "bob.near".to_string()).unwrap();
    let payout = ledger.on_burn_tokens_callback(request.account, request.near_amount, true);
    assert_eq!(payout, Ok(Payout { account: "bob.near".to_string(), amount: 720 }));
}

#[test]
fn failed_burn_releases_nothing() {
    let mut ledger = ledger();
    let request = ledger.convert_distancia(1_200, true, "bob.near".to_string()).unwrap();
    let payout = ledger.on_burn_tokens_callback(request.account, request.near_amount, false);
    assert_eq!(payout, Err(LedgerError::BurnFailed));
}
