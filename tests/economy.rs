use drew_clicker::click::{drew_click, resolve_click, ClickKind, ClickOutcome};
use drew_clicker::pricing::calculate_price;
use drew_clicker::purchase::{calculate_purchases, purchase, PurchaseOutcome};
use drew_clicker::state::Player;

fn player_with(droodles: u128) -> Player {
    let mut p = Player::new();
    p.droodles = droodles;
    p
}

fn income_sum(p: &Player) -> u128 {
    let mut sum = 0u128;
    for i in 0..4 {
        sum += p.autoclickers[i] * p.autoclicker_values[i];
    }
    sum
}

#[test]
fn price_with_none_owned_is_base() {
    assert_eq!(calculate_price(100, 0), Some(100));
}

#[test]
fn price_after_one_purchase() {
    assert_eq!(calculate_price(100, 1), Some(110));
}

#[test]
fn price_after_ten_purchases() {
    assert_eq!(calculate_price(100, 10), Some(400));
}

#[test]
fn price_of_higher_tier() {
    assert_eq!(calculate_price(1000, 5), Some(2010));
    assert_eq!(calculate_price(100000, 0), Some(100000));
}

#[test]
fn price_of_free_tier_stays_zero() {
    assert_eq!(calculate_price(0, 0), Some(0));
    assert_eq!(calculate_price(0, u128::MAX), Some(0));
}

#[test]
fn price_beyond_u128_is_none() {
    assert_eq!(calculate_price(1, 700), None);
    assert_eq!(calculate_price(100, u128::MAX), None);
    assert_eq!(calculate_price(u128::MAX, 1), None);
}

#[test]
fn price_large_but_in_range() {
    // 100 * 1.15^400 is about 1.8e26, far beyond 64 bits.
    let p = calculate_price(100, 400).unwrap();
    assert!(p > u64::MAX as u128);
    assert_eq!(p % 10, 0);
}

#[test]
fn price_never_decreases_and_rises_from_67() {
    for base in [67u128, 100, 1000, 10000, 100000] {
        let mut last = calculate_price(base, 0).unwrap();
        for n in 1..200u128 {
            let next = calculate_price(base, n).unwrap();
            assert!(next > last, "base {} owned {}", base, n);
            last = next;
        }
    }
}

#[test]
fn price_of_small_base_can_stall() {
    assert_eq!(calculate_price(10, 0), Some(10));
    assert_eq!(calculate_price(10, 1), Some(10));
}

#[test]
fn purchase_applied() {
    let mut p = player_with(150);
    let r = purchase(0, &mut p);
    assert_eq!(r, PurchaseOutcome::Applied { next_price: Some(110) });
    assert_eq!(p.droodles, 50);
    assert_eq!(p.autoclickers, [1, 0, 0, 0]);
    assert_eq!(p.dps, 1);
}

#[test]
fn purchase_unaffordable_changes_nothing() {
    let mut p = player_with(99);
    let before = p;
    assert_eq!(purchase(0, &mut p), PurchaseOutcome::Unaffordable);
    assert_eq!(p, before);
}

#[test]
fn purchase_invalid_tier_changes_nothing() {
    let mut p = player_with(1_000_000);
    let before = p;
    assert_eq!(purchase(4, &mut p), PurchaseOutcome::InvalidTier);
    assert_eq!(purchase(usize::MAX, &mut p), PurchaseOutcome::InvalidTier);
    assert_eq!(p, before);
}

#[test]
fn purchase_overflowing_income_changes_nothing() {
    let mut p = player_with(1_000_000);
    p.autoclicker_values[0] = u128::MAX;
    p.autoclickers[0] = 1;
    p.dps = u128::MAX;
    let before = p;
    assert_eq!(purchase(0, &mut p), PurchaseOutcome::Overflow);
    assert_eq!(p, before);
}

#[test]
fn purchase_exactly_affordable() {
    let mut p = player_with(1000);
    assert_eq!(purchase(1, &mut p), PurchaseOutcome::Applied { next_price: Some(1150) });
    assert_eq!(p.droodles, 0);
    assert_eq!(p.dps, 10);
}

#[test]
fn purchases_in_sequence_keep_income() {
    let mut p = player_with(1_000_000);
    let requests = vec![0, 0, 1, 3, 2, 7, 0, 3, 3];
    let outcomes = calculate_purchases(&mut p, &requests);
    assert_eq!(outcomes.len(), requests.len());
    assert_eq!(outcomes[5], PurchaseOutcome::InvalidTier);
    assert_eq!(p.dps, income_sum(&p));
    let applied = outcomes.iter().filter(|o| matches!(o, PurchaseOutcome::Applied { .. })).count();
    let owned: u128 = p.autoclickers.iter().sum();
    assert_eq!(applied as u128, owned);
}

#[test]
fn purchases_stop_when_money_runs_out() {
    let mut p = player_with(320);
    let outcomes = calculate_purchases(&mut p, &vec![0, 0, 0]);
    assert_eq!(outcomes[0], PurchaseOutcome::Applied { next_price: Some(110) });
    assert_eq!(outcomes[1], PurchaseOutcome::Applied { next_price: Some(130) });
    assert_eq!(outcomes[2], PurchaseOutcome::Unaffordable);
    assert_eq!(p.droodles, 110);
    assert_eq!(p.dps, 2);
}

#[test]
fn bonus_floor_without_income() {
    let mut p = Player::new();
    let r = resolve_click(&mut p, 0);
    assert_eq!(r, ClickOutcome { kind: ClickKind::Bonus, reward: 1000 });
    assert_eq!(p.droodles, 1000);
}

#[test]
fn bonus_scales_with_income() {
    let mut p = Player::new();
    p.dps = 200;
    let r = resolve_click(&mut p, 0);
    assert_eq!(r, ClickOutcome { kind: ClickKind::Bonus, reward: 2000 });
    assert_eq!(p.droodles, 2000);
}

#[test]
fn bonus_at_exactly_floor() {
    let mut p = Player::new();
    p.dps = 100;
    assert_eq!(resolve_click(&mut p, 0).reward, 1000);
}

#[test]
fn normal_click_grants_click_strength() {
    let mut p = player_with(5);
    let r = resolve_click(&mut p, 1);
    assert_eq!(r, ClickOutcome { kind: ClickKind::Normal, reward: 10 });
    assert_eq!(p.droodles, 15);
    assert_eq!(resolve_click(&mut p, 49).kind, ClickKind::Normal);
}

#[test]
fn click_reward_stops_at_u128_max() {
    let mut p = player_with(u128::MAX - 3);
    resolve_click(&mut p, 7);
    assert_eq!(p.droodles, u128::MAX);
    let mut q = Player::new();
    q.click_strength = u128::MAX;
    q.dps = 2;
    assert_eq!(resolve_click(&mut q, 0).reward, u128::MAX);
}

#[test]
fn random_click_grants_one_of_the_two_rewards() {
    let mut p = Player::new();
    p.dps = 500;
    for _ in 0..200 {
        let before = p.droodles;
        let r = drew_click(&mut p);
        match r.kind {
            ClickKind::Normal => assert_eq!(r.reward, 10),
            ClickKind::Bonus => assert_eq!(r.reward, 5000),
        }
        assert_eq!(p.droodles, before + r.reward);
    }
}

#[test]
fn bonus_comes_up_among_many_clicks() {
    let mut p = Player::new();
    let mut bonuses = 0;
    for _ in 0..3000 {
        if drew_click(&mut p).kind == ClickKind::Bonus {
            bonuses += 1;
        }
    }
    assert!(bonuses > 0);
    assert!(bonuses < 3000);
}
