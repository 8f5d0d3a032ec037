use drew_clicker::accrual::{accrue, calculate_dps};
use drew_clicker::effects::{CoinMarker, CoinMarkers, MARKER_STEPS};
use drew_clicker::record::{decode, encode, save, setup, RECORD_BYTES};
use drew_clicker::state::Player;
use drew_clicker::timer::{setup_timers, IntervalTimer};

const SECOND: u64 = 1_000_000_000;

#[test]
fn timers_start_empty() {
    let t = setup_timers();
    assert_eq!(t.accrual, IntervalTimer { period: SECOND, elapsed: 0 });
    assert_eq!(t.save, IntervalTimer { period: SECOND, elapsed: 0 });
    assert_eq!(t.coin_fade, IntervalTimer { period: 40_000_000, elapsed: 0 });
}

#[test]
fn timer_carries_leftover_time() {
    let mut t = IntervalTimer::new(SECOND);
    assert_eq!(t.tick(2_500_000_000), 2);
    assert_eq!(t.elapsed, 500_000_000);
    assert_eq!(t.tick(600_000_000), 1);
    assert_eq!(t.elapsed, 100_000_000);
    assert_eq!(t.tick(0), 0);
}

#[test]
fn timer_huge_step() {
    let mut t = IntervalTimer::new(1);
    assert_eq!(t.tick(u64::MAX), u64::MAX);
    assert_eq!(t.elapsed, 0);
}

#[test]
fn accrual_applies_each_interval() {
    let mut t = IntervalTimer::new(SECOND);
    let mut p = Player::new();
    p.dps = 5;
    assert_eq!(calculate_dps(&mut t, &mut p, 3 * SECOND), 3);
    assert_eq!(p.droodles, 15);
}

#[test]
fn accrual_same_however_batched() {
    let mut one = Player::new();
    one.dps = 7;
    let mut many = one;
    let mut t1 = IntervalTimer::new(SECOND);
    let mut t2 = IntervalTimer::new(SECOND);
    calculate_dps(&mut t1, &mut one, 4 * SECOND + 300);
    let steps = [SECOND / 3, SECOND / 2, 16_666_667, 2 * SECOND, SECOND, 300, 0];
    let mut total = 0u64;
    for s in steps {
        calculate_dps(&mut t2, &mut many, s);
        total += s;
    }
    let mut t3 = IntervalTimer::new(SECOND);
    let mut whole = Player::new();
    whole.dps = 7;
    let k = calculate_dps(&mut t3, &mut whole, total);
    assert_eq!(many.droodles, whole.droodles);
    assert_eq!(many.droodles, 7 * k as u128);
    assert_eq!(t2, t3);
    assert_eq!(one.droodles, 28);
}

#[test]
fn accrual_stops_at_u128_max() {
    let mut p = Player::new();
    p.dps = u128::MAX / 2;
    accrue(&mut p, 3);
    assert_eq!(p.droodles, u128::MAX);
}

#[test]
fn marker_fades_out_after_all_steps() {
    let mut m = CoinMarkers::new();
    assert_eq!(m.spawn(), Some(0));
    for _ in 0..MARKER_STEPS - 1 {
        assert!(m.fade().is_empty());
    }
    assert_eq!(m.markers, vec![CoinMarker { id: 0, opacity: 1 }]);
    assert_eq!(m.fade(), vec![0]);
    assert!(m.markers.is_empty());
}

#[test]
fn markers_removed_together_keep_order() {
    let mut m = CoinMarkers::new();
    for _ in 0..8 {
        m.spawn();
    }
    for _ in 0..5 {
        m.fade();
    }
    m.spawn();
    for _ in 0..MARKER_STEPS - 6 {
        m.fade();
    }
    assert_eq!(m.fade(), vec![0, 1, 2, 3, 4, 5, 6, 7]);
    assert_eq!(m.markers, vec![CoinMarker { id: 8, opacity: 5 }]);
}

#[test]
fn markers_stop_when_ids_run_out() {
    let mut m = CoinMarkers::new();
    m.next_id = u64::MAX;
    assert_eq!(m.spawn(), None);
    assert!(m.markers.is_empty());
}

fn rich_player() -> Player {
    let mut p = Player::new();
    p.droodles = u128::MAX - 12345;
    p.click_strength = 1 << 100;
    p.autoclickers = [3, 1 << 70, 0, 9];
    p.autoclicker_prices = [100, 1000, 1 << 90, u128::MAX];
    p.autoclicker_values = [1, 10, 100, 1000];
    p.dps = 3 + (10u128 << 70) + 9000;
    p
}

#[test]
fn record_round_trip() {
    let p = rich_player();
    let bytes = encode(&p);
    assert_eq!(bytes.len(), RECORD_BYTES);
    assert_eq!(decode(&bytes), Some(p));
    let fresh = Player::new();
    assert_eq!(decode(&encode(&fresh)), Some(fresh));
}

#[test]
fn record_is_little_endian() {
    let mut p = Player::new();
    p.droodles = 0x0102;
    let bytes = encode(&p);
    assert_eq!(&bytes[0..3], &[2, 1, 0]);
    assert_eq!(bytes[32], 10);
}

#[test]
fn record_of_wrong_length_is_refused() {
    let bytes = encode(&Player::new());
    assert_eq!(decode(&bytes[..239].to_vec()), None);
    assert_eq!(decode(&Vec::new()), None);
    let mut longer = bytes.clone();
    longer.push(0);
    assert_eq!(decode(&longer), None);
}

#[test]
fn record_with_wrong_income_is_refused() {
    let mut bytes = encode(&rich_player());
    bytes[16] ^= 1;
    assert_eq!(decode(&bytes), None);
}

#[test]
fn setup_without_record_starts_new_game() {
    let (p, write) = setup(None);
    assert_eq!(p, Player::new());
    assert_eq!(p.click_strength, 10);
    assert_eq!(p.autoclicker_prices, [100, 1000, 10000, 100000]);
    assert_eq!(p.autoclicker_values, [1, 10, 100, 1000]);
    assert_eq!(write, Some(encode(&p)));
}

#[test]
fn setup_with_damaged_record_starts_new_game() {
    let (p, write) = setup(Some(vec![1, 2, 3]));
    assert_eq!(p, Player::new());
    assert!(write.is_some());
}

#[test]
fn setup_with_record_restores_it() {
    let q = rich_player();
    let (p, write) = setup(Some(encode(&q)));
    assert_eq!(p, q);
    assert_eq!(write, None);
}

#[test]
fn save_writes_once_per_second() {
    let mut t = IntervalTimer::new(SECOND);
    let p = rich_player();
    assert_eq!(save(&mut t, &p, SECOND / 2), None);
    assert_eq!(save(&mut t, &p, SECOND / 2), Some(encode(&p)));
    assert_eq!(save(&mut t, &p, 3 * SECOND), Some(encode(&p)));
}
