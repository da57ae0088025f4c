use dex_arbitr::decimal::Decimal;
use dex_arbitr::domain::grid_step_from_target_bp;

fn d(text: &str) -> Decimal {
    Decimal::parse(text).unwrap()
}

#[test]
fn target_one_bp_entropy_lighter_zero_fee() {
    let step = grid_step_from_target_bp(d("1"), d("0.018"), Decimal::zero(), d("0.25")).unwrap();
    assert_eq!(step, d("0.056"));
}

#[test]
fn hysteresis_half_falls_back_to_full_grid() {
    let step = grid_step_from_target_bp(d("1"), d("0.018"), Decimal::zero(), d("0.5")).unwrap();
    assert_eq!(step, d("0.028"));
}

#[test]
fn includes_round_trip_spread() {
    let step = grid_step_from_target_bp(d("2"), d("0.018"), d("0.0117"), Decimal::zero()).unwrap();
    assert_eq!(step, d("0.0497"));
}

#[test]
fn never_thinner_than_fee_plus_spread() {
    let step = grid_step_from_target_bp(Decimal::zero(), d("0.018"), d("0.0117"), Decimal::zero()).unwrap();
    assert_eq!(step, d("0.0297"));
}
