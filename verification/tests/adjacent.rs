use dex_arbitr::decimal::Decimal;
use dex_arbitr::domain::adjacent::{
    add_quote_far_enough, adjacent_quotes, implied_first_limit, limit_moved_ticks, QuoteSide,
};
use dex_arbitr::domain::VenueId;

fn d(text: &str) -> Decimal {
    Decimal::parse(text).unwrap()
}

fn l() -> VenueId {
    VenueId::named("lighter")
}
fn r() -> VenueId {
    VenueId::named("entropy")
}

#[test]
fn k0_has_plus_and_minus_at_one_delta() {
    let q = adjacent_quotes(0, d("0"), d("0.02"), 3, Decimal::zero(), &l(), &r(), d("0.001"), Decimal::zero()).unwrap();
    assert_eq!(q.len(), 2);
    assert_eq!(q[0].side, QuoteSide::Plus);
    assert_eq!(q[0].target_spread, d("0.02"));
    assert!(q[0].is_open);
    assert_eq!(q[0].sell.as_str(), "lighter");
    assert_eq!(q[0].buy.as_str(), "entropy");
    assert_eq!(q[0].grid_to, 1);
    assert_eq!(q[1].side, QuoteSide::Minus);
    assert_eq!(q[1].target_spread, d("-0.02"));
    assert!(q[1].is_open);
    assert_eq!(q[1].buy.as_str(), "lighter");
    assert_eq!(q[1].grid_to, -1);
}

#[test]
fn k_plus_one_adds_at_two_delta_and_reduces_at_mu() {
    let q = adjacent_quotes(1, d("0"), d("0.02"), 3, Decimal::zero(), &l(), &r(), d("0.001"), d("0.001")).unwrap();
    assert_eq!(q.len(), 2);
    assert_eq!(q[0].target_spread, d("0.04"));
    assert!(q[0].is_open);
    assert_eq!(q[0].grid_to, 2);
    assert_eq!(q[1].target_spread, d("0"));
    assert!(!q[1].is_open);
    assert_eq!(q[1].grid_to, 0);
    assert_eq!(q[1].qty, d("0.001"));
}

#[test]
fn k_at_max_only_reduces() {
    let q = adjacent_quotes(3, d("0"), d("0.02"), 3, Decimal::zero(), &l(), &r(), d("0.001"), d("0.003")).unwrap();
    assert_eq!(q.len(), 1);
    assert_eq!(q[0].side, QuoteSide::Minus);
    assert!(!q[0].is_open);
    assert_eq!(q[0].grid_to, 2);
}

#[test]
fn k_minus_one_mirrors() {
    let q = adjacent_quotes(-1, d("0"), d("0.02"), 3, Decimal::zero(), &l(), &r(), d("0.001"), d("0.001")).unwrap();
    assert_eq!(q.len(), 2);
    assert_eq!(q[0].side, QuoteSide::Plus);
    assert!(!q[0].is_open);
    assert_eq!(q[0].grid_to, 0);
    assert_eq!(q[1].side, QuoteSide::Minus);
    assert!(q[1].is_open);
    assert_eq!(q[1].grid_to, -2);
    assert_eq!(q[1].target_spread, d("-0.04"));
}

#[test]
fn k_at_min_only_reduces() {
    let q = adjacent_quotes(-3, d("0"), d("0.02"), 3, Decimal::zero(), &l(), &r(), d("0.001"), d("0.003")).unwrap();
    assert_eq!(q.len(), 1);
    assert_eq!(q[0].side, QuoteSide::Plus);
    assert!(!q[0].is_open);
    assert_eq!(q[0].grid_to, -2);
}

#[test]
fn hysteresis_shifts_reduce_line() {
    let q = adjacent_quotes(1, d("0"), d("0.02"), 3, d("0.25"), &l(), &r(), d("0.001"), d("0.001")).unwrap();
    let red = q.iter().find(|x| !x.is_open).unwrap();
    assert_eq!(red.target_spread, d("0.005"));
}

#[test]
fn far_enough_rejects_near_line() {
    assert!(add_quote_far_enough(d("0.02"), d("0"), true, d("0.006")).unwrap());
    assert!(!add_quote_far_enough(d("0.02"), d("0.018"), true, d("0.006")).unwrap());
    assert!(add_quote_far_enough(d("-0.02"), d("0"), false, d("0.006")).unwrap());
    assert!(!add_quote_far_enough(d("-0.02"), d("-0.018"), false, d("0.006")).unwrap());
}

#[test]
fn implied_plus_sell_left_sits_above_right_ask() {
    let px = implied_first_limit(
        d("0.02"),
        true,
        false,
        d("100"),
        d("100.02"),
        d("99.98"),
        d("100"),
        d("100"),
        d("0.01"),
        0,
    )
    .unwrap()
    .unwrap();
    assert_eq!(px, d("100.02"));
}

#[test]
fn implied_limit_rejects_touch_when_min_ticks() {
    let at_ask = implied_first_limit(
        d("0.02"),
        true,
        false,
        d("100"),
        d("100.02"),
        d("99.98"),
        d("100"),
        d("100"),
        d("0.01"),
        1,
    )
    .unwrap();
    assert!(at_ask.is_none());
    let behind = implied_first_limit(
        d("0.05"),
        true,
        false,
        d("100"),
        d("100.02"),
        d("99.98"),
        d("100"),
        d("100"),
        d("0.01"),
        1,
    )
    .unwrap()
    .unwrap();
    assert!(behind >= d("100.03"));
}

#[test]
fn one_tick_move_is_detected() {
    assert!(limit_moved_ticks(d("100"), d("100.1"), d("0.1"), 1).unwrap());
    assert!(!limit_moved_ticks(d("100"), d("100.05"), d("0.1"), 1).unwrap());
    assert!(!limit_moved_ticks(d("100"), d("100"), d("0.1"), 1).unwrap());
}

#[test]
fn mirrored_steps_have_mirrored_quotes() {
    let (one, held, zero) = (d("0.001"), d("0.004"), Decimal::zero());
    let lines = [
        ("0.013", "0.02"),
        ("-0.04", "0.02"),
        ("12.34567890123456789012345678", "0.3333333333333333333333333333"),
        ("7.9228162514264337593543950335", "2.7777777777777777777777777775"),
        ("7922816251426433759354395033.5", "0.0000000000000000000000000005"),
    ];
    for (mu, delta) in lines {
        let (mu, delta) = (d(mu), d(delta));
        for k in -3..=3 {
            let a = adjacent_quotes(k, mu, delta, 3, zero, &l(), &r(), one, held).unwrap();
            let b = adjacent_quotes(-k, mu.neg(), delta, 3, zero, &r(), &l(), one, held).unwrap();
            assert_eq!(a.len(), b.len());
            for (x, y) in a.iter().zip(b.iter().rev()) {
                assert_eq!(y.side, x.side.opposite());
                assert_eq!(y.target_spread, x.target_spread.neg());
                assert_eq!((y.grid_to, y.is_open, y.qty), (-x.grid_to, x.is_open, x.qty));
                assert_eq!((&y.buy, &y.sell), (&x.buy, &x.sell));
            }
        }
    }
}

#[test]
fn lines_at_zero_have_no_fraction() {
    let zero = Decimal::zero();
    let q = adjacent_quotes(2, d("-0.02"), d("0.02"), 3, zero, &l(), &r(), d("1"), d("2")).unwrap();
    assert_eq!(q[1].target_spread.text(), "0");
    let q =
        adjacent_quotes(-2, d("0.01"), d("0.02"), 3, d("0.5"), &l(), &r(), d("1"), d("2")).unwrap();
    assert_eq!(q[1].target_spread, d("-0.06"));
}
