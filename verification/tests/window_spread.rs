use dex_arbitr::app::window_spread::{
    exec_spread_pct, mid_spread_pct, own_spread_mid_pct, pair_spread_hub_avg, VenueSpreadBook,
    WindowBook,
};
use dex_arbitr::clock::Instant;
use dex_arbitr::decimal::Decimal;
use dex_arbitr::domain::Bbo;
use dex_arbitr::keymap::KeySet;

fn d(text: &str) -> Decimal {
    Decimal::parse(text).unwrap()
}

fn now() -> Instant {
    Instant::from_millis(1_000_000_000)
}

fn only(key: &str) -> KeySet {
    let mut keys = KeySet::new();
    keys.insert(key, ());
    keys
}

fn bbo(bid: Decimal, ask: Decimal) -> Bbo {
    Bbo {
        bid,
        ask,
        bid_qty: d("1"),
        ask_qty: d("1"),
        bids: vec![(bid, d("1"))],
        asks: vec![(ask, d("1"))],
        ts: now(),
    }
}

#[test]
fn mid_spread_matches_spec_example() {
    let l = bbo(d("99.5"), d("100.5"));
    let r = bbo(d("98.5"), d("99.5"));
    let s = mid_spread_pct(&l, &r).unwrap().unwrap();
    assert_eq!(s.round_dp(4), d("1.0050"));
}

#[test]
fn same_bucket_overwrites_last_price() {
    let mut book = WindowBook::new(3, 1000);
    book.observe("s", 1000, d("1"));
    book.observe("s", 1500, d("2"));
    assert_eq!(book.sample_count("s"), 1);
    book.observe("s", 2000, d("3"));
    assert_eq!(book.sample_count("s"), 2);
    book.observe("s", 3000, d("4"));
    assert_eq!(book.live_mu("s").unwrap(), Some(d("3")));
}

#[test]
fn mu_none_until_full() {
    let mut book = WindowBook::new(3, 1000);
    book.observe("s", 0, d("1"));
    book.observe("s", 1000, d("2"));
    assert!(book.live_mu("s").unwrap().is_none());
    assert!(book.quote_mu("s").unwrap().is_none());
    book.observe("s", 2000, d("3"));
    assert_eq!(book.live_mu("s").unwrap(), Some(d("2")));
}

#[test]
fn last_s_is_latest_mid() {
    let mut book = WindowBook::new(3, 1000);
    assert!(book.last_s("s").is_none());
    book.observe("s", 0, d("1"));
    assert_eq!(book.last_s("s"), Some(d("1")));
    book.observe("s", 500, d("9"));
    assert_eq!(book.last_s("s"), Some(d("9")));
    book.observe("s", 1000, d("4"));
    assert_eq!(book.last_s("s"), Some(d("4")));
}

#[test]
fn sliding_drops_oldest() {
    let mut book = WindowBook::new(2, 1000);
    book.observe("s", 0, d("10"));
    book.observe("s", 1000, d("20"));
    book.observe("s", 2000, d("30"));
    assert_eq!(book.live_mu("s").unwrap(), Some(d("25")));
}

#[test]
fn freeze_holds_quote_while_live_moves() {
    let mut book = WindowBook::new(2, 1000);
    book.observe("s", 0, d("0"));
    book.observe("s", 1000, d("2"));
    assert_eq!(book.quote_mu("s").unwrap(), Some(d("1")));
    book.freeze("s").unwrap();
    book.observe("s", 2000, d("8"));
    assert_eq!(book.live_mu("s").unwrap(), Some(d("5")));
    assert_eq!(book.quote_mu("s").unwrap(), Some(d("1")));
    book.freeze("s").unwrap();
    assert_eq!(book.quote_mu("s").unwrap(), Some(d("1")));
    book.unfreeze("s");
    assert_eq!(book.quote_mu("s").unwrap(), Some(d("5")));
}

#[test]
fn drop_except_keeps_live_slots() {
    let mut book = WindowBook::new(2, 1000);
    book.observe("idle", 0, d("1"));
    book.observe("idle", 1000, d("2"));
    book.observe("live", 0, d("3"));
    book.observe("live", 1000, d("4"));
    let keep = only("live");
    book.drop_except(&keep);
    assert_eq!(book.sample_count("idle"), 0);
    assert_eq!(book.sample_count("live"), 2);
    book.drop_slot("live");
    assert_eq!(book.sample_count("live"), 0);
}

#[test]
fn missing_slot_has_zero_samples() {
    let book = WindowBook::new(8, 1000);
    assert_eq!(book.sample_count("nope"), 0);
    assert!(book.quote_mu("nope").unwrap().is_none());
    assert!(!book.is_frozen("nope"));
}

#[test]
fn configure_shrinks_buffer() {
    let mut book = WindowBook::new(3, 1000);
    book.observe("s", 0, d("1"));
    book.observe("s", 1000, d("2"));
    book.observe("s", 2000, d("3"));
    book.configure(2, 1000);
    assert_eq!(book.sample_count("s"), 2);
    assert_eq!(book.live_mu("s").unwrap(), Some(d("2.5")));
}

#[test]
fn own_spread_uses_mid() {
    let b = bbo(d("99.5"), d("100.5"));
    assert_eq!(own_spread_mid_pct(&b).unwrap().unwrap(), d("1"));
}

#[test]
fn venue_spread_same_bucket_averages() {
    let mut book = VenueSpreadBook::new(2, 1000);
    book.observe("lighter", 1000, d("1"));
    book.observe("lighter", 1500, d("3"));
    assert_eq!(book.sample_count("lighter"), 1);
    book.observe("lighter", 2000, d("4"));
    assert_eq!(book.live_mu("lighter").unwrap(), Some(d("3")));
}

#[test]
fn venue_spreads_are_independent() {
    let mut book = VenueSpreadBook::new(1, 1000);
    book.observe("lighter", 0, d("1"));
    book.observe("entropy", 0, d("5"));
    assert_eq!(book.live_mu("lighter").unwrap(), Some(d("1")));
    assert_eq!(book.live_mu("entropy").unwrap(), Some(d("5")));
}

#[test]
fn venue_spread_drop_except_venues_clears_idle() {
    let mut book = VenueSpreadBook::new(1, 1000);
    book.observe("lighter", 0, d("1"));
    book.observe("entropy", 0, d("5"));
    book.drop_except_venues(&only("lighter"));
    assert_eq!(book.live_mu("lighter").unwrap(), Some(d("1")));
    assert_eq!(book.sample_count("entropy"), 0);
    assert!(book.live_mu("entropy").unwrap().is_none());
    book.clear();
    assert_eq!(book.sample_count("lighter"), 0);
    assert!(book.live_mu("lighter").unwrap().is_none());
}

#[test]
fn exec_plus_is_bid_l_minus_ask_r() {
    let l = bbo(d("100"), d("101"));
    let r = bbo(d("98"), d("99"));
    let s = exec_spread_pct(&l, &r, true).unwrap().unwrap();
    assert_eq!(s.round_dp(4), d("1.0050"));
    let m = exec_spread_pct(&l, &r, false).unwrap().unwrap();
    assert_eq!(m.round_dp(4), d("3.0151"));
}

#[test]
fn pair_spread_hub_is_mean() {
    assert_eq!(
        pair_spread_hub_avg(d("0.0127"), d("0.0107")).unwrap(),
        d("0.0117")
    );
}
