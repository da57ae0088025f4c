use dex_arbitr::clock::{Duration, Instant};
use dex_arbitr::config::OrderStyle;
use dex_arbitr::decimal::Decimal;
use dex_arbitr::domain::{VenueId, VenueMarket};
use dex_arbitr::exchange::bridge::{
    json_ms, last_lighter_place_rtt, last_place_rtt, note_lighter_place_rtt, note_place_rtt,
    note_rtt_from_place, note_watched, parse_account, parse_fill_pnl, parse_funding,
    parse_lighter_place_rtt_line, parse_order_ack, place_rtt_text, reply_kind, sidecar_timeout,
    style_word, venue_id_from_yaml, venue_of_stem, AckRow, BalanceRow, BridgeError, FillRow,
    FundingRow, HoldingRow, LighterPlaceRtt, PlaceChainRtt, Reply, RttBook,
};
use dex_arbitr::exchange::entropy;
use dex_arbitr::exchange::lighter;
use dex_arbitr::exchange::net::FeedGuard;
use dex_arbitr::exchange::sodex;
use dex_arbitr::exchange::top::rests_after;
use dex_arbitr::exchange::{
    adapter_kind, venue_display_label, venue_yaml_path, AdapterKind, OrderStatus,
};

fn d(text: &str) -> Decimal {
    Decimal::parse(text).unwrap()
}

fn now() -> Instant {
    Instant::from_millis(1_000_000_000)
}

#[test]
fn parses_lighter_place_rtt_line() {
    let line =
        "lighter place rtt venue=lighter order=42 sign_ms=3 send_ms=41 sign_to_ack_ms=44 result=ok";
    let (venue, rtt) = parse_lighter_place_rtt_line(line).expect("parse");
    assert_eq!(venue, "lighter");
    assert_eq!(rtt, LighterPlaceRtt { sign_ms: 3, send_ms: 41, sign_to_ack_ms: 44 });
    assert!(parse_lighter_place_rtt_line("sidecar panic").is_none());
}

#[test]
fn rtt_line_needs_all_its_parts() {
    assert!(parse_lighter_place_rtt_line("lighter place rtt venue=a sign_ms=3 send_ms=4").is_none());
    assert!(parse_lighter_place_rtt_line(
        "lighter place rtt venue=a sign_ms=x send_ms=4 sign_to_ack_ms=7"
    )
    .is_none());
    let twice = "  lighter place rtt venue=a sign_ms=1 send_ms=4 sign_to_ack_ms=7 sign_ms=2\n";
    assert_eq!(parse_lighter_place_rtt_line(twice).unwrap().1.sign_ms, 2);
}

#[test]
fn venue_id_from_lighter_yaml_names() {
    assert_eq!(venue_id_from_yaml("config/venues/lighter.yaml"), "lighter");
    assert_eq!(venue_id_from_yaml("config/venues/lighter_robinhood.yaml"), "lighter_rh");
}

#[test]
fn stems_are_taken_from_the_last_name() {
    assert_eq!(venue_id_from_yaml("a/b.c/"), "b");
    assert_eq!(venue_id_from_yaml("a/b/."), "b");
    assert_eq!(venue_id_from_yaml("a/.."), "");
    assert_eq!(venue_id_from_yaml("/"), "");
    assert_eq!(venue_id_from_yaml("."), "");
    assert_eq!(venue_id_from_yaml(".hidden"), ".hidden");
    assert_eq!(venue_id_from_yaml("x.tar.gz"), "x.tar");
    assert_eq!(venue_of_stem("lighter_robinhood"), "lighter_rh");
    assert_eq!(venue_of_stem("sodex"), "sodex");
}

#[test]
fn file_and_venue_find_each_other() {
    for id in ["lighter", "lighter_rh", "sodex", "entropy"] {
        assert_eq!(venue_id_from_yaml(venue_yaml_path(id).as_str()), id);
    }
    assert_eq!(venue_yaml_path("lighter_rh"), "config/venues/lighter_robinhood.yaml");
    assert_eq!(venue_yaml_path("/etc/x"), "/etc/x.yaml");
}

#[test]
fn labels_and_adapters() {
    assert_eq!(venue_display_label("lighter"), "Lighter 主网");
    assert_eq!(venue_display_label("lighter_rh"), "Lighter RH");
    assert_eq!(venue_display_label("sodex"), "SoDEX");
    assert_eq!(venue_display_label("entropy"), "EntropyIO");
    assert_eq!(venue_display_label("paradex"), "Paradex");
    assert_eq!(adapter_kind("sodex"), AdapterKind::Sodex);
    assert_eq!(adapter_kind("entropy"), AdapterKind::Entropy);
    assert_eq!(adapter_kind("lighter_rh"), AdapterKind::Lighter);
}

#[test]
fn orders_are_waited_for_longer_than_questions() {
    assert_eq!(sidecar_timeout("place", None), Duration::from_secs(80));
    assert_eq!(sidecar_timeout("cancel", None), Duration::from_secs(80));
    assert_eq!(sidecar_timeout("account", None), Duration::from_secs(12));
    assert_eq!(sidecar_timeout("place", Some("5")), Duration::from_secs(5));
    assert_eq!(sidecar_timeout("place", Some("soon")), Duration::from_secs(80));
}

#[test]
fn what_was_noted_is_read_back() {
    let mut book = RttBook::new();
    assert_eq!(place_rtt_text(&book, "sodex"), "—");
    let rtt = LighterPlaceRtt { sign_ms: 3, send_ms: 41, sign_to_ack_ms: 44 };
    note_lighter_place_rtt(&mut book, "lighter", rtt);
    assert_eq!(last_lighter_place_rtt(&book, "lighter"), Some(rtt));
    assert_eq!(last_place_rtt(&book, "lighter").unwrap().wall_ms, 44);
    assert_eq!(last_place_rtt(&book, "sodex"), None);
    let plain = PlaceChainRtt {
        wall_ms: 90,
        sign_ms: None,
        send_ms: None,
        sign_to_ack_ms: None,
    };
    note_place_rtt(&mut book, "sodex", plain);
    assert_eq!(last_lighter_place_rtt(&book, "sodex"), None);
    assert_eq!(place_rtt_text(&book, "sodex"), "90ms");
    note_rtt_from_place(
        &mut book,
        "config/venues/lighter_robinhood.yaml",
        100,
        json_ms(Some("3"), None),
        json_ms(None, Some(41)),
        json_ms(Some("44"), Some(1)),
    );
    assert_eq!(place_rtt_text(&book, "lighter_rh"), "3+41=44ms · 全链路100ms");
    assert_eq!(json_ms(Some("x"), Some(1)), None);
}

#[test]
fn news_are_told_from_answers() {
    assert_eq!(reply_kind("order", true), Reply::Push);
    assert_eq!(reply_kind("", true), Reply::Answer);
    assert_eq!(reply_kind("", false), Reply::Failure);
    let mut watched = vec![];
    note_watched(&mut watched, "a.yaml");
    note_watched(&mut watched, "b.yaml");
    note_watched(&mut watched, "a.yaml");
    assert_eq!(watched, vec!["a.yaml", "b.yaml"]);
}

fn text(t: &str) -> Option<String> {
    Some(t.to_string())
}

#[test]
fn funding_rows_without_a_period_are_dropped() {
    let row = |symbol: Option<String>, rate: Option<String>, interval_secs| FundingRow {
        symbol,
        rate,
        interval_secs,
    };
    let rows = vec![
        row(text("BTC"), text("0.0001"), Some(3600)),
        row(text("ETH"), text("0.0001"), Some(0)),
        row(text("DOGE"), text("0.0001"), Some(1 << 32)),
        row(text("SOL"), text("0.0001"), None),
        row(text("XRP"), text("high"), Some(3600)),
        row(None, text("0.0001"), Some(3600)),
    ];
    let rates = parse_funding(&rows);
    assert_eq!(rates.len(), 1);
    assert_eq!(rates[0].symbol, "BTC");
    assert_eq!(rates[0].rate, d("0.0001"));
    assert_eq!(rates[0].interval_secs, 3600);
}

#[test]
fn account_rows_lacking_their_subject_are_dropped() {
    let balances = vec![
        BalanceRow { asset: text("USDC"), available: text("12.5"), total: None },
        BalanceRow { asset: None, available: text("1"), total: None },
        BalanceRow { asset: text("BTC"), available: text("?"), total: None },
    ];
    let positions = vec![
        HoldingRow {
            symbol: text("BTC"),
            qty: text("-0.5"),
            entry_price: text("100"),
            realized_pnl: None,
        },
        HoldingRow { symbol: text("ETH"), qty: None, entry_price: None, realized_pnl: None },
    ];
    let account = parse_account(&balances, &positions);
    assert_eq!(account.balances.len(), 1);
    assert_eq!(account.balances[0].available, d("12.5"));
    assert_eq!(account.positions.len(), 1);
    assert_eq!(account.positions[0].qty, d("-0.5"));
    assert_eq!(account.positions[0].entry_price, Some(d("100")));
}

#[test]
fn fills_that_say_nothing_earned_nothing() {
    let none = parse_fill_pnl(&FillRow { realized_pnl: None, per_fill: None, found: None });
    assert_eq!(none.realized_pnl, Decimal::zero());
    assert!(!none.per_fill && !none.found);
    let some =
        parse_fill_pnl(&FillRow { realized_pnl: text("1.5"), per_fill: Some(true), found: Some(true) });
    assert_eq!(some.realized_pnl, d("1.5"));
    assert!(some.per_fill && some.found);
}

fn ack(status: Option<&str>, order_id: Option<&str>) -> AckRow {
    AckRow {
        status: status.map(|s| s.to_string()),
        order_id: order_id.map(|s| s.to_string()),
        client_order_id: None,
        filled_qty: None,
        avg_price: text("101.5"),
    }
}

#[test]
fn orders_that_were_taken_have_a_number() {
    for word in ["accepted", "partial", "filled"] {
        assert!(matches!(
            parse_order_ack(&ack(Some(word), None)),
            Err(BridgeError::EmptyOrderId)
        ));
        assert!(parse_order_ack(&ack(Some(word), Some("7"))).is_ok());
    }
    for (word, status) in [
        ("canceled", OrderStatus::Canceled),
        ("rejected", OrderStatus::Rejected),
        ("not_found", OrderStatus::Unknown),
        ("whatever", OrderStatus::Unknown),
    ] {
        let a = parse_order_ack(&ack(Some(word), None)).unwrap();
        assert_eq!(a.status, status);
        assert_eq!(a.order_id, "");
        assert_eq!(a.filled_qty, Decimal::zero());
        assert_eq!(a.avg_price, Some(d("101.5")));
    }
    assert_eq!(parse_order_ack(&ack(None, None)).unwrap().status, OrderStatus::Unknown);
}

#[test]
fn styles_have_words() {
    assert_eq!(style_word(OrderStyle::LimitMaker), "limit");
    assert_eq!(style_word(OrderStyle::LimitThenMarket), "limit");
    assert_eq!(style_word(OrderStyle::MarketTaker), "market");
    assert_eq!(style_word(OrderStyle::AggressiveLimit), "aggressive_limit");
}

#[test]
fn io_index_and_sndk_asset_id() {
    let mut dexes: Vec<Option<String>> = vec![None];
    for name in ["xyz", "flx", "vntl", "hyna", "km", "abcd", "cash", "para", "mkts", "io"] {
        dexes.push(text(name));
    }
    let idx = entropy::perp_dex_index(&dexes, "io").unwrap();
    assert_eq!(idx, 10);
    assert_eq!(entropy::hip3_asset_id(idx, 2), 200_002);
    assert_eq!(entropy::perp_dex_index(&dexes, "IO"), Some(10));
    assert_eq!(entropy::perp_dex_index(&dexes, "none"), None);
}

#[test]
fn parses_io_universe_skips_delisted() {
    let asset = |name: &str, sz_decimals: u32, is_delisted: bool| entropy::RawAsset {
        name: name.into(),
        sz_decimals,
        is_delisted,
    };
    let universe =
        vec![asset("io:OAI", 3, true), asset("io:ANTH", 3, false), asset("io:SNDK", 4, false)];
    assert!(entropy::asset_ids_fit(10, universe.len()));
    let venue = VenueId::named("entropy");
    let markets = entropy::parse_io_markets(&venue, 10, Some(&universe), &vec![]).unwrap();
    assert_eq!(markets.len(), 2);
    let sndk = markets.iter().find(|m| m.base == "SNDK").unwrap();
    assert_eq!(sndk.raw_symbol, "io:SNDK");
    assert_eq!(sndk.pair_id, "SNDK-USD-PERP");
    assert_eq!(sndk.market_index, 200_002);
    assert_eq!(sndk.qty_precision, 4);
    assert_eq!(sndk.min_qty, d("0.0001"));
    assert!(matches!(
        entropy::parse_io_markets(&venue, 10, None, &vec![]),
        Err(entropy::EntropyError::MissingMeta)
    ));
    assert!(!entropy::asset_ids_fit(300_000, 1));
}

fn level(px: &str, sz: &str) -> entropy::WsLevel {
    entropy::WsLevel { px: px.into(), sz: sz.into() }
}

#[test]
fn bbo_levels_to_book() {
    let levels = vec![Some(level("1472.7", "1.2")), Some(level("1472.8", "0.5"))];
    let bbo = entropy::bbo_from_levels(&levels, now()).unwrap();
    assert_eq!(bbo.bid, d("1472.7"));
    assert_eq!(bbo.ask, d("1472.8"));
    assert_eq!(bbo.ask_qty, d("0.5"));
}

#[test]
fn l2_book_top_of_book() {
    let levels = vec![vec![level("1479.7", "0.88")], vec![level("1479.8", "0.06")]];
    let bbo = entropy::bbo_from_l2(&levels, now()).unwrap();
    assert_eq!(bbo.bid, d("1479.7"));
    assert_eq!(bbo.ask, d("1479.8"));
}

#[test]
fn info_url_appends_or_keeps() {
    assert_eq!(
        entropy::info_url("https://api.hyperliquid.xyz"),
        "https://api.hyperliquid.xyz/info"
    );
    assert_eq!(
        entropy::info_url("https://api.hyperliquid.xyz/info"),
        "https://api.hyperliquid.xyz/info"
    );
}

#[test]
fn books_are_read_for_coins_that_are_followed() {
    let coins = vec![("io:SNDK".to_string(), "SNDK-USD-PERP".to_string())];
    let data = |coin: &str, bid: &str, ask: &str| entropy::WsBbo {
        coin: coin.into(),
        bbo: vec![Some(level(bid, "1")), Some(level(ask, "1"))],
    };
    let msg = data("IO:sndk", "10", "11");
    let (pair, bbo) = entropy::on_message(&coins, "bbo", Some(&msg), now()).unwrap();
    assert_eq!(pair, "SNDK-USD-PERP");
    assert_eq!(bbo.bid, d("10"));
    assert!(entropy::on_message(&coins, "trades", Some(&msg), now()).is_none());
    assert!(entropy::on_message(&coins, "bbo", None, now()).is_none());
    let locked = data("io:SNDK", "10", "10");
    assert!(entropy::on_message(&coins, "bbo", Some(&locked), now()).is_none());
    let other = data("io:ANTH", "10", "11");
    assert!(entropy::on_message(&coins, "bbo", Some(&other), now()).is_none());
}

fn lv(price: &str, size: &str) -> lighter::WsLevel {
    lighter::WsLevel { price: price.into(), size: size.into() }
}

#[test]
fn snapshot_then_delta_keeps_best() {
    let mut book = lighter::LocalBook::default();
    book.replace(&lighter::WsBook {
        bids: vec![lv("100", "1"), lv("99", "2")],
        asks: vec![lv("101", "1"), lv("102", "3")],
    });
    let snap = book.bbo(now()).unwrap();
    assert_eq!(snap.bid, d("100"));
    assert_eq!(snap.ask, d("101"));

    book.apply(&lighter::WsBook {
        bids: vec![lv("100", "0"), lv("100.5", "4")],
        asks: vec![lv("101", "0.5")],
    });
    let next = book.bbo(now()).unwrap();
    assert_eq!(next.bid, d("100.5"));
    assert_eq!(next.bid_qty, d("4"));
    assert_eq!(next.ask, d("101"));
    assert_eq!(next.ask_qty, d("0.5"));
    assert_eq!(next.bids, vec![(d("100.5"), d("4")), (d("99"), d("2"))]);
}

#[test]
fn snapshot_forgets_what_stood_before() {
    let mut book = lighter::LocalBook::new();
    book.replace(&lighter::WsBook { bids: vec![lv("100", "1")], asks: vec![lv("101", "1")] });
    book.replace(&lighter::WsBook { bids: vec![lv("90", "1")], asks: vec![lv("x", "1")] });
    assert!(book.bbo(now()).is_none());
    book.apply(&lighter::WsBook { bids: vec![], asks: vec![lv("91.0", "1"), lv("91", "2")] });
    let b = book.bbo(now()).unwrap();
    assert_eq!(b.asks.len(), 1);
    assert_eq!(b.ask.text(), "91.0");
    assert_eq!(b.ask_qty, d("2"));
}

#[test]
fn parse_channel_slash_or_colon() {
    assert_eq!(lighter::parse_market_id("order_book/1"), Some(1));
    assert_eq!(lighter::parse_market_id("order_book:0"), Some(0));
}

#[test]
fn lighter_feed_keeps_a_book_for_each_market() {
    let markets = vec![(1, "BTC-USD-PERP".to_string()), (2, "ETH-USD-PERP".to_string())];
    let mut feed = lighter::LighterFeed::new();
    let mut say = |kind: &str, channel: &str, book: Option<lighter::WsBook>| {
        feed.on_message(&markets, kind, channel, book.as_ref(), now())
    };
    assert!(matches!(say("ping", "", None), lighter::LighterStep::Pong));
    assert!(matches!(say("connected", "", None), lighter::LighterStep::Subscribe));
    assert!(matches!(say("connected", "", None), lighter::LighterStep::Nothing));
    let full = || {
        Some(lighter::WsBook { bids: vec![lv("100", "1")], asks: vec![lv("101", "1")] })
    };
    match say("subscribed/order_book", "order_book:1", full()) {
        lighter::LighterStep::Book(pair, b) => {
            assert_eq!(pair, "BTC-USD-PERP");
            assert_eq!(b.bid, d("100"));
        }
        other => panic!("{other:?}"),
    }
    let half = Some(lighter::WsBook { bids: vec![lv("50", "1")], asks: vec![] });
    assert!(matches!(
        say("update/order_book", "order_book/2", half),
        lighter::LighterStep::Nothing
    ));
    assert!(matches!(
        say("update/order_book", "order_book/9", full()),
        lighter::LighterStep::Nothing
    ));
    let more = Some(lighter::WsBook { bids: vec![lv("100.5", "1")], asks: vec![] });
    match say("update/order_book", "order_book/1", more) {
        lighter::LighterStep::Book(_, b) => assert_eq!(b.bid, d("100.5")),
        other => panic!("{other:?}"),
    }
}

#[test]
fn lighter_lists_active_markets_that_can_be_ordered() {
    let raw = |symbol: &str, status: &str, min: &str| lighter::RawBook {
        symbol: symbol.into(),
        market_id: 7,
        market_type: "perp".into(),
        status: status.into(),
        min_base_amount: min.into(),
        supported_size_decimals: 5,
        daily_quote_token_volume: text("123.5"),
    };
    let books = vec![
        raw("BTC", "active", "0.0002"),
        raw("ETH", "frozen", "0.1"),
        raw("SOL", "", "0"),
        raw("XRP", "", "none"),
    ];
    let markets = lighter::parse_order_books(&VenueId::named("lighter"), &books, &vec![]);
    assert_eq!(markets.len(), 1);
    assert_eq!(markets[0].pair_id, "BTC-USD-PERP");
    assert_eq!(markets[0].min_qty, d("0.0002"));
    assert_eq!(markets[0].volume_24h_usdc, Some(d("123.5")));
    let wanted = vec!["ETH".to_string()];
    assert!(lighter::parse_order_books(&VenueId::named("lighter"), &books, &wanted).is_empty());
}

#[test]
fn best_orders_make_a_book() {
    let row = |bid: Option<&str>, qty: Option<&str>| lighter::OrdersRow {
        bid: bid.map(|t| t.to_string()),
        bid_qty: qty.map(|t| t.to_string()),
        ask: text("101"),
        ask_qty: text("2"),
    };
    let b = lighter::bbo_from_lighter_orders(&row(Some("100"), Some("?")), now()).unwrap();
    assert_eq!(b.bid_qty, Decimal::zero());
    assert_eq!(b.ask_qty, d("2"));
    assert!(lighter::bbo_from_lighter_orders(&row(Some("100"), None), now()).is_none());
    assert!(lighter::bbo_from_lighter_orders(&row(None, Some("1")), now()).is_none());
    assert!(lighter::bbo_from_lighter_orders(&row(Some("102"), Some("1")), now()).is_none());
}

#[test]
fn feed_guard_skips_same_fingerprint() {
    let mut g = FeedGuard::new();
    assert!(g.begin("a,b").is_some());
    assert!(g.begin("a,b").is_none());
    assert!(g.begin("a,b,c").is_some());
    assert!(g.begin("a,b,c").is_none());
}

#[test]
fn begin_receiver_sees_generation() {
    let mut g = FeedGuard::new();
    let gen = g.begin("m1").expect("first subscribe");
    assert_ne!(gen, 0);
    assert_eq!(g.generation(), gen);
    assert!(!g.is_over(gen));
    let gen2 = g.begin("m2").expect("second subscribe");
    assert_eq!(g.generation(), gen2);
    assert_ne!(g.generation(), gen);
    assert!(g.is_over(gen));
}

fn symbol(id: u64, name: &str, base: &str, status: &str, min: &str, precision: i32) -> sodex::RawSymbol {
    sodex::RawSymbol {
        id,
        name: name.into(),
        base_coin: base.into(),
        status: status.into(),
        min_quantity: min.into(),
        quantity_precision: precision,
    }
}

#[test]
fn parses_symbols_and_maps_btc() {
    let data = vec![
        symbol(24, "BTC-USD", "BTC", "TRADING", "0.0001", 4),
        symbol(99, "FOO-USD", "FOO", "HALT", "1", 0),
    ];
    assert_eq!(data.len(), 2);
    let btc = sodex::sodex_pair(&data[0]).unwrap();
    assert_eq!(btc, ("BTC".into(), "BTC-USD-PERP".into()));
    assert_eq!(data[1].status, "HALT");
    let venue = VenueId::named("sodex");
    let markets = sodex::parse_symbols(&venue, 0, &data, &vec![]).unwrap();
    assert_eq!(markets.len(), 1);
    assert_eq!(markets[0].market_index, 24);
    assert_eq!(markets[0].min_qty, d("0.0001"));
    assert!(matches!(
        sodex::parse_symbols(&venue, 5, &data, &vec![]),
        Err(sodex::SodexError::Code(5))
    ));
}

#[test]
fn book_ticker_to_bbo() {
    let tick = sodex::WsTicker {
        s: "BTC-USD".into(),
        a: "100.2".into(),
        ask_qty: "1.5".into(),
        b: "100.1".into(),
        bid_qty: "2".into(),
    };
    let bbo = sodex::ticker_bbo(&tick, now()).unwrap();
    assert_eq!(bbo.bid, d("100.1"));
    assert_eq!(bbo.ask, d("100.2"));
    assert_eq!(bbo.ask_qty, d("1.5"));
}

#[test]
fn tickers_find_their_market_under_any_name() {
    let market = VenueMarket {
        venue: VenueId::named("sodex"),
        raw_symbol: "BTC-USD".into(),
        pair_id: "BTC-USD-PERP".into(),
        base: "BTC".into(),
        market_index: 1,
        qty_precision: 4,
        min_qty: d("0.001"),
        volume_24h_usdc: None,
    };
    let aliases = sodex::symbol_alias_map(&vec![market], " vUSDC ");
    for name in ["btc-usd", "BTC-USD-PERP", "BTC_vUSDC", "vBTC_vUSDC"] {
        let tick = sodex::WsTicker {
            s: name.into(),
            a: "100.2".into(),
            ask_qty: "1.5".into(),
            b: "100.1".into(),
            bid_qty: "2".into(),
        };
        let (pair, bbo) = sodex::on_ticker(&aliases, &tick, now()).unwrap();
        assert_eq!(pair, "BTC-USD-PERP");
        assert_eq!(bbo.bid, d("100.1"));
    }
    assert!(aliases.get("ETH-USD").is_none());
    assert!(sodex::carries_tickers("", "allBookTicker"));
    assert!(!sodex::carries_tickers("pong", "allBookTicker"));
    assert!(!sodex::carries_tickers("", "trade"));
}

#[test]
fn subscriptions_rest_between_batches() {
    let rests: Vec<usize> = (0..45).filter(|i| rests_after(*i, 45, 20)).collect();
    assert_eq!(rests, vec![19, 39]);
    assert!(!rests_after(19, 20, 20));
}
