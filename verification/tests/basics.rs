use dex_arbitr::clock::{Duration, Instant};
use dex_arbitr::decimal::{add_calc, ArithError, Decimal};
use dex_arbitr::keymap::{KeyMap, KeySet};
use dex_arbitr::ranking::sort;
use dex_arbitr::text::{
    after_key, after_last, contains, ends_with, exchange, find_char, find_part, int_text, joined,
    only_alnum, only_alpha, parse_i32, parse_i64, parse_u64, same_but_case, split_once,
    starts_with, strip_prefix, strip_suffix, text_lt, trim, trim_head, trim_tail, uint_text, words,
};

fn d(text: &str) -> Decimal {
    Decimal::parse(text).unwrap()
}

#[test]
fn decimals_compute_exactly() {
    assert_eq!(d("0.1").plus(d("0.2")).unwrap(), d("0.3"));
    assert_eq!(d("1.00").plus(d("0.2")).unwrap().text(), "1.20");
    assert_eq!(d("1").minus(d("0.01")).unwrap(), d("0.99"));
    assert_eq!(Decimal::zero().minus(d("0.5")).unwrap().text(), "-0.5");
    assert_eq!(d("1.5").times(d("-2")).unwrap(), d("-3"));
    assert_eq!(d("1").over(d("8")).unwrap(), d("0.125"));
    assert_eq!(d("6.00").over(d("3")).unwrap().text(), "2.00");
    assert_eq!(d("1").over(Decimal::zero()), Err(ArithError));
    let most = d("79228162514264337593543950335");
    assert_eq!(most.plus(d("1")), Err(ArithError));
    assert_eq!(most.times(d("10")), Err(ArithError));
    assert_eq!(add_calc(Ok(d("1")), Ok(d("2"))), Ok(d("3")));
    assert_eq!(add_calc(Err(ArithError), Ok(d("2"))), Err(ArithError));
}

#[test]
fn adding_zero_keeps_the_digits_of_the_other() {
    assert_eq!(d("0.00").plus(d("1.5")).unwrap().text(), "1.5");
    assert_eq!(d("1.5").plus(d("0.00")).unwrap().text(), "1.5");
    assert_eq!(d("0.0").plus(d("0.00")).unwrap().text(), "0.00");
}

#[test]
fn decimals_are_ordered_by_value() {
    assert!(d("1.10") == d("1.1"));
    assert!(d("-1") < d("0.5"));
    assert!(d("2") > d("1.99"));
    assert_eq!(d("1").max(d("2")), d("2"));
    assert_eq!(d("1").min(d("2")), d("1"));
    assert_eq!(d("-1.5").abs(), d("1.5"));
    assert_eq!(d("1.5").neg(), d("-1.5"));
    assert!(d("0.0").is_zero() && !d("0.1").is_zero());
    assert!(d("0.1").is_positive() && !d("0").is_positive());
}

#[test]
fn rounding_goes_to_the_even_digit() {
    assert_eq!(d("2.5").round(), d("2"));
    assert_eq!(d("3.5").round(), d("4"));
    assert_eq!(d("-2.5").round(), d("-2"));
    assert_eq!(d("0.12345").round_dp(4).text(), "0.1234");
    assert_eq!(d("0.12355").round_dp(4).text(), "0.1236");
    assert_eq!(d("1.2").round_dp(4).text(), "1.2");
    assert_eq!(d("-1.9").trunc().text(), "-1");
}

#[test]
fn decimals_are_read_and_written() {
    assert_eq!(Decimal::parse("abc"), None);
    assert_eq!(Decimal::parse(""), None);
    assert_eq!(d("-0.50").text(), "-0.50");
    assert_eq!(d("1.5").fixed(2), "1.50");
    assert_eq!(d("0.12").fixed(4), "0.1200");
    let wide = d("79228162514264337593543950335");
    assert_eq!(wide.fixed(2), "79228162514264337593543950335.00");
    assert!(wide.can_be_fixed(2) && !wide.can_be_fixed(3));
    assert_eq!(d("123").fixed(28), format!("123.{}", "0".repeat(28)));
    assert!(d("123").can_be_fixed(28) && !d("1234").can_be_fixed(28));
    assert!(!d("1").can_be_fixed(29));
    assert_eq!(Decimal::new(15, 1), d("1.5"));
    assert_eq!(Decimal::from_u64(7), d("7"));
    assert_eq!(Decimal::from_parts(5, 29), None);
    assert_eq!(Decimal::from_parts(5, 1), Some(d("0.5")));
    assert_eq!((d("1.5").mantissa(), d("1.5").scale()), (15, 1));
}

#[test]
fn texts_are_cut_and_joined() {
    assert_eq!(trim(" \t a b\n"), "a b");
    assert_eq!(trim_tail("a//", "/"), "a");
    assert_eq!(trim_head("++1", '+'), "1");
    assert!(starts_with("abc", "ab") && !starts_with("ab", "abc"));
    assert!(ends_with("abc", "bc") && !ends_with("abc", "ab"));
    assert!(contains("abc", "b") && contains("abc", "") && !contains("abc", "d"));
    assert_eq!(find_char("abc", 'c'), Some(2));
    assert_eq!(find_part("ababc", "abc"), Some(2));
    assert_eq!(after_key("x qty=3 y", "qty="), Some("3 y"));
    assert_eq!(after_key("a,b,c", ","), Some("b"));
    assert_eq!(after_last("a/b/c", '/'), "c");
    assert_eq!(after_last("abc", '/'), "abc");
    assert_eq!(split_once("k=v=w", '='), Some(("k", "v=w")));
    assert_eq!(split_once("kv", '='), None);
    assert_eq!(strip_prefix("v1", "v"), Some("1"));
    assert_eq!(strip_suffix("v1", "v"), None);
    assert_eq!(exchange("a/b/c", '/', '-'), "a-b-c");
    assert_eq!(joined("a", "b"), "ab");
    assert_eq!(words("  a\tb  c "), vec!["a", "b", "c"]);
    assert!(words(" \n").is_empty());
    assert!(same_but_case("BtC", "bTc") && !same_but_case("a", "ab"));
    assert!(only_alpha("aB") && !only_alpha("a1") && only_alnum("a1") && !only_alnum("a-"));
}

#[test]
fn numbers_are_spelled_and_read() {
    assert_eq!(int_text(-40), "-40");
    assert_eq!(int_text(0), "0");
    assert_eq!(uint_text(18446744073709551615), "18446744073709551615");
    assert_eq!(parse_u64("18446744073709551615"), Some(u64::MAX));
    assert_eq!(parse_u64("18446744073709551616"), None);
    assert_eq!(parse_u64("+7"), Some(7));
    assert_eq!(parse_u64("-7"), None);
    assert_eq!(parse_u64(""), None);
    assert_eq!(parse_i64("-9223372036854775808"), Some(i64::MIN));
    assert_eq!(parse_i32("2147483648"), None);
    assert_eq!(parse_i32("-5"), Some(-5));
}

#[test]
fn texts_stand_in_dictionary_order() {
    assert!(text_lt("a", "b") && text_lt("a", "ab") && !text_lt("b", "a") && !text_lt("a", "a"));
    let sorted = sort(vec!["b".to_string(), "a".to_string(), "ab".to_string()]);
    assert_eq!(sorted, vec!["a", "ab", "b"]);
}

#[test]
fn maps_hold_one_value_under_a_key() {
    let mut m: KeyMap<u32> = KeyMap::new();
    m.insert("b", 1);
    m.insert("a", 2);
    m.insert("b", 3);
    assert_eq!(m.len(), 2);
    assert_eq!(m.get("b").copied(), Some(3));
    assert_eq!(m.sorted_keys(), vec!["a", "b"]);
    let mut keep = KeySet::new();
    keep.insert("a", ());
    m.retain(&keep);
    assert!(m.contains("a") && !m.contains("b"));
    assert_eq!(m.remove("a"), Some(2));
    assert_eq!(m.remove("a"), None);
    assert!(m.is_empty());
}

#[test]
fn clocks_do_not_run_backwards() {
    let t = Instant::from_millis(5_000);
    assert_eq!(t.since(Instant::from_millis(2_000)), Duration::from_secs(3));
    assert_eq!(Instant::from_millis(2_000).since(t), Duration::zero());
    assert_eq!(t.after(Duration::from_secs(1)), Instant::from_millis(6_000));
    assert_eq!(t.before(Duration::from_secs(1)), Some(Instant::from_millis(4_000)));
    assert_eq!(t.before(Duration::from_secs(6)), None);
    assert_eq!(Duration::from_millis(1_999).as_secs(), 1);
    assert_eq!(Duration::from_secs(2).as_millis(), 2_000);
}

#[test]
fn signs_turn_and_digits_stay() {
    let numbers = [
        "0", "0.00", "1.5", "-2.25", "79228162514264337593543950335", "0.0000000000000000000000000001",
        "7.9228162514264337593543950335", "-12345678901234567890.123456789", "4294967296.5", "0.5",
    ];
    let turn = |x: Result<Decimal, _>| x.map(|d: Decimal| (-d.mantissa(), d.scale()));
    let show = |x: Result<Decimal, _>| x.map(|d: Decimal| (d.mantissa(), d.scale()));
    for a in numbers.map(d) {
        for b in numbers.map(d) {
            assert_eq!(show(a.neg().plus(b.neg())), turn(a.plus(b)));
            assert_eq!(show(a.neg().minus(b)), turn(a.plus(b)));
            assert_eq!(show(a.neg().plus(b)), turn(a.minus(b)));
            assert_eq!(show(a.neg().times(b)), turn(a.times(b)));
        }
    }
}

#[test]
fn trimming_twice_is_trimming_once() {
    for s in ["", "  ", " a b ", "\t0x1 \n"] {
        assert_eq!(trim(trim(s)), trim(s));
    }
}
