//! What a page is shown.

use crate::app::activate::precision_of;
use crate::app::balance::{
    venue_at, BalanceCache, VenueAccountCache, VenueAccountSnapshot, VenueExchangePosition,
};
use crate::app::pair_step::{delta_inputs, pair_delta_inputs};
use crate::app::positions::{held_list, names_all, pos_model, PosModel, PositionStore};
use crate::app::reconcile::NakedSource;
use crate::app::scan::{filled_in, filling_in, most_in, ScanEngine, ScanModel, ScanPhase};
use crate::app::sizing::{mid_between, mid_from_bbo};
use crate::app::window_spread::{VenueSpreadBook, VenueSpreadModel};
use crate::config::AppConfig;
use crate::decimal::{
    decimal_of_text, dmax, dround, fixed_text, has_room, lemma_room, lit, text_of_decimal,
    ArithError, Decimal,
};
use crate::domain::book::{read_book, BookMap};
use crate::domain::position::Position;
use crate::domain::symbol::Pair;
use crate::keymap::{lists_in_order, KeyMap, KeySet};
use crate::ranking::{in_order, law_ranked_in_order, ranked, sort, Ranked};
use crate::text::{
    digits, joined, lemma_lex_three, lex_lt, same, text_lt, trim, trim_head, trim_tail, trimmed,
    uint_text, without_head, without_tail,
};
use vstd::prelude::*;

verus! {

/// A pair on the page.
#[derive(Debug)]
pub struct PairRow {
    pub pair_id: String,
    pub buy: String,
    pub sell: String,
    pub raw_pct: String,
    pub net_pct: String,
    pub fee_pct: String,
    pub nat_pct: String,
    pub res_pct: String,
    pub entry_pct: String,
    pub dev_pct: String,
    pub delta_pct: String,
    pub grid: String,
    pub target_qty: String,
    pub actual_qty: String,
    pub status: String,
}

/// Rows stand by coin, then by the venue that is bought on, then by the other.
impl Ranked for PairRow {
    open spec fn precedes(self, other: PairRow) -> bool {
        lex_lt(self.pair_id@, other.pair_id@) || (self.pair_id@ == other.pair_id@ && (lex_lt(
            self.buy@,
            other.buy@,
        ) || (self.buy@ == other.buy@ && lex_lt(self.sell@, other.sell@))))
    }

    fn is_before(&self, other: &PairRow) -> (r: bool) {
        if text_lt(self.pair_id.as_str(), other.pair_id.as_str()) {
            return true;
        }
        if !same(self.pair_id.as_str(), other.pair_id.as_str()) {
            return false;
        }
        if text_lt(self.buy.as_str(), other.buy.as_str()) {
            return true;
        }
        if !same(self.buy.as_str(), other.buy.as_str()) {
            return false;
        }
        text_lt(self.sell.as_str(), other.sell.as_str())
    }
}

/// Rows come in the order of their pairs, then of the venues on which is bought and
/// sold.
pub proof fn law_rows_in_order(s: Seq<PairRow>)
    ensures
        in_order(ranked(s)),
{
    assert forall|a: PairRow, b: PairRow| #[trigger] a.precedes(b) implies !b.precedes(a) by {
        lemma_lex_three(a.pair_id@, b.pair_id@, a.pair_id@);
        lemma_lex_three(b.pair_id@, a.pair_id@, b.pair_id@);
        lemma_lex_three(a.buy@, b.buy@, a.buy@);
        lemma_lex_three(b.buy@, a.buy@, b.buy@);
        lemma_lex_three(a.sell@, b.sell@, a.sell@);
        lemma_lex_three(b.sell@, a.sell@, b.sell@);
    }
    assert forall|a: PairRow, b: PairRow, c: PairRow|
        #![trigger a.precedes(b), b.precedes(c)]
        !a.precedes(b) && !b.precedes(c) implies !a.precedes(c) by {
        lemma_lex_three(a.pair_id@, b.pair_id@, c.pair_id@);
        lemma_lex_three(b.pair_id@, a.pair_id@, c.pair_id@);
        lemma_lex_three(a.pair_id@, c.pair_id@, b.pair_id@);
        lemma_lex_three(a.buy@, b.buy@, c.buy@);
        lemma_lex_three(b.buy@, a.buy@, c.buy@);
        lemma_lex_three(a.buy@, c.buy@, b.buy@);
        lemma_lex_three(a.sell@, b.sell@, c.sell@);
        lemma_lex_three(b.sell@, a.sell@, c.sell@);
        lemma_lex_three(a.sell@, c.sell@, b.sell@);
    }
    law_ranked_in_order(s);
}

/// The rows in the order in which they are shown.
pub fn sorted_rows(rows: Vec<PairRow>) -> (r: Vec<PairRow>)
    ensures
        r@ == ranked(rows@),
{
    sort(rows)
}

/// The number that a row shows as its spread, if it shows one.
pub open spec fn shown_net(text: Seq<char>) -> Option<Decimal> {
    decimal_of_text(without_head(without_tail(trimmed(text), "%"@), '+'))
}

fn net_of_row(row: &PairRow) -> (r: Option<Decimal>)
    ensures
        r == shown_net(row.net_pct@),
{
    Decimal::parse(trim_head(trim_tail(trim(row.net_pct.as_str()), "%"), '+'))
}

/// The largest spread that is shown.
pub fn best_net(rows: &Vec<PairRow>) -> (r: Option<Decimal>)
    ensures
        match r {
            None => forall|i: int|
                0 <= i < rows@.len() ==> shown_net((#[trigger] rows@[i]).net_pct@) is None,
            Some(b) => (exists|i: int|
                0 <= i < rows@.len() && shown_net((#[trigger] rows@[i]).net_pct@) == Some(b)) && (
            forall|i: int|
                0 <= i < rows@.len() ==> (shown_net((#[trigger] rows@[i]).net_pct@) matches Some(d)
                    ==> d.units() <= b.units())),
        },
{
    let mut best: Option<Decimal> = None;
    let mut i: usize = 0;
    while i < rows.len()
        invariant
            i <= rows@.len(),
            match best {
                None => forall|j: int|
                    0 <= j < i ==> shown_net((#[trigger] rows@[j]).net_pct@) is None,
                Some(b) => (exists|j: int|
                    0 <= j < rows@.len() && shown_net((#[trigger] rows@[j]).net_pct@) == Some(b))
                    && (forall|j: int|
                    0 <= j < i ==> (shown_net((#[trigger] rows@[j]).net_pct@) matches Some(d)
                        ==> d.units() <= b.units())),
            },
        decreases rows.len() - i,
    {
        let ghost before = best;
        if let Some(d) = net_of_row(&rows[i]) {
            proof {
                assert(shown_net(rows@[i as int].net_pct@) == Some(d));
            }
            best = match best {
                None => Some(d),
                Some(b) => if d > b {
                    Some(d)
                } else {
                    Some(b)
                },
            };
        }
        i = i + 1;
    }
    best
}

/// How many rows stand between two venues, in either direction.
pub open spec fn between(rows: Seq<PairRow>, left: Seq<char>, right: Seq<char>) -> int
    decreases rows.len(),
{
    if rows.len() == 0 {
        0
    } else {
        let r = rows.last();
        between(rows.drop_last(), left, right) + (if (r.buy@ == left && r.sell@ == right) || (r.buy@
            == right && r.sell@ == left) {
            1int
        } else {
            0
        })
    }
}

fn count_between(rows: &Vec<PairRow>, left: &str, right: &str) -> (r: usize)
    ensures
        r == between(rows@, left@, right@),
{
    let mut n: usize = 0;
    let mut i: usize = 0;
    proof {
        assert(rows@.take(0) =~= Seq::empty());
    }
    while i < rows.len()
        invariant
            i <= rows@.len(),
            n <= i,
            n == between(rows@.take(i as int), left@, right@),
        decreases rows.len() - i,
    {
        proof {
            assert(rows@.take(i + 1).drop_last() =~= rows@.take(i as int));
        }
        let a = rows[i].buy.as_str();
        let b = rows[i].sell.as_str();
        if (same(a, left) && same(b, right)) || (same(a, right) && same(b, left)) {
            n = n + 1;
        }
        i = i + 1;
    }
    proof {
        assert(rows@.take(i as int) =~= rows@);
    }
    n
}

#[derive(Debug)]
pub struct VenueMatchRow {
    pub left: String,
    pub right: String,
    pub n: usize,
}

/// A count between two venues.
pub struct MatchModel {
    pub left: Seq<char>,
    pub right: Seq<char>,
    pub n: int,
}

pub open spec fn match_models(s: Seq<VenueMatchRow>) -> Seq<MatchModel> {
    s.map_values(
        |r: VenueMatchRow| MatchModel { left: r.left@, right: r.right@, n: r.n as int },
    )
}

/// The counts between venue `i` and the venues from `i + 1` up to `j`.
pub open spec fn matches_with(rows: Seq<PairRow>, venues: Seq<String>, i: int, j: int) -> Seq<
    MatchModel,
>
    decreases j - i,
{
    if j <= i + 1 {
        Seq::empty()
    } else {
        let init = matches_with(rows, venues, i, j - 1);
        let n = between(rows, venues[i]@, venues[j - 1]@);
        if n == 0 {
            init
        } else {
            init.push(MatchModel { left: venues[i]@, right: venues[j - 1]@, n })
        }
    }
}

/// The counts between the first `i` venues and those behind each.
pub open spec fn matches_up_to(rows: Seq<PairRow>, venues: Seq<String>, i: int) -> Seq<MatchModel>
    decreases i,
{
    if i <= 0 {
        Seq::empty()
    } else {
        matches_up_to(rows, venues, i - 1) + matches_with(
            rows,
            venues,
            i - 1,
            venues.len() as int,
        )
    }
}

/// How many pairs are shown between each two venues, where there are some.
pub fn venue_match_rows(rows: &Vec<PairRow>, venues: &Vec<String>) -> (r: Vec<VenueMatchRow>)
    ensures
        match_models(r@) == matches_up_to(rows@, venues@, venues@.len() as int),
{
    let mut out: Vec<VenueMatchRow> = Vec::new();
    let mut i: usize = 0;
    proof {
        assert(match_models(out@) =~= Seq::empty());
    }
    while i < venues.len()
        invariant
            i <= venues@.len(),
            match_models(out@) == matches_up_to(rows@, venues@, i as int),
        decreases venues.len() - i,
    {
        let ghost start = match_models(out@);
        let mut j: usize = i + 1;
        proof {
            assert(start + matches_with(rows@, venues@, i as int, j as int) =~= start);
        }
        while j < venues.len()
            invariant
                i < venues@.len(),
                i + 1 <= j <= venues@.len(),
                match_models(out@) == start + matches_with(
                    rows@,
                    venues@,
                    i as int,
                    j as int,
                ),
            decreases venues.len() - j,
        {
            let ghost before = out@;
            let n = count_between(rows, venues[i].as_str(), venues[j].as_str());
            if n > 0 {
                out.push(VenueMatchRow { left: venues[i].clone(), right: venues[j].clone(), n });
                proof {
                    assert(match_models(out@) =~= match_models(before).push(
                        MatchModel {
                            left: venues@[i as int]@,
                            right: venues@[j as int]@,
                            n: n as int,
                        },
                    ));
                }
            }
            proof {
                assert(match_models(out@) =~= start + matches_with(
                    rows@,
                    venues@,
                    i as int,
                    j + 1,
                ));
            }
            j = j + 1;
        }
        i = i + 1;
    }
    out
}

/// Sets what a row says.
pub fn mark_ui_status(rows: &mut KeyMap<PairRow>, slot: &str, status: &str)
    ensures
        final(rows)@.dom() == old(rows)@.dom(),
        forall|s: Seq<char>|
            s != slot@ && #[trigger] old(rows)@.contains_key(s) ==> final(rows)@[s] == old(
                rows,
            )@[s],
        old(rows)@.contains_key(slot@) ==> {
            let a = old(rows)@[slot@];
            let b = final(rows)@[slot@];
            b == (PairRow { status: b.status, ..a }) && b.status@ == status@
        },
{
    let ghost start = rows@;
    if let Some(row) = rows.remove(slot) {
        let mut r = row;
        r.status = status.to_owned();
        rows.insert(slot, r);
    }
    proof {
        assert(rows@.dom() =~= start.dom());
    }
}

// ---------------------------------------------------------------------------
// Positions and balances
// ---------------------------------------------------------------------------

#[derive(Debug)]
pub struct PositionRow {
    pub pair_id: String,
    pub buy: String,
    pub sell: String,
    pub qty: String,
    pub grid: i32,
    pub entry_notional: String,
}

/// `row` shows a position.
pub open spec fn shows_position(row: PositionRow, p: PosModel) -> bool {
    &&& row.pair_id@ == p.pair_id
    &&& row.buy@ == p.buy
    &&& row.sell@ == p.sell
    &&& row.qty@ == text_of_decimal(p.qty)
    &&& row.grid == p.grid
    &&& row.entry_notional@ == text_of_decimal(p.notional)
}

pub fn position_rows(positions: &PositionStore) -> (r: Vec<PositionRow>)
    ensures
        names_all(positions@, positions.order()),
        ({
            let held = held_list(positions@, positions.order());
            r@.len() == held.len() && forall|i: int|
                0 <= i < held.len() ==> shows_position(#[trigger] r@[i], held[i])
        }),
{
    let open = positions.all_open();
    let ghost held = held_list(positions@, positions.order());
    let mut out: Vec<PositionRow> = Vec::new();
    let mut i: usize = 0;
    proof {
        assert(held.len() == open@.len());
    }
    while i < open.len()
        invariant
            i <= open@.len(),
            held.len() == open@.len(),
            held == open@.map_values(|p: Position| pos_model(p)),
            out@.len() == i,
            forall|j: int| 0 <= j < i ==> shows_position(#[trigger] out@[j], held[j]),
        decreases open.len() - i,
    {
        let p = &open[i];
        proof {
            assert(held[i as int] == pos_model(open@[i as int]));
        }
        out.push(
            PositionRow {
                pair_id: p.pair_id.clone(),
                buy: p.buy.0.clone(),
                sell: p.sell.0.clone(),
                qty: p.qty.text(),
                grid: p.grid,
                entry_notional: p.entry_notional_usdc.text(),
            },
        );
        i = i + 1;
    }
    out
}

#[derive(Debug)]
pub struct VenueBalanceRow {
    pub venue: String,
    pub available: String,
    pub total: String,
}

/// What a venue has: its account where it is known, else what can be spent.
pub open spec fn balance_of(
    accounts: Seq<VenueAccountSnapshot>,
    balances: Map<Seq<char>, Decimal>,
    venue: Seq<char>,
) -> (Decimal, Decimal) {
    let i = venue_at(accounts, venue);
    if i < accounts.len() {
        (accounts[i].available, accounts[i].total)
    } else if balances.contains_key(venue) {
        (balances[venue], balances[venue])
    } else {
        (lit(0, 0), lit(0, 0))
    }
}

pub fn balance_rows(venues: &Vec<String>, accounts: &VenueAccountCache, balance: &BalanceCache) -> (r:
    Vec<VenueBalanceRow>)
    ensures
        r@.len() == venues@.len(),
        forall|i: int|
            0 <= i < r@.len() ==> {
                let (a, t) = balance_of(accounts.venues@, balance.by_venue@, venues@[i]@);
                &&& (#[trigger] r@[i]).venue@ == venues@[i]@
                &&& r@[i].available@ == text_of_decimal(a)
                &&& r@[i].total@ == text_of_decimal(t)
            },
{
    let mut out: Vec<VenueBalanceRow> = Vec::new();
    let mut i: usize = 0;
    while i < venues.len()
        invariant
            i <= venues@.len(),
            out@.len() == i,
            forall|j: int|
                0 <= j < i ==> {
                    let (a, t) = balance_of(accounts.venues@, balance.by_venue@, venues@[j]@);
                    &&& (#[trigger] out@[j]).venue@ == venues@[j]@
                    &&& out@[j].available@ == text_of_decimal(a)
                    &&& out@[j].total@ == text_of_decimal(t)
                },
        decreases venues.len() - i,
    {
        let (available, total) = match accounts.get(venues[i].as_str()) {
            Some(a) => (a.available, a.total),
            None => {
                let x = balance.venue_available(venues[i].as_str());
                (x, x)
            },
        };
        out.push(
            VenueBalanceRow {
                venue: venues[i].clone(),
                available: available.text(),
                total: total.text(),
            },
        );
        i = i + 1;
    }
    out
}

#[derive(Debug)]
pub struct ExchangePositionRow {
    pub venue: String,
    pub symbol: String,
    pub qty: String,
    pub entry_price: Option<String>,
}

/// A row of what a venue holds.
pub struct HeldModel {
    pub venue: Seq<char>,
    pub symbol: Seq<char>,
    pub qty: Seq<char>,
    pub entry_price: Option<Seq<char>>,
}

pub open spec fn held_model(r: ExchangePositionRow) -> HeldModel {
    HeldModel {
        venue: r.venue@,
        symbol: r.symbol@,
        qty: r.qty@,
        entry_price: match r.entry_price {
            Some(t) => Some(t@),
            None => None,
        },
    }
}

pub open spec fn held_models(s: Seq<ExchangePositionRow>) -> Seq<HeldModel> {
    s.map_values(|r: ExchangePositionRow| held_model(r))
}

/// The rows of one venue.
pub open spec fn venue_rows(venue: Seq<char>, s: Seq<VenueExchangePosition>) -> Seq<HeldModel> {
    s.map_values(
        |p: VenueExchangePosition|
            HeldModel {
                venue,
                symbol: p.symbol@,
                qty: text_of_decimal(p.qty),
                entry_price: match p.entry_price {
                    Some(x) => Some(text_of_decimal(x)),
                    None => None,
                },
            },
    )
}

/// The rows of all venues.
pub open spec fn all_rows(s: Seq<VenueAccountSnapshot>) -> Seq<HeldModel>
    decreases s.len(),
{
    if s.len() == 0 {
        Seq::empty()
    } else {
        all_rows(s.drop_last()) + venue_rows(s.last().venue@, s.last().positions@)
    }
}

fn push_venue(out: &mut Vec<ExchangePositionRow>, a: &VenueAccountSnapshot)
    ensures
        held_models(final(out)@) == held_models(old(out)@) + venue_rows(a.venue@, a.positions@),
{
    let ghost start = held_models(out@);
    let ghost goal = venue_rows(a.venue@, a.positions@);
    let mut i: usize = 0;
    proof {
        assert(start =~= start + goal.take(0));
    }
    while i < a.positions.len()
        invariant
            i <= a.positions@.len(),
            goal == venue_rows(a.venue@, a.positions@),
            held_models(out@) == start + goal.take(i as int),
        decreases a.positions.len() - i,
    {
        let ghost before = out@;
        let p = &a.positions[i];
        let entry_price = match p.entry_price {
            Some(x) => Some(x.text()),
            None => None,
        };
        let row = ExchangePositionRow {
            venue: a.venue.clone(),
            symbol: p.symbol.clone(),
            qty: p.qty.text(),
            entry_price,
        };
        proof {
            assert(held_model(row) == goal[i as int]);
        }
        let ghost m = held_model(row);
        out.push(row);
        proof {
            assert(held_models(out@) =~= held_models(before).push(m));
            assert(held_models(out@) =~= start + goal.take(i + 1));
        }
        i = i + 1;
    }
    proof {
        assert(goal.take(i as int) =~= goal);
    }
}

pub fn exchange_position_rows(accounts: &VenueAccountCache) -> (r: Vec<ExchangePositionRow>)
    ensures
        held_models(r@) == all_rows(accounts.venues@),
{
    let mut out: Vec<ExchangePositionRow> = Vec::new();
    let mut i: usize = 0;
    proof {
        assert(accounts.venues@.take(0) =~= Seq::empty());
        assert(held_models(out@) =~= Seq::empty());
    }
    while i < accounts.venues.len()
        invariant
            i <= accounts.venues@.len(),
            held_models(out@) == all_rows(accounts.venues@.take(i as int)),
        decreases accounts.venues.len() - i,
    {
        proof {
            assert(accounts.venues@.take(i + 1).drop_last() =~= accounts.venues@.take(i as int));
        }
        push_venue(&mut out, &accounts.venues[i]);
        i = i + 1;
    }
    proof {
        assert(accounts.venues@.take(i as int) =~= accounts.venues@);
    }
    out
}

pub open spec fn source_word(s: NakedSource) -> Seq<char> {
    match s {
        NakedSource::Foreign => "foreign"@,
        NakedSource::BotFailure => "bot_failure"@,
        NakedSource::SecondLegUnknown => "second_leg_unknown"@,
    }
}

pub fn naked_source_text(s: NakedSource) -> (r: &'static str)
    ensures
        r@ == source_word(s),
{
    match s {
        NakedSource::Foreign => "foreign",
        NakedSource::BotFailure => "bot_failure",
        NakedSource::SecondLegUnknown => "second_leg_unknown",
    }
}

/// What is shown of a venue's own spread: its mean, else how full its window is,
/// else a dash. A mean that is too large to be written is an error.
pub open spec fn spread_words(mean: Option<Decimal>, n: int, cap: int) -> Result<
    Seq<char>,
    ArithError,
> {
    match mean {
        Some(m) => if has_room(m, 4) {
            Ok(fixed_text(m, 4) + "%"@)
        } else {
            Err(ArithError)
        },
        None => Ok(
            if n == 0 {
                "—"@
            } else {
                digits(n) + "/"@ + digits(cap)
            },
        ),
    }
}

pub fn spread_text(mean: Option<Decimal>, n: usize, cap: usize) -> (r: Result<String, ArithError>)
    ensures
        match r {
            Ok(t) => spread_words(mean, n as int, cap as int) == Ok::<Seq<char>, ArithError>(t@),
            Err(_) => spread_words(mean, n as int, cap as int) is Err,
        },
{
    match mean {
        Some(m) => if m.can_be_fixed(4) {
            Ok(joined(m.fixed(4).as_str(), "%"))
        } else {
            Err(ArithError)
        },
        None => if n == 0 {
            Ok("—".to_owned())
        } else {
            let a = joined(uint_text(n as u64).as_str(), "/");
            Ok(joined(a.as_str(), uint_text(cap as u64).as_str()))
        },
    }
}

/// What was traded on a venue, to two digits.
pub fn volume_text(volume: Option<Decimal>) -> (r: String)
    ensures
        r@ == fixed_text(
            dround(
                match volume {
                    Some(v) => v,
                    None => lit(0, 0),
                },
                2,
            ),
            2,
        ),
{
    let v = match volume {
        Some(v) => v,
        None => Decimal::zero(),
    };
    let v = v.round_dp(2);
    proof {
        lemma_room(v, (29 + v.scl()) as nat);
    }
    v.fixed(2)
}

/// A pair that was matched and not looked at yet.
pub fn matched_row(pair: &Pair, delta_pct: &str) -> (r: PairRow)
    ensures
        r.pair_id == pair.pair_id,
        r.buy@ == pair.legs@[0].venue.0@,
        r.sell@ == pair.legs@[1].venue.0@,
        r.raw_pct@ == "—"@,
        r.net_pct@ == "—"@,
        r.fee_pct@ == "—"@,
        r.nat_pct@ == "—"@,
        r.res_pct@ == "—"@,
        r.entry_pct@ == "—"@,
        r.dev_pct@ == "—"@,
        r.delta_pct@ == delta_pct@,
        r.grid@ == "0"@,
        r.target_qty@ == ""@,
        r.actual_qty@ == "0"@,
        r.status@ == "已匹配"@,
{
    PairRow {
        pair_id: pair.pair_id.clone(),
        buy: pair.legs[0].venue.0.clone(),
        sell: pair.legs[1].venue.0.clone(),
        raw_pct: "—".to_owned(),
        net_pct: "—".to_owned(),
        fee_pct: "—".to_owned(),
        nat_pct: "—".to_owned(),
        res_pct: "—".to_owned(),
        entry_pct: "—".to_owned(),
        dev_pct: "—".to_owned(),
        delta_pct: delta_pct.to_owned(),
        grid: "0".to_owned(),
        target_qty: "".to_owned(),
        actual_qty: "0".to_owned(),
        status: "已匹配".to_owned(),
    }
}

// ---------------------------------------------------------------------------
// What can be chosen
// ---------------------------------------------------------------------------

#[derive(Debug)]
pub struct AvailableVenuePair {
    pub left: String,
    pub right: String,
    pub min_qty: String,
    pub qty_precision: u32,
    pub round_trip_fee_pct: String,
    pub mid: Option<String>,
}

#[derive(Debug)]
pub struct AvailableSymbol {
    pub pair_id: String,
    pub symbol: String,
    pub venue_pairs: Vec<AvailableVenuePair>,
}

/// What is shown of a coin on two venues.
pub struct ChoiceModel {
    pub left: Seq<char>,
    pub right: Seq<char>,
    pub min_qty: Seq<char>,
    pub qty_precision: int,
    pub fee: Seq<char>,
    pub mid: Option<Seq<char>>,
}

pub open spec fn choice_model(r: AvailableVenuePair) -> ChoiceModel {
    ChoiceModel {
        left: r.left@,
        right: r.right@,
        min_qty: r.min_qty@,
        qty_precision: r.qty_precision as int,
        fee: r.round_trip_fee_pct@,
        mid: match r.mid {
            Some(t) => Some(t@),
            None => None,
        },
    }
}

/// The price between two venues, if both have a book.
pub open spec fn pair_mid(books: BookMap, pair: Pair) -> Result<Option<Decimal>, ArithError> {
    let id = pair.pair_id@;
    match (books.at(pair.legs@[0].venue.0@, id), books.at(pair.legs@[1].venue.0@, id)) {
        (Some(a), Some(b)) => mid_between(a, b),
        _ => Ok(None),
    }
}

pub open spec fn choice_of(cfg: AppConfig, v: VenueSpreadModel, books: BookMap, pair: Pair) -> Result<
    ChoiceModel,
    ArithError,
> {
    let left = pair.legs@[0].venue.0@;
    let right = pair.legs@[1].venue.0@;
    match (pair_mid(books, pair), delta_inputs(cfg, v, left, right)) {
        (Ok(mid), Ok((fee, _))) => Ok(
            ChoiceModel {
                left,
                right,
                min_qty: text_of_decimal(
                    dmax(pair.legs@[0].min_qty, pair.legs@[1].min_qty),
                ),
                qty_precision: precision_of(pair),
                fee: text_of_decimal(fee),
                mid: match mid {
                    Some(m) => Some(text_of_decimal(m)),
                    None => None,
                },
            },
        ),
        _ => Err(ArithError),
    }
}

fn choice_row(cfg: &AppConfig, spreads: &VenueSpreadBook, books: &BookMap, pair: &Pair) -> (r: Result<
    AvailableVenuePair,
    ArithError,
>)
    ensures
        match r {
            Ok(x) => choice_of(*cfg, spreads@, *books, *pair) == Ok::<ChoiceModel, ArithError>(
                choice_model(x),
            ),
            Err(_) => choice_of(*cfg, spreads@, *books, *pair) is Err,
        },
{
    let left = &pair.legs[0].venue;
    let right = &pair.legs[1].venue;
    let mid = match (
        read_book(books, left.as_str(), pair.pair_id.as_str()),
        read_book(books, right.as_str(), pair.pair_id.as_str()),
    ) {
        (Some(a), Some(b)) => mid_from_bbo(a, b)?,
        _ => None,
    };
    let (fee, _) = pair_delta_inputs(cfg, spreads, left, right)?;
    let a = pair.legs[0].qty_precision;
    let b = pair.legs[1].qty_precision;
    let qty_precision: u32 = if b < a {
        b
    } else {
        a
    };
    Ok(
        AvailableVenuePair {
            left: left.0.clone(),
            right: right.0.clone(),
            min_qty: pair.min_qty().text(),
            qty_precision,
            round_trip_fee_pct: fee.text(),
            mid: match mid {
                Some(m) => Some(m.text()),
                None => None,
            },
        },
    )
}

/// What is shown of a coin, for every two venues that trade it.
pub open spec fn choices_for(
    cfg: AppConfig,
    v: VenueSpreadModel,
    books: BookMap,
    pairs: Seq<Pair>,
    symbol: Seq<char>,
) -> Seq<Result<ChoiceModel, ArithError>>
    decreases pairs.len(),
{
    if pairs.len() == 0 {
        Seq::empty()
    } else {
        let init = choices_for(cfg, v, books, pairs.drop_last(), symbol);
        if pairs.last().legs@[0].base@ == symbol {
            init.push(choice_of(cfg, v, books, pairs.last()))
        } else {
            init
        }
    }
}

/// The first pair of a coin, or how many there are.
pub open spec fn first_of_coin(pairs: Seq<Pair>, symbol: Seq<char>) -> int
    decreases pairs.len(),
{
    if pairs.len() == 0 || pairs[0].legs@[0].base@ == symbol {
        0
    } else {
        1 + first_of_coin(pairs.drop_first(), symbol)
    }
}

/// The coins of the pairs.
pub open spec fn bases(pairs: Seq<Pair>) -> Set<Seq<char>>
    decreases pairs.len(),
{
    if pairs.len() == 0 {
        Set::empty()
    } else {
        bases(pairs.drop_last()).insert(pairs.last().legs@[0].base@)
    }
}

pub open spec fn good_choices(s: Seq<AvailableVenuePair>) -> Seq<Result<ChoiceModel, ArithError>> {
    s.map_values(|r: AvailableVenuePair| Ok::<ChoiceModel, ArithError>(choice_model(r)))
}

fn symbol_row(
    cfg: &AppConfig,
    spreads: &VenueSpreadBook,
    books: &BookMap,
    pairs: &Vec<Pair>,
    symbol: &str,
) -> (r: Result<AvailableSymbol, ArithError>)
    ensures
        match r {
            Ok(x) => {
                let at = first_of_coin(pairs@, symbol@);
                &&& x.symbol@ == symbol@
                &&& good_choices(x.venue_pairs@) == choices_for(
                    *cfg,
                    spreads@,
                    *books,
                    pairs@,
                    symbol@,
                )
                &&& at < pairs@.len() ==> x.pair_id == pairs@[at].pair_id
            },
            Err(_) => exists|i: int|
                0 <= i < pairs@.len() && choice_of(*cfg, spreads@, *books, #[trigger] pairs@[i]) is Err,
        },
{
    let mut found: Option<usize> = None;
    let mut out: Vec<AvailableVenuePair> = Vec::new();
    let mut i: usize = 0;
    proof {
        assert(pairs@.take(0) =~= Seq::empty());
        assert(pairs@.skip(0) =~= pairs@);
        assert(good_choices(out@) =~= Seq::empty());
    }
    while i < pairs.len()
        invariant
            i <= pairs@.len(),
            match found {
                Some(k) => k < i && first_of_coin(pairs@, symbol@) == k,
                None => first_of_coin(pairs@, symbol@) == i + first_of_coin(
                    pairs@.skip(i as int),
                    symbol@,
                ),
            },
            good_choices(out@) == choices_for(
                *cfg,
                spreads@,
                *books,
                pairs@.take(i as int),
                symbol@,
            ),
        decreases pairs.len() - i,
    {
        proof {
            assert(pairs@.take(i + 1).drop_last() =~= pairs@.take(i as int));
            assert(pairs@.skip(i as int).drop_first() =~= pairs@.skip(i + 1));
            assert(pairs@.skip(i as int)[0] == pairs@[i as int]);
        }
        if same(pairs[i].legs[0].base.as_str(), symbol) {
            if found.is_none() {
                found = Some(i);
            }
            let ghost before = out@;
            let row = choice_row(cfg, spreads, books, &pairs[i])?;
            let ghost m = choice_model(row);
            out.push(row);
            proof {
                assert(good_choices(out@) =~= good_choices(before).push(
                    Ok::<ChoiceModel, ArithError>(m),
                ));
            }
        }
        i = i + 1;
    }
    proof {
        assert(pairs@.take(i as int) =~= pairs@);
    }
    let pair_id = match found {
        Some(k) => pairs[k].pair_id.clone(),
        None => "".to_owned(),
    };
    Ok(AvailableSymbol { pair_id, symbol: symbol.to_owned(), venue_pairs: out })
}

fn coin_names(pairs: &Vec<Pair>) -> (r: KeySet)
    ensures
        r@.dom() == bases(pairs@),
{
    let mut out: KeySet = KeyMap::new();
    let mut i: usize = 0;
    proof {
        assert(pairs@.take(0) =~= Seq::empty());
        assert(out@.dom() =~= Set::empty());
    }
    while i < pairs.len()
        invariant
            i <= pairs@.len(),
            out@.dom() == bases(pairs@.take(i as int)),
        decreases pairs.len() - i,
    {
        proof {
            assert(pairs@.take(i + 1).drop_last() =~= pairs@.take(i as int));
        }
        let ghost before = out@;
        out.insert(pairs[i].legs[0].base.as_str(), ());
        proof {
            assert(out@.dom() =~= before.dom().insert(pairs@[i as int].legs@[0].base@));
        }
        i = i + 1;
    }
    proof {
        assert(pairs@.take(i as int) =~= pairs@);
    }
    out
}

/// `x` shows a coin of the pairs.
pub open spec fn shows_coin(
    x: AvailableSymbol,
    cfg: AppConfig,
    v: VenueSpreadModel,
    books: BookMap,
    pairs: Seq<Pair>,
    symbol: Seq<char>,
) -> bool {
    let at = first_of_coin(pairs, symbol);
    &&& x.symbol@ == symbol
    &&& good_choices(x.venue_pairs@) == choices_for(cfg, v, books, pairs, symbol)
    &&& at < pairs.len() ==> x.pair_id == pairs[at].pair_id
}

/// The coins that can be chosen, in dictionary order.
pub fn available_pairs_payload(
    cfg: &AppConfig,
    spreads: &VenueSpreadBook,
    books: &BookMap,
    pairs: &Vec<Pair>,
) -> (r: Result<Vec<AvailableSymbol>, ArithError>)
    ensures
        match r {
            Ok(v) => exists|ids: Seq<String>| #[trigger]
                lists_in_order(ids, bases(pairs@)) && v@.len() == ids.len() && forall|k: int|
                    0 <= k < v@.len() ==> shows_coin(
                        #[trigger] v@[k],
                        *cfg,
                        spreads@,
                        *books,
                        pairs@,
                        ids[k]@,
                    ),
            Err(_) => exists|i: int|
                0 <= i < pairs@.len() && choice_of(*cfg, spreads@, *books, #[trigger] pairs@[i]) is Err,
        },
{
    let ids = coin_names(pairs).sorted_keys();
    let mut out: Vec<AvailableSymbol> = Vec::new();
    let mut i: usize = 0;
    while i < ids.len()
        invariant
            i <= ids@.len(),
            out@.len() == i,
            forall|k: int|
                0 <= k < i ==> shows_coin(
                    #[trigger] out@[k],
                    *cfg,
                    spreads@,
                    *books,
                    pairs@,
                    ids@[k]@,
                ),
        decreases ids.len() - i,
    {
        let row = symbol_row(cfg, spreads, books, pairs, ids[i].as_str())?;
        out.push(row);
        i = i + 1;
    }
    Ok(out)
}

// ---------------------------------------------------------------------------
// The scan
// ---------------------------------------------------------------------------

/// How far the scan is.
#[derive(Clone, Copy, Debug)]
pub struct ScanSummary {
    pub status: ScanPhase,
    pub universe: usize,
    pub candidates: usize,
    pub sampling_n: usize,
    pub filled_n: usize,
    pub window_n: usize,
    pub window_samples: usize,
}

/// How far the scan is: nothing but that it rests where it does not run.
pub open spec fn summary_of(
    running: bool,
    phase: ScanPhase,
    universe: Seq<Pair>,
    candidates: Seq<Pair>,
    m: ScanModel,
) -> ScanSummary {
    if !running && phase == ScanPhase::Idle {
        ScanSummary {
            status: ScanPhase::Idle,
            universe: 0,
            candidates: 0,
            sampling_n: 0,
            filled_n: 0,
            window_n: 0,
            window_samples: 0,
        }
    } else {
        ScanSummary {
            status: phase,
            universe: universe.len() as usize,
            candidates: candidates.len() as usize,
            sampling_n: filling_in(m, candidates) as usize,
            filled_n: filled_in(m, candidates) as usize,
            window_n: most_in(m, candidates) as usize,
            window_samples: m.cap as usize,
        }
    }
}

/// What is told of the scan.
pub fn scan_summary(
    running: bool,
    phase: ScanPhase,
    universe: &Vec<Pair>,
    candidates: &Vec<Pair>,
    engine: &ScanEngine,
) -> (r: ScanSummary)
    ensures
        r == summary_of(running, phase, universe@, candidates@, engine@),
{
    if !running && phase == ScanPhase::Idle {
        return ScanSummary {
            status: ScanPhase::Idle,
            universe: 0,
            candidates: 0,
            sampling_n: 0,
            filled_n: 0,
            window_n: 0,
            window_samples: 0,
        };
    }
    ScanSummary {
        status: phase,
        universe: universe.len(),
        candidates: candidates.len(),
        sampling_n: engine.sampling_n(candidates.as_slice()),
        filled_n: engine.filled_n(candidates.as_slice()),
        window_n: engine.max_n(candidates.as_slice()),
        window_samples: engine.cap(),
    }
}

/// The rows rise by the pair's name; for one pair by the venue on which is bought, and
/// for one such venue by the venue on which is sold.
pub proof fn law_rows_rise(s: Seq<PairRow>, i: int, j: int)
    requires
        0 <= i < j < ranked(s).len(),
    ensures
        ({
            let (a, b) = (ranked(s)[i], ranked(s)[j]);
            &&& !lex_lt(b.pair_id@, a.pair_id@)
            &&& a.pair_id@ == b.pair_id@ ==> !lex_lt(b.buy@, a.buy@)
            &&& a.pair_id@ == b.pair_id@ && a.buy@ == b.buy@ ==> !lex_lt(b.sell@, a.sell@)
        }),
{
    law_rows_in_order(s);
    assert(!ranked(s)[j].precedes(ranked(s)[i]));
}

} // verus!
