//! The program that signs and sends orders: what is asked of it and how its
//! answers are read.

use crate::clock::{secs, Duration};
use crate::config::OrderStyle;
use crate::decimal::{decimal_of_text, lit, Decimal};
use crate::exchange::port::{
    AccountSnapshot, Balance, FillPnl, FundingRate, OrderAck, OrderStatus, VenuePosition,
};
use crate::keymap::KeyMap;
use crate::text::{
    behind_last, digits, has_prefix, joined, parse_u64, same, starts_with, strip_prefix, texts_of,
    trim, trimmed, uint_text, unsigned_of, words, words_of,
};
use vstd::prelude::*;
use vstd::string::*;

verus! {

/// How long an order or its withdrawal is waited for: longer than the slowest
/// confirmation takes on the other side.
pub const WRITE_TIMEOUT_SECS: u64 = 80;

/// How long a question is waited for.
pub const QUERY_TIMEOUT_SECS: u64 = 12;

/// The number that a text spells, if it has 64 bits.
pub open spec fn u64_of(s: Seq<char>) -> Option<u64> {
    match unsigned_of(s) {
        Some(n) => if n <= u64::MAX {
            Some(n as u64)
        } else {
            None
        },
        None => None,
    }
}

fn read_u64(s: &str) -> (r: Option<u64>)
    ensures
        r == u64_of(s@),
{
    proof {
        if let Some(n) = unsigned_of(s@) {
            lemma_unsigned(s@);
        }
    }
    parse_u64(s)
}

proof fn lemma_unsigned(s: Seq<char>)
    ensures
        unsigned_of(s) matches Some(n) ==> n >= 0,
{
    if s.len() > 0 && s[0] == '+' {
        lemma_digits(s.skip(1));
    } else {
        lemma_digits(s);
    }
}

proof fn lemma_digits(s: Seq<char>)
    ensures
        crate::text::all_digits(s) ==> crate::text::digits_value(s) >= 0,
    decreases s.len(),
{
    if crate::text::all_digits(s) {
        assert(crate::text::is_digit(s[s.len() - 1]));
        if s.len() > 1 {
            let init = s.drop_last();
            assert forall|i: int| 0 <= i < init.len() implies crate::text::is_digit(
                #[trigger] init[i],
            ) by {
                assert(init[i] == s[i]);
            }
            lemma_digits(init);
        }
    }
}

/// How many seconds a command is waited for: as the environment says where that
/// is a number.
pub open spec fn timeout_secs(cmd: Seq<char>, set: Option<Seq<char>>) -> int {
    let named = match set {
        Some(t) => u64_of(t),
        None => None,
    };
    match named {
        Some(n) => n as int,
        None => if cmd == "place"@ || cmd == "cancel"@ {
            WRITE_TIMEOUT_SECS as int
        } else {
            QUERY_TIMEOUT_SECS as int
        },
    }
}

pub fn sidecar_timeout(cmd: &str, set: Option<&str>) -> (r: Duration)
    ensures
        r.nanos == secs(
            timeout_secs(
                cmd@,
                match set {
                    Some(t) => Some(t@),
                    None => None,
                },
            ),
        ),
{
    if let Some(t) = set {
        if let Some(n) = read_u64(t) {
            return Duration::from_secs(n);
        }
    }
    if same(cmd, "place") || same(cmd, "cancel") {
        Duration::from_secs(WRITE_TIMEOUT_SECS)
    } else {
        Duration::from_secs(QUERY_TIMEOUT_SECS)
    }
}

// ---------------------------------------------------------------------------
// How long orders took
// ---------------------------------------------------------------------------

/// How long an order took from here to the venue's answer, and where the other
/// side measured it how long signing and sending took.
#[derive(Clone, Copy, Debug, PartialEq, Eq, Structural)]
pub struct PlaceChainRtt {
    pub wall_ms: u64,
    pub sign_ms: Option<u64>,
    pub send_ms: Option<u64>,
    pub sign_to_ack_ms: Option<u64>,
}

/// From the start of signing to the venue's answer, without waiting for a lock, a
/// nonce or the fill.
#[derive(Clone, Copy, Debug, PartialEq, Eq, Structural)]
pub struct LighterPlaceRtt {
    pub sign_ms: u64,
    pub send_ms: u64,
    pub sign_to_ack_ms: u64,
}

/// The last order of each venue.
pub type RttBook = KeyMap<PlaceChainRtt>;

pub open spec fn last_of(m: Map<Seq<char>, PlaceChainRtt>, venue: Seq<char>) -> Option<
    PlaceChainRtt,
> {
    if m.contains_key(venue) {
        Some(m[venue])
    } else {
        None
    }
}

pub fn last_place_rtt(book: &RttBook, venue_id: &str) -> (r: Option<PlaceChainRtt>)
    ensures
        r == last_of(book@, venue_id@),
{
    match book.get(venue_id) {
        Some(x) => Some(*x),
        None => None,
    }
}

pub open spec fn lighter_part(x: Option<PlaceChainRtt>) -> Option<LighterPlaceRtt> {
    match x {
        Some(x) => match (x.sign_ms, x.send_ms, x.sign_to_ack_ms) {
            (Some(sign_ms), Some(send_ms), Some(sign_to_ack_ms)) => Some(
                LighterPlaceRtt { sign_ms, send_ms, sign_to_ack_ms },
            ),
            _ => None,
        },
        None => None,
    }
}

pub fn last_lighter_place_rtt(book: &RttBook, venue_id: &str) -> (r: Option<LighterPlaceRtt>)
    ensures
        r == lighter_part(last_of(book@, venue_id@)),
{
    match last_place_rtt(book, venue_id) {
        Some(x) => match (x.sign_ms, x.send_ms, x.sign_to_ack_ms) {
            (Some(sign_ms), Some(send_ms), Some(sign_to_ack_ms)) => Some(
                LighterPlaceRtt { sign_ms, send_ms, sign_to_ack_ms },
            ),
            _ => None,
        },
        None => None,
    }
}

pub fn note_place_rtt(book: &mut RttBook, venue_id: &str, rtt: PlaceChainRtt)
    ensures
        final(book)@ == old(book)@.insert(venue_id@, rtt),
{
    book.insert(venue_id, rtt);
}

/// A measured order noted beside the time it took here; where that is not known
/// the time to the answer stands for it.
pub open spec fn lighter_noted(x: Option<PlaceChainRtt>, rtt: LighterPlaceRtt) -> PlaceChainRtt {
    PlaceChainRtt {
        wall_ms: match x {
            Some(x) => x.wall_ms,
            None => rtt.sign_to_ack_ms,
        },
        sign_ms: Some(rtt.sign_ms),
        send_ms: Some(rtt.send_ms),
        sign_to_ack_ms: Some(rtt.sign_to_ack_ms),
    }
}

pub fn note_lighter_place_rtt(book: &mut RttBook, venue_id: &str, rtt: LighterPlaceRtt)
    ensures
        final(book)@ == old(book)@.insert(
            venue_id@,
            lighter_noted(last_of(old(book)@, venue_id@), rtt),
        ),
{
    let wall_ms: u64 = match last_place_rtt(book, venue_id) {
        Some(x) => x.wall_ms,
        None => rtt.sign_to_ack_ms,
    };
    let row = PlaceChainRtt {
        wall_ms,
        sign_ms: Some(rtt.sign_ms),
        send_ms: Some(rtt.send_ms),
        sign_to_ack_ms: Some(rtt.sign_to_ack_ms),
    };
    note_place_rtt(book, venue_id, row);
}

/// What was noted last is what is read, and other venues keep what they have.
pub proof fn law_noted_is_read(
    m: Map<Seq<char>, PlaceChainRtt>,
    venue: Seq<char>,
    other: Seq<char>,
    rtt: LighterPlaceRtt,
)
    requires
        venue != other,
    ensures
        ({
            let after = m.insert(venue, lighter_noted(last_of(m, venue), rtt));
            &&& lighter_part(last_of(after, venue)) == Some(rtt)
            &&& last_of(after, other) == last_of(m, other)
        }),
{
}

/// What a line has said so far.
pub struct RttParts {
    pub venue: Option<Seq<char>>,
    pub sign: Option<u64>,
    pub send: Option<u64>,
    pub total: Option<u64>,
}

/// A line's words read in turn: a word that comes again replaces the earlier one.
pub open spec fn rtt_parts(ws: Seq<Seq<char>>) -> RttParts
    decreases ws.len(),
{
    if ws.len() == 0 {
        RttParts { venue: None, sign: None, send: None, total: None }
    } else {
        let p = rtt_parts(ws.drop_last());
        let w = ws.last();
        if has_prefix(w, "venue="@) {
            RttParts { venue: Some(w.skip("venue="@.len() as int)), ..p }
        } else if has_prefix(w, "sign_ms="@) {
            RttParts { sign: u64_of(w.skip("sign_ms="@.len() as int)), ..p }
        } else if has_prefix(w, "send_ms="@) {
            RttParts { send: u64_of(w.skip("send_ms="@.len() as int)), ..p }
        } else if has_prefix(w, "sign_to_ack_ms="@) {
            RttParts { total: u64_of(w.skip("sign_to_ack_ms="@.len() as int)), ..p }
        } else {
            p
        }
    }
}

/// What a line of the other side's log says of an order, if it is such a line.
pub open spec fn rtt_line(line: Seq<char>) -> Option<(Seq<char>, LighterPlaceRtt)> {
    let t = trimmed(line);
    if !has_prefix(t, "lighter place rtt "@) {
        None
    } else {
        let p = rtt_parts(words_of(t));
        match (p.venue, p.sign, p.send, p.total) {
            (Some(v), Some(sign_ms), Some(send_ms), Some(sign_to_ack_ms)) => Some(
                (v, LighterPlaceRtt { sign_ms, send_ms, sign_to_ack_ms }),
            ),
            _ => None,
        }
    }
}

pub fn parse_lighter_place_rtt_line(line: &str) -> (r: Option<(String, LighterPlaceRtt)>)
    ensures
        match r {
            Some((v, rtt)) => rtt_line(line@) == Some((v@, rtt)),
            None => rtt_line(line@) is None,
        },
{
    let t = trim(line);
    if !starts_with(t, "lighter place rtt ") {
        return None;
    }
    let ws = words(t);
    let mut venue: Option<String> = None;
    let mut sign: Option<u64> = None;
    let mut send: Option<u64> = None;
    let mut total: Option<u64> = None;
    let mut i: usize = 0;
    let ghost all = texts_of(ws@);
    proof {
        assert(all.take(0) =~= Seq::empty());
    }
    while i < ws.len()
        invariant
            i <= ws.len(),
            all == texts_of(ws@),
            ({
                let p = rtt_parts(all.take(i as int));
                &&& p.venue == (match venue {
                    Some(v) => Some(v@),
                    None => None,
                })
                &&& p.sign == sign
                &&& p.send == send
                &&& p.total == total
            }),
        decreases ws.len() - i,
    {
        proof {
            assert(all.take(i + 1).drop_last() =~= all.take(i as int));
            assert(all.take(i + 1).last() == ws@[i as int]@);
        }
        let w = ws[i].as_str();
        if let Some(v) = strip_prefix(w, "venue=") {
            venue = Some(v.to_owned());
        } else if let Some(v) = strip_prefix(w, "sign_ms=") {
            sign = read_u64(v);
        } else if let Some(v) = strip_prefix(w, "send_ms=") {
            send = read_u64(v);
        } else if let Some(v) = strip_prefix(w, "sign_to_ack_ms=") {
            total = read_u64(v);
        }
        i = i + 1;
    }
    proof {
        assert(all.take(i as int) =~= all);
    }
    match (venue, sign, send, total) {
        (Some(v), Some(sign_ms), Some(send_ms), Some(sign_to_ack_ms)) => Some(
            (v, LighterPlaceRtt { sign_ms, send_ms, sign_to_ack_ms }),
        ),
        _ => None,
    }
}

/// A number of milliseconds in an answer: spelled in a text, or as a number.
pub open spec fn ms_of(text: Option<Seq<char>>, number: Option<u64>) -> Option<u64> {
    match text {
        Some(t) => u64_of(t),
        None => number,
    }
}

pub fn json_ms(text: Option<&str>, number: Option<u64>) -> (r: Option<u64>)
    ensures
        r == ms_of(
            match text {
                Some(t) => Some(t@),
                None => None,
            },
            number,
        ),
{
    match text {
        Some(t) => read_u64(t),
        None => number,
    }
}

/// A file's name without what follows its last dot. A dot at the start counts as
/// a letter.
pub open spec fn file_stem(name: Seq<char>) -> Seq<char> {
    let ext = behind_last(name, '.');
    if ext.len() + 1 < name.len() {
        name.take(name.len() - ext.len() - 1)
    } else {
        name
    }
}

/// A path that every system takes apart in the same way, at its `/`s: it names no drive,
/// share or device.
pub open spec fn is_common_path(path: Seq<char>) -> bool {
    &&& forall|i: int|
        0 <= i < path.len() ==> #[trigger] path[i] != '\\' && path[i] != ':' && path[i] != '?'
    &&& !has_prefix(path, "//"@)
}

/// The last part of a path that is a name: `/` and `/.` behind it do not count. Empty where
/// there is none, as for a path that ends in `..`.
pub open spec fn file_name(path: Seq<char>) -> Seq<char>
    decreases path.len(),
{
    if path.len() == 0 {
        path
    } else if path.last() == '/' {
        file_name(path.drop_last())
    } else {
        let last = behind_last(path, '/');
        if last == "."@ && last.len() < path.len() {
            file_name(path.drop_last())
        } else if last == "."@ || last == ".."@ {
            Seq::empty()
        } else {
            last
        }
    }
}

/// `std::path::Path::file_stem`, where what it gives is text: the name that a path ends
/// in, without what follows its last dot, and nothing for a path that ends in no name.
/// Nothing is said of paths with a drive, a share or a device: the system decides how
/// they are taken apart.
#[verifier::external_body]
fn path_stem(path: &str) -> (r: Option<String>)
    ensures
        match r {
            Some(t) => is_common_path(path@) ==> file_name(path@).len() > 0 && t@ == file_stem(
                file_name(path@),
            ),
            None => is_common_path(path@) ==> file_name(path@).len() == 0,
        },
{
    let stem = std::path::Path::new(path).file_stem()?;
    stem.to_str().map(String::from)
}

/// The venue that a file of this name, its ending left out, is for.
pub open spec fn stem_venue(stem: Seq<char>) -> Seq<char> {
    if stem == "lighter_robinhood"@ {
        "lighter_rh"@
    } else {
        stem
    }
}

pub fn venue_of_stem(stem: &str) -> (r: String)
    ensures
        r@ == stem_venue(stem@),
{
    if same(stem, "lighter_robinhood") {
        "lighter_rh".to_owned()
    } else {
        stem.to_owned()
    }
}

/// The venue that a file is for.
pub open spec fn yaml_venue(path: Seq<char>) -> Seq<char> {
    stem_venue(file_stem(file_name(path)))
}

/// The venue that a file is for; a path that names no file is for the venue without a
/// name.
pub fn venue_id_from_yaml(path: &str) -> (r: String)
    ensures
        is_common_path(path@) ==> r@ == yaml_venue(path@),
{
    proof {
        reveal_strlit("lighter_robinhood");
        reveal_strlit("");
        if file_name(path@).len() == 0 {
            assert(file_stem(file_name(path@)) =~= ""@);
        }
    }
    match path_stem(path) {
        Some(stem) => venue_of_stem(stem.as_str()),
        None => "".to_owned(),
    }
}

/// Notes how long an order took, under the venue whose file was given.
pub fn note_rtt_from_place(
    book: &mut RttBook,
    venue_yaml: &str,
    wall_ms: u64,
    sign_ms: Option<u64>,
    send_ms: Option<u64>,
    sign_to_ack_ms: Option<u64>,
)
    ensures
        exists|venue: Seq<char>|
            {
                &&& is_common_path(venue_yaml@) ==> venue == yaml_venue(venue_yaml@)
                &&& final(book)@ == #[trigger] old(book)@.insert(
                    venue,
                    (PlaceChainRtt { wall_ms, sign_ms, send_ms, sign_to_ack_ms }),
                )
            },
{
    let venue = venue_id_from_yaml(venue_yaml);
    note_place_rtt(
        book,
        venue.as_str(),
        PlaceChainRtt { wall_ms, sign_ms, send_ms, sign_to_ack_ms },
    );
}

/// What is shown of a venue's last order.
pub open spec fn rtt_words(x: Option<PlaceChainRtt>) -> Seq<char> {
    match x {
        None => "—"@,
        Some(x) => match lighter_part(Some(x)) {
            Some(l) => digits(l.sign_ms as int) + "+"@ + digits(l.send_ms as int) + "="@ + digits(
                l.sign_to_ack_ms as int,
            ) + "ms · 全链路"@ + digits(x.wall_ms as int) + "ms"@,
            None => digits(x.wall_ms as int) + "ms"@,
        },
    }
}

pub fn place_rtt_text(book: &RttBook, venue: &str) -> (r: String)
    ensures
        r@ == rtt_words(last_of(book@, venue@)),
{
    match last_place_rtt(book, venue) {
        None => "—".to_owned(),
        Some(x) => {
            let wall = uint_text(x.wall_ms);
            match (x.sign_ms, x.send_ms, x.sign_to_ack_ms) {
                (Some(sign), Some(send), Some(ack)) => {
                    let a = joined(uint_text(sign).as_str(), "+");
                    let b = joined(a.as_str(), uint_text(send).as_str());
                    let c = joined(b.as_str(), "=");
                    let d = joined(c.as_str(), uint_text(ack).as_str());
                    let e = joined(d.as_str(), "ms · 全链路");
                    let f = joined(e.as_str(), wall.as_str());
                    joined(f.as_str(), "ms")
                },
                _ => joined(wall.as_str(), "ms"),
            }
        },
    }
}

// ---------------------------------------------------------------------------
// Answers
// ---------------------------------------------------------------------------

/// A line from the other side.
#[derive(Clone, Copy, Debug, PartialEq, Eq, Structural)]
pub enum Reply {
    /// News of an order that nobody asked for.
    Push,
    /// The answer to a question.
    Answer,
    /// A question that failed.
    Failure,
}

pub fn reply_kind(push: &str, success: bool) -> (r: Reply)
    ensures
        r == (if push@.len() > 0 {
            Reply::Push
        } else if success {
            Reply::Answer
        } else {
            Reply::Failure
        }),
{
    if push.unicode_len() > 0 {
        Reply::Push
    } else if success {
        Reply::Answer
    } else {
        Reply::Failure
    }
}

/// Notes that a venue's orders are followed, once.
pub fn note_watched(watched: &mut Vec<String>, path: &str)
    ensures
        texts_of(final(watched)@) == (if texts_of(old(watched)@).contains(path@) {
            texts_of(old(watched)@)
        } else {
            texts_of(old(watched)@).push(path@)
        }),
{
    let ghost start = watched@;
    let mut i: usize = 0;
    while i < watched.len()
        invariant
            watched@ == start,
            i <= start.len(),
            start == old(watched)@,
            forall|k: int| 0 <= k < i ==> (#[trigger] start[k])@ != path@,
        decreases start.len() - i,
    {
        if same(watched[i].as_str(), path) {
            proof {
                assert(texts_of(start)[i as int] == path@);
            }
            return ;
        }
        i = i + 1;
    }
    proof {
        assert(!texts_of(start).contains(path@)) by {
            if texts_of(start).contains(path@) {
                let k = choose|k: int|
                    0 <= k < start.len() && #[trigger] texts_of(start)[k] == path@;
                assert(start[k]@ == path@);
            }
        }
    }
    watched.push(path.to_owned());
    proof {
        assert(texts_of(watched@) =~= texts_of(start).push(path@));
    }
}

/// The number that a field spells, whether it was written as a text or as a
/// number.
pub open spec fn field_decimal(text: Option<String>) -> Option<Decimal> {
    match text {
        Some(t) => decimal_of_text(t@),
        None => None,
    }
}

pub fn dec(text: &Option<String>) -> (r: Option<Decimal>)
    ensures
        r == field_decimal(*text),
{
    match text {
        Some(t) => Decimal::parse(t.as_str()),
        None => None,
    }
}

/// A funding rate as it was read, with what was missing left out.
#[derive(Debug)]
pub struct FundingRow {
    pub symbol: Option<String>,
    pub rate: Option<String>,
    pub interval_secs: Option<u64>,
}

/// What a row says. One without a period, with a period of nothing, or with one
/// beyond 32 bits says nothing: rates are divided by it.
pub open spec fn funding_row(row: FundingRow) -> Option<(Seq<char>, Decimal, int)> {
    match (row.interval_secs, row.symbol, field_decimal(row.rate)) {
        (Some(n), Some(s), Some(d)) => if n == 0 || n > u32::MAX {
            None
        } else {
            Some((s@, d, n as int))
        },
        _ => None,
    }
}

pub open spec fn funding_model(r: FundingRate) -> (Seq<char>, Decimal, int) {
    (r.symbol@, r.rate, r.interval_secs as int)
}

pub open spec fn funding_models(s: Seq<FundingRate>) -> Seq<(Seq<char>, Decimal, int)> {
    s.map_values(|r: FundingRate| funding_model(r))
}

/// The rows that say something.
pub open spec fn funding_rows(rows: Seq<FundingRow>) -> Seq<(Seq<char>, Decimal, int)>
    decreases rows.len(),
{
    if rows.len() == 0 {
        Seq::empty()
    } else {
        match funding_row(rows.last()) {
            Some(m) => funding_rows(rows.drop_last()).push(m),
            None => funding_rows(rows.drop_last()),
        }
    }
}

pub fn parse_funding(rows: &Vec<FundingRow>) -> (r: Vec<FundingRate>)
    ensures
        funding_models(r@) == funding_rows(rows@),
{
    let mut out: Vec<FundingRate> = Vec::new();
    let mut i: usize = 0;
    proof {
        assert(rows@.take(0) =~= Seq::empty());
        assert(funding_models(out@) =~= Seq::empty());
    }
    while i < rows.len()
        invariant
            i <= rows@.len(),
            funding_models(out@) == funding_rows(rows@.take(i as int)),
        decreases rows.len() - i,
    {
        proof {
            assert(rows@.take(i + 1).drop_last() =~= rows@.take(i as int));
        }
        let row = &rows[i];
        let rate = dec(&row.rate);
        if let (Some(n), Some(s), Some(d)) = (row.interval_secs, &row.symbol, rate) {
            if n != 0 && n <= u32::MAX as u64 {
                let ghost before = out@;
                let interval_secs: u32 = n as u32;
                let item = FundingRate { symbol: s.clone(), rate: d, interval_secs };
                let ghost m = funding_model(item);
                out.push(item);
                proof {
                    assert(funding_models(out@) =~= funding_models(before).push(m));
                }
            }
        }
        i = i + 1;
    }
    proof {
        assert(rows@.take(i as int) =~= rows@);
    }
    out
}

/// What a close earned, as it was read.
#[derive(Debug)]
pub struct FillRow {
    pub realized_pnl: Option<String>,
    pub per_fill: Option<bool>,
    pub found: Option<bool>,
}

pub fn parse_fill_pnl(row: &FillRow) -> (r: FillPnl)
    ensures
        r.realized_pnl == (match field_decimal(row.realized_pnl) {
            Some(d) => d,
            None => lit(0, 0),
        }),
        r.per_fill == (row.per_fill == Some(true)),
        r.found == (row.found == Some(true)),
{
    FillPnl {
        realized_pnl: match dec(&row.realized_pnl) {
            Some(d) => d,
            None => Decimal::zero(),
        },
        per_fill: match row.per_fill {
            Some(b) => b,
            None => false,
        },
        found: match row.found {
            Some(b) => b,
            None => false,
        },
    }
}

pub open spec fn style_text(s: OrderStyle) -> Seq<char> {
    match s {
        OrderStyle::LimitMaker => "limit"@,
        OrderStyle::LimitThenMarket => "limit"@,
        OrderStyle::MarketTaker => "market"@,
        OrderStyle::AggressiveLimit => "aggressive_limit"@,
    }
}

/// The word for a style. A limit that does not rest has a word of its own: the
/// other side asks after it until it is settled.
pub fn style_word(s: OrderStyle) -> (r: &'static str)
    ensures
        r@ == style_text(s),
{
    match s {
        OrderStyle::LimitMaker => "limit",
        OrderStyle::LimitThenMarket => "limit",
        OrderStyle::MarketTaker => "market",
        OrderStyle::AggressiveLimit => "aggressive_limit",
    }
}

#[derive(Debug)]
pub struct BalanceRow {
    pub asset: Option<String>,
    pub available: Option<String>,
    pub total: Option<String>,
}

#[derive(Debug)]
pub struct HoldingRow {
    pub symbol: Option<String>,
    pub qty: Option<String>,
    pub entry_price: Option<String>,
    pub realized_pnl: Option<String>,
}

/// A balance: the asset, what can be spent and the total.
pub open spec fn balance_row(row: BalanceRow) -> Option<
    (Seq<char>, Decimal, Option<Decimal>),
> {
    match (row.asset, field_decimal(row.available)) {
        (Some(a), Some(d)) => Some((a@, d, field_decimal(row.total))),
        _ => None,
    }
}

pub open spec fn balance_model(b: Balance) -> (Seq<char>, Decimal, Option<Decimal>) {
    (b.asset@, b.available, b.total)
}

pub open spec fn balance_models(s: Seq<Balance>) -> Seq<(Seq<char>, Decimal, Option<Decimal>)> {
    s.map_values(|b: Balance| balance_model(b))
}

pub open spec fn balance_rows(rows: Seq<BalanceRow>) -> Seq<
    (Seq<char>, Decimal, Option<Decimal>),
>
    decreases rows.len(),
{
    if rows.len() == 0 {
        Seq::empty()
    } else {
        match balance_row(rows.last()) {
            Some(m) => balance_rows(rows.drop_last()).push(m),
            None => balance_rows(rows.drop_last()),
        }
    }
}

fn read_balances(rows: &Vec<BalanceRow>) -> (r: Vec<Balance>)
    ensures
        balance_models(r@) == balance_rows(rows@),
{
    let mut out: Vec<Balance> = Vec::new();
    let mut i: usize = 0;
    proof {
        assert(rows@.take(0) =~= Seq::empty());
        assert(balance_models(out@) =~= Seq::empty());
    }
    while i < rows.len()
        invariant
            i <= rows@.len(),
            balance_models(out@) == balance_rows(rows@.take(i as int)),
        decreases rows.len() - i,
    {
        proof {
            assert(rows@.take(i + 1).drop_last() =~= rows@.take(i as int));
        }
        let row = &rows[i];
        let available = dec(&row.available);
        if let (Some(a), Some(d)) = (&row.asset, available) {
            let ghost before = out@;
            let item = Balance { asset: a.clone(), available: d, total: dec(&row.total) };
            let ghost m = balance_model(item);
            out.push(item);
            proof {
                assert(balance_models(out@) =~= balance_models(before).push(m));
            }
        }
        i = i + 1;
    }
    proof {
        assert(rows@.take(i as int) =~= rows@);
    }
    out
}

/// A holding: the symbol, the quantity, the price of entry and what was earned.
pub struct HoldingModel {
    pub symbol: Seq<char>,
    pub qty: Decimal,
    pub entry_price: Option<Decimal>,
    pub realized_pnl: Option<Decimal>,
}

pub open spec fn holding_row(row: HoldingRow) -> Option<HoldingModel> {
    match (row.symbol, field_decimal(row.qty)) {
        (Some(s), Some(qty)) => Some(
            HoldingModel {
                symbol: s@,
                qty,
                entry_price: field_decimal(row.entry_price),
                realized_pnl: field_decimal(row.realized_pnl),
            },
        ),
        _ => None,
    }
}

pub open spec fn holding_model(p: VenuePosition) -> HoldingModel {
    HoldingModel {
        symbol: p.symbol@,
        qty: p.qty,
        entry_price: p.entry_price,
        realized_pnl: p.realized_pnl,
    }
}

pub open spec fn holding_models(s: Seq<VenuePosition>) -> Seq<HoldingModel> {
    s.map_values(|p: VenuePosition| holding_model(p))
}

pub open spec fn holding_rows(rows: Seq<HoldingRow>) -> Seq<HoldingModel>
    decreases rows.len(),
{
    if rows.len() == 0 {
        Seq::empty()
    } else {
        match holding_row(rows.last()) {
            Some(m) => holding_rows(rows.drop_last()).push(m),
            None => holding_rows(rows.drop_last()),
        }
    }
}

fn read_holdings(rows: &Vec<HoldingRow>) -> (r: Vec<VenuePosition>)
    ensures
        holding_models(r@) == holding_rows(rows@),
{
    let mut out: Vec<VenuePosition> = Vec::new();
    let mut i: usize = 0;
    proof {
        assert(rows@.take(0) =~= Seq::empty());
        assert(holding_models(out@) =~= Seq::empty());
    }
    while i < rows.len()
        invariant
            i <= rows@.len(),
            holding_models(out@) == holding_rows(rows@.take(i as int)),
        decreases rows.len() - i,
    {
        proof {
            assert(rows@.take(i + 1).drop_last() =~= rows@.take(i as int));
        }
        let row = &rows[i];
        let qty = dec(&row.qty);
        if let (Some(s), Some(d)) = (&row.symbol, qty) {
            let ghost before = out@;
            let item = VenuePosition {
                symbol: s.clone(),
                qty: d,
                entry_price: dec(&row.entry_price),
                realized_pnl: dec(&row.realized_pnl),
            };
            let ghost m = holding_model(item);
            out.push(item);
            proof {
                assert(holding_models(out@) =~= holding_models(before).push(m));
            }
        }
        i = i + 1;
    }
    proof {
        assert(rows@.take(i as int) =~= rows@);
    }
    out
}

/// An account. Rows that lack what they are about are left out.
pub fn parse_account(balances: &Vec<BalanceRow>, positions: &Vec<HoldingRow>) -> (r:
    AccountSnapshot)
    ensures
        balance_models(r.balances@) == balance_rows(balances@),
        holding_models(r.positions@) == holding_rows(positions@),
{
    AccountSnapshot { balances: read_balances(balances), positions: read_holdings(positions) }
}

/// An order's answer, as it was read.
#[derive(Debug)]
pub struct AckRow {
    pub status: Option<String>,
    pub order_id: Option<String>,
    pub client_order_id: Option<String>,
    pub filled_qty: Option<String>,
    pub avg_price: Option<String>,
}

#[derive(Clone, Copy, Debug, PartialEq, Eq, Structural)]
pub enum BridgeError {
    /// An order was taken, but nobody said under which number.
    EmptyOrderId,
}

pub open spec fn status_of(word: Option<String>) -> OrderStatus {
    match word {
        None => OrderStatus::Unknown,
        Some(w) => if w@ == "accepted"@ {
            OrderStatus::Accepted
        } else if w@ == "partial"@ {
            OrderStatus::Partial
        } else if w@ == "filled"@ {
            OrderStatus::Filled
        } else if w@ == "canceled"@ {
            OrderStatus::Canceled
        } else if w@ == "rejected"@ {
            OrderStatus::Rejected
        } else {
            OrderStatus::Unknown
        },
    }
}

fn read_status(word: &Option<String>) -> (r: OrderStatus)
    ensures
        r == status_of(*word),
{
    match word {
        None => OrderStatus::Unknown,
        Some(w) => {
            let w = w.as_str();
            if same(w, "accepted") {
                OrderStatus::Accepted
            } else if same(w, "partial") {
                OrderStatus::Partial
            } else if same(w, "filled") {
                OrderStatus::Filled
            } else if same(w, "canceled") {
                OrderStatus::Canceled
            } else if same(w, "rejected") {
                OrderStatus::Rejected
            } else {
                OrderStatus::Unknown
            }
        },
    }
}

/// The answer lacks the number of an order that was taken.
pub open spec fn lacks_id(row: AckRow) -> bool {
    let status = status_of(row.status);
    &&& (row.order_id is None || row.order_id->0@.len() == 0)
    &&& (status == OrderStatus::Accepted || status == OrderStatus::Partial || status
        == OrderStatus::Filled)
}

pub fn parse_order_ack(row: &AckRow) -> (r: Result<OrderAck, BridgeError>)
    ensures
        match r {
            Err(e) => e == BridgeError::EmptyOrderId && lacks_id(*row),
            Ok(a) => {
                &&& !lacks_id(*row)
                &&& a.order_id@ == (match row.order_id {
                    Some(t) => t@,
                    None => ""@,
                })
                &&& a.client_order_id == row.client_order_id
                &&& a.filled_qty == (match field_decimal(row.filled_qty) {
                    Some(d) => d,
                    None => lit(0, 0),
                })
                &&& a.avg_price == field_decimal(row.avg_price)
                &&& a.status == status_of(row.status)
            },
        },
{
    let status = read_status(&row.status);
    let order_id = match &row.order_id {
        Some(t) => t.clone(),
        None => "".to_owned(),
    };
    proof {
        reveal_strlit("");
    }
    if order_id.as_str().unicode_len() == 0 && (status == OrderStatus::Accepted || status
        == OrderStatus::Partial || status == OrderStatus::Filled) {
        return Err(BridgeError::EmptyOrderId);
    }
    Ok(
        OrderAck {
            order_id,
            client_order_id: match &row.client_order_id {
                Some(t) => Some(t.clone()),
                None => None,
            },
            filled_qty: match dec(&row.filled_qty) {
                Some(d) => d,
                None => Decimal::zero(),
            },
            avg_price: dec(&row.avg_price),
            status,
        },
    )
}

} // verus!
