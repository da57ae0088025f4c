//! Venues, markets and the pairs that two venues make of one coin.

use crate::decimal::{dmax, Decimal};
use crate::ranking::{in_order, law_ranked_in_order, ranked, sort, Ranked};
use crate::text::{
    all_alnum, all_alpha, ascii_lower, ascii_upper, exchange, exchanged, first_at, has_suffix,
    joined, law_lex_asymmetric, law_lex_total, lemma_first_at, lemma_lex_three, lex_lt,
    lower_char, only_alnum, only_alpha, same, same_but_case, same_ignoring_case, split_once,
    strip_suffix, text_lt, to_ascii_lower, to_ascii_upper, trim, trim_head, trim_tail, trimmed,
    trimmed_end, trimmed_start, upper_char, without_head, without_tail,
};
use vstd::prelude::*;

verus! {

/// The name of a venue.
#[derive(Debug, Hash)]
pub struct VenueId(pub String);

impl Clone for VenueId {
    fn clone(&self) -> (r: VenueId)
        ensures
            r == *self,
    {
        VenueId(self.0.clone())
    }
}

impl PartialEq for VenueId {
    fn eq(&self, other: &VenueId) -> (r: bool) {
        self.0 == other.0
    }
}

impl vstd::std_specs::cmp::PartialEqSpecImpl for VenueId {
    open spec fn obeys_eq_spec() -> bool {
        true
    }

    open spec fn eq_spec(&self, other: &VenueId) -> bool {
        self.0@ == other.0@
    }
}

impl Eq for VenueId {
}

impl VenueId {
    pub fn as_str(&self) -> (r: &str)
        ensures
            r@ == self.0@,
    {
        self.0.as_str()
    }

    /// The venue of this name.
    pub fn named(name: &str) -> (r: VenueId)
        ensures
            r.0@ == name@,
    {
        VenueId(name.to_owned())
    }
}

#[derive(Clone, Copy, Debug, PartialEq, Eq, Structural)]
pub enum MarketKind {
    Perp,
    Spot,
}

/// One market of one venue.
#[derive(Debug)]
pub struct VenueMarket {
    pub venue: VenueId,
    pub raw_symbol: String,
    pub pair_id: String,
    pub base: String,
    /// The number under which the venue takes orders for this market.
    pub market_index: i32,
    pub qty_precision: u32,
    pub min_qty: Decimal,
    /// What was traded in the last day, where the venue says so.
    pub volume_24h_usdc: Option<Decimal>,
}

impl Clone for VenueMarket {
    fn clone(&self) -> (r: VenueMarket)
        ensures
            r == *self,
    {
        VenueMarket {
            venue: self.venue.clone(),
            raw_symbol: self.raw_symbol.clone(),
            pair_id: self.pair_id.clone(),
            base: self.base.clone(),
            market_index: self.market_index,
            qty_precision: self.qty_precision,
            min_qty: self.min_qty,
            volume_24h_usdc: self.volume_24h_usdc,
        }
    }
}

/// One coin on two venues.
#[derive(Debug)]
pub struct Pair {
    pub pair_id: String,
    pub legs: [VenueMarket; 2],
}

impl Clone for Pair {
    fn clone(&self) -> (r: Pair)
        ensures
            r.pair_id == self.pair_id,
            r.legs@ == self.legs@,
    {
        let r = Pair {
            pair_id: self.pair_id.clone(),
            legs: [self.legs[0].clone(), self.legs[1].clone()],
        };
        proof {
            assert(r.legs@ =~= self.legs@);
        }
        r
    }
}

// ---------------------------------------------------------------------------
// Slots
// ---------------------------------------------------------------------------

/// The key of a coin on two venues: the names of the venues stand in order, so
/// that swapping the sides leaves the key as it is.
pub open spec fn slot_text(pair: Seq<char>, a: Seq<char>, b: Seq<char>) -> Seq<char> {
    if lex_lt(b, a) {
        pair + "|"@ + b + "|"@ + a
    } else {
        pair + "|"@ + a + "|"@ + b
    }
}

/// Positions, resting orders and timers are kept apart by coin and pair of
/// venues. Swapping the two venues gives the same key.
pub fn slot_key(pair_id: &str, venue_a: &str, venue_b: &str) -> (r: String)
    ensures
        r@ == slot_text(pair_id@, venue_a@, venue_b@),
{
    let (x, y) = if text_lt(venue_b, venue_a) {
        (venue_b, venue_a)
    } else {
        (venue_a, venue_b)
    };
    let mut out: String = pair_id.to_owned();
    out.append("|");
    out.append(x);
    out.append("|");
    out.append(y);
    out
}

/// Swapping the two venues gives the same key.
pub proof fn law_slot_key_symmetric(pair: Seq<char>, a: Seq<char>, b: Seq<char>)
    ensures
        slot_text(pair, a, b) == slot_text(pair, b, a),
{
    law_lex_total(a, b);
    law_lex_asymmetric(a, b);
}

/// No `|` in `s`.
pub open spec fn bar_free(s: Seq<char>) -> bool {
    forall|i: int| 0 <= i < s.len() ==> s[i] != '|'
}

proof fn lemma_cut_at_bar(p: Seq<char>, q: Seq<char>, s: Seq<char>, t: Seq<char>)
    requires
        bar_free(p),
        bar_free(s),
        p + "|"@ + q == s + "|"@ + t,
    ensures
        p == s,
        q == t,
{
    reveal_strlit("|");
    let x = p + "|"@ + q;
    assert(x[p.len() as int] == '|');
    assert(x[s.len() as int] == '|');
    if p.len() < s.len() {
        assert(x[p.len() as int] == s[p.len() as int]);
    }
    if s.len() < p.len() {
        assert(x[s.len() as int] == p[s.len() as int]);
    }
    assert(p =~= x.take(p.len() as int));
    assert(s =~= x.take(s.len() as int));
    assert(q =~= x.skip(p.len() as int + 1));
    assert(t =~= x.skip(s.len() as int + 1));
}

/// Keys made of names without `|` are equal only for the same coin on the same
/// two venues.
pub proof fn law_slot_key_isolates(
    p1: Seq<char>,
    a1: Seq<char>,
    b1: Seq<char>,
    p2: Seq<char>,
    a2: Seq<char>,
    b2: Seq<char>,
)
    requires
        bar_free(p1) && bar_free(a1) && bar_free(b1),
        bar_free(p2) && bar_free(a2) && bar_free(b2),
        slot_text(p1, a1, b1) == slot_text(p2, a2, b2),
    ensures
        p1 == p2,
        (a1 == a2 && b1 == b2) || (a1 == b2 && b1 == a2),
{
    let (x1, y1) = if lex_lt(b1, a1) {
        (b1, a1)
    } else {
        (a1, b1)
    };
    let (x2, y2) = if lex_lt(b2, a2) {
        (b2, a2)
    } else {
        (a2, b2)
    };
    let t1 = x1 + "|"@ + y1;
    let t2 = x2 + "|"@ + y2;
    assert(slot_text(p1, a1, b1) =~= p1 + "|"@ + t1);
    assert(slot_text(p2, a2, b2) =~= p2 + "|"@ + t2);
    lemma_cut_at_bar(p1, t1, p2, t2);
    lemma_cut_at_bar(x1, y1, x2, y2);
}

impl Pair {
    /// The key of the pair.
    pub open spec fn slot(self) -> Seq<char> {
        slot_text(self.pair_id@, self.legs@[0].venue.0@, self.legs@[1].venue.0@)
    }

    pub fn slot_key(&self) -> (r: String)
        ensures
            r@ == self.slot(),
    {
        slot_key(
            self.pair_id.as_str(),
            self.legs[0].venue.as_str(),
            self.legs[1].venue.as_str(),
        )
    }

    /// The leg on a venue.
    pub fn leg(&self, venue: &str) -> (r: Option<&VenueMarket>)
        ensures
            match r {
                Some(m) => if self.legs@[0].venue.0@ == venue@ {
                    *m == self.legs@[0]
                } else {
                    self.legs@[1].venue.0@ == venue@ && *m == self.legs@[1]
                },
                None => self.legs@[0].venue.0@ != venue@ && self.legs@[1].venue.0@ != venue@,
            },
    {
        if same(self.legs[0].venue.as_str(), venue) {
            Some(&self.legs[0])
        } else if same(self.legs[1].venue.as_str(), venue) {
            Some(&self.legs[1])
        } else {
            None
        }
    }

    /// The larger of the two legs' smallest quantities: below it one of the legs
    /// cannot be placed.
    pub fn min_qty(&self) -> (r: Decimal)
        ensures
            r == dmax(self.legs@[0].min_qty, self.legs@[1].min_qty),
            r.units() >= self.legs@[0].min_qty.units(),
            r.units() >= self.legs@[1].min_qty.units(),
    {
        self.legs[0].min_qty.max(self.legs[1].min_qty)
    }
}

// ---------------------------------------------------------------------------
// Symbols
// ---------------------------------------------------------------------------

/// The names that dollar quotes go by.
pub open spec fn stable_quotes() -> Seq<Seq<char>> {
    seq![
        "USDC"@, "USDG"@, "USDT"@, "USD"@, "VUSDC"@, "VUSDG"@, "VUSDT"@, "VUSD"@,
    ]
}

/// The dollar quotes that carry no `V`.
pub open spec fn is_stable_core(q: Seq<char>) -> bool {
    q == "USDC"@ || q == "USDG"@ || q == "USDT"@ || q == "USD"@
}

pub open spec fn is_stable_quote(q: Seq<char>) -> bool {
    is_stable_core(q) || q == "VUSDC"@ || q == "VUSDG"@ || q == "VUSDT"@ || q == "VUSD"@
}

fn stable_core(q: &str) -> (r: bool)
    ensures
        r == is_stable_core(q@),
{
    same(q, "USDC") || same(q, "USDG") || same(q, "USDT") || same(q, "USD")
}

fn stable_quote(q: &str) -> (r: bool)
    ensures
        r == is_stable_quote(q@),
{
    stable_core(q) || same(q, "VUSDC") || same(q, "VUSDG") || same(q, "VUSDT") || same(q, "VUSD")
}

/// The coin behind a base: against a virtual dollar quote (`V` and a dollar)
/// the base's own `V` goes.
pub open spec fn canonical(base: Seq<char>, quote: Seq<char>) -> Seq<char> {
    if quote.len() > 0 && quote[0] == 'V' && is_stable_core(quote.skip(1)) && base.len() > 1
        && base[0] == 'V' {
        base.skip(1)
    } else {
        base
    }
}

pub fn canonical_base(base: &str, quote: &str) -> (r: String)
    ensures
        r@ == canonical(base@, quote@),
{
    let q = quote.unicode_len();
    let b = base.unicode_len();
    if q > 0 && quote.get_char(0) == 'V' {
        proof {
            assert(quote@.subrange(1, q as int) =~= quote@.skip(1));
        }
        let core = quote.substring_char(1, q);
        if stable_core(core) && b > 1 && base.get_char(0) == 'V' {
            proof {
                assert(base@.subrange(1, b as int) =~= base@.skip(1));
            }
            return base.substring_char(1, b).to_owned();
        }
    }
    base.to_owned()
}

/// A symbol without the short name of an exchange and the `:` before it.
pub open spec fn hip3_stripped(s: Seq<char>) -> Seq<char> {
    let i = first_at(s, ':');
    if i < s.len() && i + 1 < s.len() && i <= 8 && all_alpha(s.take(i)) {
        s.skip(i + 1)
    } else {
        s
    }
}

/// Takes `{dex}:` off a symbol, where `{dex}` is at most eight letters.
pub fn strip_hip3_prefix(symbol: &str) -> (r: &str)
    ensures
        r@ == hip3_stripped(symbol@),
{
    proof {
        lemma_first_at(symbol@, ':');
    }
    match split_once(symbol, ':') {
        None => symbol,
        Some((dex, rest)) => {
            if rest.unicode_len() == 0 {
                return symbol;
            }
            if dex.unicode_len() <= 8 && only_alpha(dex) {
                return rest;
            }
            symbol
        },
    }
}

/// The first of the quotes `qs` that ends `s` behind a base of letters and
/// digits, taken off.
pub open spec fn base_before(s: Seq<char>, qs: Seq<Seq<char>>) -> Option<Seq<char>>
    decreases qs.len(),
{
    if qs.len() == 0 {
        None
    } else {
        let q = qs[0];
        let base = s.take(s.len() - q.len());
        if has_suffix(s, q) && base.len() > 0 && all_alnum(base) {
            Some(canonical(base, q))
        } else {
            base_before(s, qs.drop_first())
        }
    }
}

/// What is left of a symbol once the words for perpetual and dollar are off.
pub open spec fn symbol_core(symbol: Seq<char>) -> Seq<char> {
    without_tail(
        without_head(
            without_tail(without_tail(without_tail(symbol, "-PERP"@), "PERP"@), "-USD"@),
            '-',
        ),
        "-"@,
    )
}

/// The coin of a symbol.
pub open spec fn base_of(symbol: Seq<char>) -> Option<Seq<char>> {
    let s = symbol_core(symbol);
    let i = first_at(s, '-');
    if i < s.len() && is_stable_quote(s.skip(i + 1)) {
        Some(canonical(s.take(i), s.skip(i + 1)))
    } else {
        match base_before(s, stable_quotes()) {
            Some(b) => Some(b),
            None => if all_alnum(s) {
                Some(s)
            } else {
                None
            },
        }
    }
}

fn base_before_quote(s: &str, quote: &str) -> (r: Option<String>)
    ensures
        match r {
            Some(b) => has_suffix(s@, quote@) && s@.take(s@.len() - quote@.len()).len() > 0
                && all_alnum(s@.take(s@.len() - quote@.len())) && b@ == canonical(
                s@.take(s@.len() - quote@.len()),
                quote@,
            ),
            None => !(has_suffix(s@, quote@) && s@.take(s@.len() - quote@.len()).len() > 0
                && all_alnum(s@.take(s@.len() - quote@.len()))),
        },
{
    match strip_suffix(s, quote) {
        Some(base) => {
            if base.unicode_len() > 0 && only_alnum(base) {
                Some(canonical_base(base, quote))
            } else {
                None
            }
        },
        None => None,
    }
}

fn quote_list() -> (r: Vec<&'static str>)
    ensures
        r@.len() == stable_quotes().len(),
        forall|i: int| 0 <= i < r@.len() ==> (#[trigger] r@[i])@ == stable_quotes()[i],
{
    let r: Vec<&'static str> =
        vec!["USDC", "USDG", "USDT", "USD", "VUSDC", "VUSDG", "VUSDT", "VUSD"];
    proof {
        assert forall|i: int| 0 <= i < r@.len() implies (#[trigger] r@[i])@ == stable_quotes()[i] by {
            if i == 0 {
            } else if i == 1 {
            } else if i == 2 {
            } else if i == 3 {
            } else if i == 4 {
            } else if i == 5 {
            } else if i == 6 {
            } else {
            }
        }
    }
    r
}

pub fn extract_base(symbol: &str) -> (r: Option<String>)
    ensures
        match r {
            Some(b) => base_of(symbol@) == Some(b@),
            None => base_of(symbol@) is None,
        },
{
    let a = trim_tail(symbol, "-PERP");
    let b = trim_tail(a, "PERP");
    let c = trim_tail(b, "-USD");
    let d = trim_head(c, '-');
    let s = trim_tail(d, "-");
    if let Some((base, quote)) = split_once(s, '-') {
        if stable_quote(quote) {
            return Some(canonical_base(base, quote));
        }
    }
    let quotes = quote_list();
    let mut i: usize = 0;
    proof {
        assert(stable_quotes().skip(0) =~= stable_quotes());
    }
    while i < quotes.len()
        invariant
            i <= quotes.len(),
            quotes@.len() == stable_quotes().len(),
            forall|k: int|
                0 <= k < quotes@.len() ==> (#[trigger] quotes@[k])@ == stable_quotes()[k],
            s@ == symbol_core(symbol@),
            !(first_at(s@, '-') < s@.len() && is_stable_quote(s@.skip(first_at(s@, '-') + 1))),
            base_before(s@, stable_quotes()) == base_before(s@, stable_quotes().skip(i as int)),
        decreases quotes.len() - i,
    {
        if let Some(b) = base_before_quote(s, quotes[i]) {
            return Some(b);
        }
        proof {
            assert(stable_quotes().skip(i as int).drop_first() =~= stable_quotes().skip(i + 1));
        }
        i = i + 1;
    }
    if only_alnum(s) {
        return Some(s.to_owned());
    }
    None
}

/// A symbol with its separators made `-`, in upper case.
pub open spec fn plain_symbol(raw: Seq<char>) -> Seq<char> {
    hip3_stripped(exchanged(exchanged(ascii_upper(trimmed(raw)), '/', '-'), '_', '-'))
}

/// The coin and the pair of a perpetual's symbol; none for a spot market.
pub open spec fn perp_of(raw: Seq<char>, market_type: Seq<char>) -> Option<(
    Seq<char>,
    Seq<char>,
)> {
    if ascii_lower(trimmed(market_type)) == "spot"@ || plain_symbol(raw).len() == 0 {
        None
    } else {
        match base_of(plain_symbol(raw)) {
            Some(b) => Some((b, b + "-USD-PERP"@)),
            None => None,
        }
    }
}

/// Brings a venue's symbol to `{BASE}` and `{BASE}-USD-PERP`.
pub fn normalize_perp(raw: &str, market_type: &str) -> (r: Option<(String, String)>)
    ensures
        match r {
            Some((base, pair)) => perp_of(raw@, market_type@) == Some((base@, pair@)),
            None => perp_of(raw@, market_type@) is None,
        },
{
    let kind = to_ascii_lower(trim(market_type));
    if same(kind.as_str(), "spot") {
        return None;
    }
    let upper = to_ascii_upper(trim(raw));
    let dashed = exchange(upper.as_str(), '/', '-');
    let symbol = exchange(dashed.as_str(), '_', '-');
    if symbol.as_str().unicode_len() == 0 {
        proof {
            lemma_first_at(symbol@, ':');
        }
        return None;
    }
    let compact = strip_hip3_prefix(symbol.as_str());
    if compact.unicode_len() == 0 {
        return None;
    }
    match extract_base(compact) {
        Some(base) => {
            let pair_id = joined(base.as_str(), "-USD-PERP");
            Some((base, pair_id))
        },
        None => None,
    }
}

/// A coin's name as it is written here: capital letters and digits, with nothing at its
/// end that is taken for a dollar or for a kind of market.
pub open spec fn is_plain_base(b: Seq<char>) -> bool {
    &&& b.len() > 0
    &&& forall|i: int|
        0 <= i < b.len() ==> ('A' <= #[trigger] b[i] && b[i] <= 'Z') || ('0' <= b[i] && b[i]
            <= '9')
    &&& !has_suffix(b, "USDC"@)
    &&& !has_suffix(b, "USDG"@)
    &&& !has_suffix(b, "USDT"@)
    &&& !has_suffix(b, "USD"@)
    &&& !has_suffix(b, "PERP"@)
}

/// Capital letters, digits and dashes.
pub open spec fn is_plain_text(s: Seq<char>) -> bool {
    forall|i: int|
        0 <= i < s.len() ==> ('A' <= #[trigger] s[i] && s[i] <= 'Z') || ('0' <= s[i] && s[i]
            <= '9') || s[i] == '-'
}

proof fn lemma_plain_symbol(s: Seq<char>)
    requires
        is_plain_text(s),
    ensures
        plain_symbol(s) == s,
{
    assert(trimmed(s) == s);
    assert(ascii_upper(s) =~= s);
    assert(exchanged(s, '/', '-') =~= s);
    assert(exchanged(s, '_', '-') =~= s);
    lemma_first_at(s, ':');
    if first_at(s, ':') < s.len() {
        assert(s[first_at(s, ':')] == ':');
    }
}

proof fn lemma_core_of_plain_base(b: Seq<char>)
    requires
        is_plain_base(b),
    ensures
        symbol_core(b) == b,
        base_of(b) == Some(b),
        !has_suffix(b, "-PERP"@),
        !has_suffix(b, "-USD"@),
        !has_suffix(b, "-"@),
{
    reveal_strlit("-PERP");
    reveal_strlit("-USD");
    reveal_strlit("-");
    assert(!has_suffix(b, "-PERP"@)) by {
        if has_suffix(b, "-PERP"@) {
            assert(b.subrange(b.len() - 5, b.len() as int)[0] == '-');
        }
    }
    assert(!has_suffix(b, "-USD"@)) by {
        if has_suffix(b, "-USD"@) {
            assert(b.subrange(b.len() - 4, b.len() as int)[0] == '-');
        }
    }
    assert(!has_suffix(b, "-"@)) by {
        if has_suffix(b, "-"@) {
            assert(b.subrange(b.len() - 1, b.len() as int)[0] == '-');
        }
    }
    lemma_first_at(b, '-');
    if first_at(b, '-') < b.len() {
        assert(b[first_at(b, '-')] == '-');
    }
    assert(all_alnum(b));
    reveal_strlit("VUSDC");
    reveal_strlit("VUSDG");
    reveal_strlit("VUSDT");
    reveal_strlit("VUSD");
    reveal_strlit("USDC");
    reveal_strlit("USDG");
    reveal_strlit("USDT");
    reveal_strlit("USD");
    lemma_shorter_suffix(b, "VUSDC"@, "USDC"@);
    lemma_shorter_suffix(b, "VUSDG"@, "USDG"@);
    lemma_shorter_suffix(b, "VUSDT"@, "USDT"@);
    lemma_shorter_suffix(b, "VUSD"@, "USD"@);
    lemma_no_base_before(b, stable_quotes());
}

/// What ends in a text ends in that text's own end.
proof fn lemma_shorter_suffix(s: Seq<char>, long: Seq<char>, short: Seq<char>)
    requires
        long.len() == short.len() + 1,
        long.skip(1) =~= short,
    ensures
        has_suffix(s, long) ==> has_suffix(s, short),
{
    if has_suffix(s, long) {
        let t = s.subrange(s.len() - long.len(), s.len() as int);
        assert(t == long);
        assert(s.subrange(s.len() - short.len(), s.len() as int) =~= t.skip(1));
    }
}

proof fn lemma_no_base_before(s: Seq<char>, qs: Seq<Seq<char>>)
    requires
        forall|i: int| 0 <= i < qs.len() ==> !has_suffix(s, #[trigger] qs[i]),
    ensures
        base_before(s, qs) is None,
    decreases qs.len(),
{
    if qs.len() > 0 {
        assert(!has_suffix(s, qs[0]));
        assert forall|i: int| 0 <= i < qs.drop_first().len() implies !has_suffix(
            s,
            #[trigger] qs.drop_first()[i],
        ) by {
            assert(qs.drop_first()[i] == qs[i + 1]);
        }
        lemma_no_base_before(s, qs.drop_first());
    }
}

proof fn lemma_core_of_pair(b: Seq<char>)
    requires
        is_plain_base(b),
    ensures
        base_of(b + "-USD-PERP"@) == Some(b),
        base_of(b + "-USD"@) == Some(b),
{
    lemma_core_of_plain_base(b);
    reveal_strlit("-USD-PERP");
    reveal_strlit("-PERP");
    reveal_strlit("-USD");
    reveal_strlit("PERP");
    let x = b + "-USD-PERP"@;
    let y = b + "-USD"@;
    assert(x.subrange(x.len() - 5, x.len() as int) =~= "-PERP"@);
    assert(x.take(x.len() - 5) =~= y);
    assert(y.last() == 'D');
    assert(!has_suffix(y, "-PERP"@)) by {
        if has_suffix(y, "-PERP"@) {
            assert(y.subrange(y.len() - 5, y.len() as int)[4] == 'P');
        }
    }
    assert(!has_suffix(y, "PERP"@)) by {
        if has_suffix(y, "PERP"@) {
            assert(y.subrange(y.len() - 4, y.len() as int)[3] == 'P');
        }
    }
    assert(y.subrange(y.len() - 4, y.len() as int) =~= "-USD"@);
    assert(y.take(y.len() - 4) =~= b);
    assert(without_tail(y, "-PERP"@) == y);
    assert(without_tail(x, "-PERP"@) == y);
    assert(without_tail(y, "PERP"@) == y);
    assert(without_tail(y, "-USD"@) == without_tail(b, "-USD"@));
    assert(without_tail(b, "-USD"@) == b);
    assert(without_head(b, '-') == b);
    assert(symbol_core(x) == b);
    assert(symbol_core(y) == b);
    assert(symbol_core(b) == b);
}

proof fn lemma_core_of_quoted(b: Seq<char>, q: Seq<char>)
    requires
        is_plain_base(b),
        q == "USDC"@ || q == "USDG"@ || q == "USDT"@,
    ensures
        base_of(b + "-"@ + q) == Some(b),
{
    reveal_strlit("USDC");
    reveal_strlit("USDG");
    reveal_strlit("USDT");
    reveal_strlit("-PERP");
    reveal_strlit("-USD");
    reveal_strlit("PERP");
    reveal_strlit("-");
    let x = b + "-"@ + q;
    let n = x.len() as int;
    assert(x.last() == q[3]);
    assert(!has_suffix(x, "-PERP"@)) by {
        if has_suffix(x, "-PERP"@) {
            assert(x.subrange(n - 5, n)[4] == 'P');
        }
    }
    assert(!has_suffix(x, "PERP"@)) by {
        if has_suffix(x, "PERP"@) {
            assert(x.subrange(n - 4, n)[3] == 'P');
        }
    }
    assert(!has_suffix(x, "-USD"@)) by {
        if has_suffix(x, "-USD"@) {
            assert(x.subrange(n - 4, n)[3] == 'D');
        }
    }
    assert(!has_suffix(x, "-"@)) by {
        if has_suffix(x, "-"@) {
            assert(x.subrange(n - 1, n)[0] == '-');
        }
    }
    assert(x[0] == b[0]);
    assert(symbol_core(x) == x);
    lemma_first_at(x, '-');
    let i = first_at(x, '-');
    assert(x[b.len() as int] == '-');
    assert(i == b.len()) by {
        if i < b.len() {
            assert(x[i] == b[i]);
        }
    }
    assert(x.skip(i + 1) =~= q);
    assert(x.take(i) =~= b);
}

/// A coin, a coin against a dollar and the pair's own name all come to the same coin and
/// pair: what has been brought to its name stays as it is.
pub proof fn law_normalizing_is_stable(b: Seq<char>, q: Seq<char>, market_type: Seq<char>)
    requires
        is_plain_base(b),
        is_stable_core(q),
        ascii_lower(trimmed(market_type)) != "spot"@,
    ensures
        perp_of(b, market_type) == Some((b, b + "-USD-PERP"@)),
        perp_of(b + "-"@ + q, market_type) == Some((b, b + "-USD-PERP"@)),
        perp_of(b + "-USD-PERP"@, market_type) == Some((b, b + "-USD-PERP"@)),
{
    reveal_strlit("USDC");
    reveal_strlit("USDG");
    reveal_strlit("USDT");
    reveal_strlit("USD");
    reveal_strlit("-USD");
    reveal_strlit("-");
    reveal_strlit("-USD-PERP");
    lemma_plain_symbol(b);
    lemma_core_of_plain_base(b);
    lemma_plain_symbol(b + "-"@ + q);
    lemma_plain_symbol(b + "-USD-PERP"@);
    lemma_core_of_pair(b);
    if q == "USD"@ {
        assert(b + "-"@ + q =~= b + "-USD"@);
    } else {
        lemma_core_of_quoted(b, q);
    }
}

proof fn lemma_trim_keeps_case(s: Seq<char>)
    ensures
        ascii_lower(trimmed_start(s)) == trimmed_start(ascii_lower(s)),
    decreases s.len(),
{
    let t = ascii_lower(s);
    if s.len() > 0 {
        assert(t[0] == lower_char(s[0]));
        assert(t.drop_first() =~= ascii_lower(s.drop_first()));
        lemma_trim_keeps_case(s.drop_first());
    }
}

proof fn lemma_trim_end_keeps_case(s: Seq<char>)
    ensures
        ascii_lower(trimmed_end(s)) == trimmed_end(ascii_lower(s)),
    decreases s.len(),
{
    let t = ascii_lower(s);
    if s.len() > 0 {
        assert(t.last() == lower_char(s.last()));
        assert(t.drop_last() =~= ascii_lower(s.drop_last()));
        lemma_trim_end_keeps_case(s.drop_last());
    }
}

/// Symbols that differ in the case of letters alone come to the same coin and pair.
pub proof fn law_normalizing_ignores_case(a: Seq<char>, b: Seq<char>, market_type: Seq<char>)
    requires
        same_ignoring_case(a, b),
    ensures
        perp_of(a, market_type) == perp_of(b, market_type),
{
    lemma_trim_keeps_case(a);
    lemma_trim_keeps_case(b);
    lemma_trim_end_keeps_case(trimmed_start(a));
    lemma_trim_end_keeps_case(trimmed_start(b));
    let x = trimmed(a);
    let y = trimmed(b);
    assert(ascii_lower(x) == ascii_lower(y));
    assert(ascii_lower(x).len() == x.len());
    assert(ascii_lower(y).len() == y.len());
    assert forall|i: int| 0 <= i < x.len() implies upper_char(x[i]) == upper_char(y[i]) by {
        assert(ascii_lower(x)[i] == lower_char(x[i]));
        assert(ascii_lower(y)[i] == lower_char(y[i]));
    }
    assert(ascii_upper(x) =~= ascii_upper(y));
}

/// The protocol that a venue belongs to.
pub open spec fn family(id: Seq<char>) -> Seq<char> {
    if id == "lighter"@ || id == "lighter_rh"@ {
        "lighter"@
    } else {
        id
    }
}

pub fn venue_family(id: &str) -> (r: &str)
    ensures
        r@ == family(id@),
{
    if same(id, "lighter") || same(id, "lighter_rh") {
        "lighter"
    } else {
        id
    }
}

/// The two venues belong to different protocols.
pub fn is_cross_dex(buy: &str, sell: &str) -> (r: bool)
    ensures
        r == (family(buy@) != family(sell@)),
{
    !same(venue_family(buy), venue_family(sell))
}

/// An empty list allows every coin; otherwise the coin stands in it, in
/// whatever case.
pub open spec fn allowed(base: Seq<char>, whitelist: Seq<String>) -> bool {
    whitelist.len() == 0 || exists|i: int|
        0 <= i < whitelist.len() && same_ignoring_case(#[trigger] whitelist[i]@, base)
}

pub fn whitelist_allows(base: &str, whitelist: &[String]) -> (r: bool)
    ensures
        r == allowed(base@, whitelist@),
{
    let n = whitelist.len();
    if n == 0 {
        return true;
    }
    let mut i: usize = 0;
    while i < n
        invariant
            n == whitelist@.len(),
            i <= n,
            forall|k: int| 0 <= k < i ==> !same_ignoring_case(#[trigger] whitelist@[k]@, base@),
        decreases n - i,
    {
        if same_but_case(whitelist[i].as_str(), base) {
            return true;
        }
        i = i + 1;
    }
    false
}

// ---------------------------------------------------------------------------
// Pairs
// ---------------------------------------------------------------------------

/// Where the first market of a pair stands, or the number of markets.
pub open spec fn market_at(markets: Seq<VenueMarket>, pair: Seq<char>) -> int
    decreases markets.len(),
{
    if markets.len() == 0 || markets[0].pair_id@ == pair {
        0
    } else {
        1 + market_at(markets.drop_first(), pair)
    }
}

proof fn lemma_market_at(markets: Seq<VenueMarket>, pair: Seq<char>)
    ensures
        0 <= market_at(markets, pair) <= markets.len(),
        market_at(markets, pair) < markets.len() ==> markets[market_at(markets, pair)].pair_id@
            == pair,
        forall|k: int|
            0 <= k < market_at(markets, pair) ==> (#[trigger] markets[k]).pair_id@ != pair,
    decreases markets.len(),
{
    if markets.len() > 0 && markets[0].pair_id@ != pair {
        let t = markets.drop_first();
        lemma_market_at(t, pair);
        assert forall|k: int| 0 <= k < market_at(markets, pair) implies (
        #[trigger] markets[k]).pair_id@ != pair by {
            if k > 0 {
                assert(t[k - 1].pair_id@ != pair);
            }
        }
    }
}

/// The markets of `left` that `right` has too, each with the first of `right`.
pub open spec fn shared_markets(left: Seq<VenueMarket>, right: Seq<VenueMarket>) -> Seq<
    (VenueMarket, VenueMarket),
>
    decreases left.len(),
{
    if left.len() == 0 {
        Seq::empty()
    } else {
        let init = shared_markets(left.drop_last(), right);
        let l = left.last();
        let at = market_at(right, l.pair_id@);
        if at < right.len() {
            init.push((l, right[at]))
        } else {
            init
        }
    }
}

/// The two legs of a pair.
pub open spec fn legs_of(p: Pair) -> (VenueMarket, VenueMarket) {
    (p.legs@[0], p.legs@[1])
}

/// Two legs, ordered by the pair that the first belongs to.
pub struct ByPair {
    pub left: VenueMarket,
    pub right: VenueMarket,
}

impl Ranked for ByPair {
    open spec fn precedes(self, other: ByPair) -> bool {
        lex_lt(self.left.pair_id@, other.left.pair_id@)
    }

    fn is_before(&self, other: &ByPair) -> (r: bool) {
        text_lt(self.left.pair_id.as_str(), other.left.pair_id.as_str())
    }
}

/// Two legs, ordered by pair and then by the names of the venues.
pub struct ByPairAndVenues {
    pub left: VenueMarket,
    pub right: VenueMarket,
}

impl Ranked for ByPairAndVenues {
    open spec fn precedes(self, other: ByPairAndVenues) -> bool {
        let (a, b) = (self.left.pair_id@, other.left.pair_id@);
        let (c, d) = (self.left.venue.0@, other.left.venue.0@);
        lex_lt(a, b) || (a == b && (lex_lt(c, d) || (c == d && lex_lt(
            self.right.venue.0@,
            other.right.venue.0@,
        ))))
    }

    fn is_before(&self, other: &ByPairAndVenues) -> (r: bool) {
        let a = self.left.pair_id.as_str();
        let b = other.left.pair_id.as_str();
        let c = self.left.venue.as_str();
        let d = other.left.venue.as_str();
        text_lt(a, b) || (same(a, b) && (text_lt(c, d) || (same(c, d) && text_lt(
            self.right.venue.as_str(),
            other.right.venue.as_str(),
        ))))
    }
}

/// Shared markets come in the order of their pairs.
pub proof fn law_pairs_in_order(s: Seq<ByPair>)
    ensures
        in_order(ranked(s)),
{
    assert forall|a: ByPair, b: ByPair| #[trigger] a.precedes(b) implies !b.precedes(a) by {
        lemma_lex_three(a.left.pair_id@, b.left.pair_id@, a.left.pair_id@);
        lemma_lex_three(b.left.pair_id@, a.left.pair_id@, b.left.pair_id@);
    }
    assert forall|a: ByPair, b: ByPair, c: ByPair|
        #![trigger a.precedes(b), b.precedes(c)]
        !a.precedes(b) && !b.precedes(c) implies !a.precedes(c) by {
        lemma_lex_three(a.left.pair_id@, b.left.pair_id@, c.left.pair_id@);
        lemma_lex_three(b.left.pair_id@, a.left.pair_id@, c.left.pair_id@);
        lemma_lex_three(a.left.pair_id@, c.left.pair_id@, b.left.pair_id@);
    }
    law_ranked_in_order(s);
}

pub open spec fn by_pair(s: Seq<(VenueMarket, VenueMarket)>) -> Seq<ByPair> {
    s.map_values(|e: (VenueMarket, VenueMarket)| ByPair { left: e.0, right: e.1 })
}

/// Matched markets come in the order of their pairs, then of their venues.
pub proof fn law_venue_pairs_in_order(s: Seq<ByPairAndVenues>)
    ensures
        in_order(ranked(s)),
{
    assert forall|a: ByPairAndVenues, b: ByPairAndVenues| #[trigger] a.precedes(b) implies !b.precedes(a) by {
        lemma_lex_three(a.left.pair_id@, b.left.pair_id@, a.left.pair_id@);
        lemma_lex_three(b.left.pair_id@, a.left.pair_id@, b.left.pair_id@);
        lemma_lex_three(a.left.venue.0@, b.left.venue.0@, a.left.venue.0@);
        lemma_lex_three(b.left.venue.0@, a.left.venue.0@, b.left.venue.0@);
        lemma_lex_three(a.right.venue.0@, b.right.venue.0@, a.right.venue.0@);
        lemma_lex_three(b.right.venue.0@, a.right.venue.0@, b.right.venue.0@);
    }
    assert forall|a: ByPairAndVenues, b: ByPairAndVenues, c: ByPairAndVenues|
        #![trigger a.precedes(b), b.precedes(c)]
        !a.precedes(b) && !b.precedes(c) implies !a.precedes(c) by {
        lemma_lex_three(a.left.pair_id@, b.left.pair_id@, c.left.pair_id@);
        lemma_lex_three(b.left.pair_id@, a.left.pair_id@, c.left.pair_id@);
        lemma_lex_three(a.left.pair_id@, c.left.pair_id@, b.left.pair_id@);
        lemma_lex_three(a.left.venue.0@, b.left.venue.0@, c.left.venue.0@);
        lemma_lex_three(b.left.venue.0@, a.left.venue.0@, c.left.venue.0@);
        lemma_lex_three(a.left.venue.0@, c.left.venue.0@, b.left.venue.0@);
        lemma_lex_three(a.right.venue.0@, b.right.venue.0@, c.right.venue.0@);
        lemma_lex_three(b.right.venue.0@, a.right.venue.0@, c.right.venue.0@);
        lemma_lex_three(a.right.venue.0@, c.right.venue.0@, b.right.venue.0@);
    }
    law_ranked_in_order(s);
}

pub open spec fn by_pair_and_venues(s: Seq<(VenueMarket, VenueMarket)>) -> Seq<ByPairAndVenues> {
    s.map_values(|e: (VenueMarket, VenueMarket)| ByPairAndVenues { left: e.0, right: e.1 })
}

/// The markets that two venues share, in the order of their pairs.
pub open spec fn matched(left: Seq<VenueMarket>, right: Seq<VenueMarket>) -> Seq<
    (VenueMarket, VenueMarket),
> {
    ranked(by_pair(shared_markets(left, right))).map_values(|e: ByPair| (e.left, e.right))
}

/// What each two of the venues `0..n` share, one pair of venues after the other.
pub open spec fn matched_with(venues: Seq<Seq<VenueMarket>>, i: int, j: int) -> Seq<
    (VenueMarket, VenueMarket),
>
    decreases venues.len() - i, venues.len() - j,
{
    if i >= venues.len() {
        Seq::empty()
    } else if j >= venues.len() {
        matched_with(venues, i + 1, i + 2)
    } else {
        matched(venues[i], venues[j]) + matched_with(venues, i, j + 1)
    }
}

/// Every two venues' shared markets, ordered by pair and venues.
pub open spec fn all_matched(venues: Seq<Seq<VenueMarket>>) -> Seq<(VenueMarket, VenueMarket)> {
    ranked(by_pair_and_venues(matched_with(venues, 0, 1))).map_values(
        |e: ByPairAndVenues| (e.left, e.right),
    )
}

/// `pairs` holds the two legs of `legs`, under the pair of the first.
pub open spec fn pairs_hold(pairs: Seq<Pair>, legs: Seq<(VenueMarket, VenueMarket)>) -> bool {
    &&& pairs.len() == legs.len()
    &&& forall|i: int|
        0 <= i < pairs.len() ==> legs_of(#[trigger] pairs[i]) == legs[i] && pairs[i].pair_id
            == legs[i].0.pair_id
}

fn find_market(markets: &[VenueMarket], pair: &str) -> (r: usize)
    ensures
        r == market_at(markets@, pair@),
        r <= markets@.len(),
{
    let n = markets.len();
    let mut i: usize = 0;
    proof {
        assert(markets@.skip(0) =~= markets@);
        lemma_market_at(markets@, pair@);
    }
    while i < n
        invariant
            n == markets@.len(),
            i <= n,
            market_at(markets@, pair@) == i + market_at(markets@.skip(i as int), pair@),
            market_at(markets@, pair@) <= n,
        decreases n - i,
    {
        if same(markets[i].pair_id.as_str(), pair) {
            return i;
        }
        proof {
            assert(markets@.skip(i as int).drop_first() =~= markets@.skip(i + 1));
        }
        i = i + 1;
    }
    i
}

fn matched_legs(left: &[VenueMarket], right: &[VenueMarket]) -> (out: Vec<ByPair>)
    ensures
        out@ == ranked(by_pair(shared_markets(left@, right@))),
{
    let mut found: Vec<ByPair> = Vec::new();
    let n = left.len();
    let mut i: usize = 0;
    proof {
        assert(by_pair(shared_markets(left@.take(0), right@)) =~= found@);
    }
    while i < n
        invariant
            n == left@.len(),
            i <= n,
            found@ == by_pair(shared_markets(left@.take(i as int), right@)),
        decreases n - i,
    {
        let at = find_market(right, left[i].pair_id.as_str());
        proof {
            assert(left@.take(i + 1).drop_last() =~= left@.take(i as int));
            assert(left@.take(i + 1).last() == left@[i as int]);
        }
        if at < right.len() {
            found.push(ByPair { left: left[i].clone(), right: right[at].clone() });
        }
        proof {
            assert(found@ =~= by_pair(shared_markets(left@.take(i + 1), right@)));
        }
        i = i + 1;
    }
    proof {
        assert(left@.take(n as int) =~= left@);
    }
    sort(found)
}

/// Pairs the markets that two venues share.
pub fn match_pairs(left: &[VenueMarket], right: &[VenueMarket]) -> (out: Vec<Pair>)
    ensures
        pairs_hold(out@, matched(left@, right@)),
{
    let mut legs = matched_legs(left, right);
    let ghost all = legs@;
    let mut out: Vec<Pair> = Vec::new();
    proof {
        assert(all.skip(0) =~= all);
    }
    while legs.len() > 0
        invariant
            out@.len() + legs@.len() == all.len(),
            legs@ == all.skip(out@.len() as int),
            forall|i: int|
                0 <= i < out@.len() ==> legs_of(#[trigger] out@[i]) == (
                all[i].left,
                all[i].right,
                ) && out@[i].pair_id == all[i].left.pair_id,
        decreases legs.len(),
    {
        let e = legs.remove(0);
        proof {
            assert(e == all[out@.len() as int]);
            assert(legs@ =~= all.skip(out@.len() as int + 1));
        }
        let pair_id = e.left.pair_id.clone();
        out.push(Pair { pair_id, legs: [e.left, e.right] });
    }
    out
}

/// Pairs the markets that each two of the venues share: a coin on `n` venues
/// gives a pair for every two of them.
pub fn match_all_pairs(venues: &[Vec<VenueMarket>]) -> (out: Vec<Pair>)
    ensures
        pairs_hold(out@, all_matched(venues@.map_values(|v: Vec<VenueMarket>| v@))),
{
    let ghost vs = venues@.map_values(|v: Vec<VenueMarket>| v@);
    let n = venues.len();
    let mut found: Vec<ByPairAndVenues> = Vec::new();
    let mut i: usize = 0;
    proof {
        assert(by_pair_and_venues(matched_with(vs, 0, 1)) =~= found@ + by_pair_and_venues(
            matched_with(vs, 0, 1),
        ));
    }
    while i < n
        invariant
            n == venues@.len(),
            vs == venues@.map_values(|v: Vec<VenueMarket>| v@),
            i <= n,
            by_pair_and_venues(matched_with(vs, 0, 1)) == found@ + by_pair_and_venues(
                matched_with(vs, i as int, i + 1),
            ),
        decreases n - i,
    {
        let mut j: usize = i + 1;
        while j < n
            invariant
                n == venues@.len(),
                vs == venues@.map_values(|v: Vec<VenueMarket>| v@),
                i < j <= n,
                by_pair_and_venues(matched_with(vs, 0, 1)) == found@ + by_pair_and_venues(
                    matched_with(vs, i as int, j as int),
                ),
            decreases n - j,
        {
            let mut legs = matched_legs(venues[i].as_slice(), venues[j].as_slice());
            let ghost all = legs@;
            let ghost start = found@;
            let ghost rest = matched_with(vs, i as int, j + 1);
            proof {
                assert(all.skip(0) =~= all);
            }
            let mut k: usize = 0;
            let m = legs.len();
            while k < m
                invariant
                    m == all.len(),
                    k <= m,
                    legs@ == all.skip(k as int),
                    found@ == start + by_pair_and_venues(
                        all.take(k as int).map_values(|e: ByPair| (e.left, e.right)),
                    ),
                decreases m - k,
            {
                let e = legs.remove(0);
                proof {
                    assert(e == all[k as int]);
                    assert(legs@ =~= all.skip(k + 1));
                }
                found.push(ByPairAndVenues { left: e.left, right: e.right });
                proof {
                    assert(found@ =~= start + by_pair_and_venues(
                        all.take(k + 1).map_values(|e: ByPair| (e.left, e.right)),
                    ));
                }
                k = k + 1;
            }
            proof {
                assert(all.take(m as int) =~= all);
                assert(matched(vs[i as int], vs[j as int]) == all.map_values(
                    |e: ByPair| (e.left, e.right),
                ));
                assert(start + by_pair_and_venues(matched(vs[i as int], vs[j as int]) + rest)
                    =~= found@ + by_pair_and_venues(rest));
            }
            j = j + 1;
        }
        i = i + 1;
    }
    proof {
        assert(found@ =~= by_pair_and_venues(matched_with(vs, 0, 1)));
    }
    let mut legs = sort(found);
    let ghost all = legs@;
    let mut out: Vec<Pair> = Vec::new();
    proof {
        assert(all.skip(0) =~= all);
    }
    while legs.len() > 0
        invariant
            out@.len() + legs@.len() == all.len(),
            legs@ == all.skip(out@.len() as int),
            forall|i: int|
                0 <= i < out@.len() ==> legs_of(#[trigger] out@[i]) == (
                all[i].left,
                all[i].right,
                ) && out@[i].pair_id == all[i].left.pair_id,
        decreases legs.len(),
    {
        let e = legs.remove(0);
        proof {
            assert(e == all[out@.len() as int]);
            assert(legs@ =~= all.skip(out@.len() as int + 1));
        }
        let pair_id = e.left.pair_id.clone();
        out.push(Pair { pair_id, legs: [e.left, e.right] });
    }
    out
}

/// What two venues share is in the order of the names of the pairs.
pub proof fn law_matched_pairs_rise(
    left: Seq<VenueMarket>,
    right: Seq<VenueMarket>,
    i: int,
    j: int,
)
    requires
        0 <= i < j < matched(left, right).len(),
    ensures
        !lex_lt(matched(left, right)[j].0.pair_id@, matched(left, right)[i].0.pair_id@),
{
    let s = by_pair(shared_markets(left, right));
    law_pairs_in_order(s);
    let r = ranked(s);
    assert(!r[j].precedes(r[i]));
}

/// What all venues share is in the order of the pairs' names, and for one pair in the
/// order of the first venue's name, then of the second's.
pub proof fn law_all_matched_pairs_rise(venues: Seq<Seq<VenueMarket>>, i: int, j: int)
    requires
        0 <= i < j < all_matched(venues).len(),
    ensures
        ({
            let (a, b) = (all_matched(venues)[i], all_matched(venues)[j]);
            &&& !lex_lt(b.0.pair_id@, a.0.pair_id@)
            &&& a.0.pair_id@ == b.0.pair_id@ ==> !lex_lt(b.0.venue.0@, a.0.venue.0@)
            &&& a.0.pair_id@ == b.0.pair_id@ && a.0.venue.0@ == b.0.venue.0@ ==> !lex_lt(
                b.1.venue.0@,
                a.1.venue.0@,
            )
        }),
{
    let s = by_pair_and_venues(matched_with(venues, 0, 1));
    law_venue_pairs_in_order(s);
    let r = ranked(s);
    assert(!r[j].precedes(r[i]));
}

/// Two markets are matched only as the same pair, and every market of the one venue that
/// the other has too is matched with the first of that name there.
pub proof fn law_shared_markets_are_of_one_pair(left: Seq<VenueMarket>, right: Seq<VenueMarket>)
    ensures
        forall|k: int|
            0 <= k < shared_markets(left, right).len() ==> {
                let (l, r) = #[trigger] shared_markets(left, right)[k];
                l.pair_id@ == r.pair_id@ && left.contains(l) && right.contains(r)
            },
        forall|i: int, j: int|
            #![trigger left[i], right[j]]
            0 <= i < left.len() && 0 <= j < right.len() && left[i].pair_id@ == right[j].pair_id@
                && (forall|k: int| 0 <= k < j ==> (#[trigger] right[k]).pair_id@
                != left[i].pair_id@) ==> shared_markets(left, right).contains((left[i], right[j])),
    decreases left.len(),
{
    let s = shared_markets(left, right);
    if left.len() > 0 {
        let t = left.drop_last();
        let init = shared_markets(t, right);
        let l = left.last();
        let at = market_at(right, l.pair_id@);
        law_shared_markets_are_of_one_pair(t, right);
        lemma_market_at(right, l.pair_id@);
        assert(left[left.len() - 1] == l);
        assert forall|k: int| 0 <= k < s.len() implies {
            let (x, y) = #[trigger] s[k];
            x.pair_id@ == y.pair_id@ && left.contains(x) && right.contains(y)
        } by {
            if k < init.len() {
                assert(s[k] == init[k]);
                let n = choose|n: int| 0 <= n < t.len() && t[n] == init[k].0;
                assert(left[n] == init[k].0);
            }
        }
        assert forall|i: int, j: int|
            #![trigger left[i], right[j]]
            0 <= i < left.len() && 0 <= j < right.len() && left[i].pair_id@ == right[j].pair_id@
                && (forall|k: int| 0 <= k < j ==> (#[trigger] right[k]).pair_id@
                != left[i].pair_id@) implies s.contains((left[i], right[j])) by {
            if i < t.len() {
                assert(t[i] == left[i]);
                assert(init.contains((t[i], right[j])));
                let k = choose|k: int| 0 <= k < init.len() && init[k] == (t[i], right[j]);
                assert(s[k] == (left[i], right[j]));
            } else {
                assert(at == j);
                assert(s[s.len() - 1] == (left[i], right[j]));
            }
        }
    }
}

/// What any two venues share is among what all venues share, the venue named first on
/// the left.
pub proof fn law_every_two_venues_are_matched(
    venues: Seq<Seq<VenueMarket>>,
    a: int,
    b: int,
    x: (VenueMarket, VenueMarket),
)
    requires
        0 <= a < b < venues.len(),
        matched(venues[a], venues[b]).contains(x),
    ensures
        matched_with(venues, 0, 1).contains(x),
{
    lemma_matched_with(venues, 0, 1, a, b, x);
}

proof fn lemma_matched_with(
    venues: Seq<Seq<VenueMarket>>,
    i: int,
    j: int,
    a: int,
    b: int,
    x: (VenueMarket, VenueMarket),
)
    requires
        0 <= i < j <= venues.len(),
        i <= a < b < venues.len(),
        i == a ==> j <= b,
        matched(venues[a], venues[b]).contains(x),
    ensures
        matched_with(venues, i, j).contains(x),
    decreases venues.len() - i, venues.len() - j,
{
    if j >= venues.len() {
        lemma_matched_with(venues, i + 1, i + 2, a, b, x);
    } else {
        let head = matched(venues[i], venues[j]);
        let tail = matched_with(venues, i, j + 1);
        if i == a && j == b {
            let k = choose|k: int| 0 <= k < head.len() && head[k] == x;
            assert((head + tail)[k] == x);
        } else {
            lemma_matched_with(venues, i, j + 1, a, b, x);
            let k = choose|k: int| 0 <= k < tail.len() && tail[k] == x;
            assert((head + tail)[head.len() + k] == x);
        }
    }
}

} // verus!
