//! Texts as sequences of characters.

use vstd::prelude::*;
use vstd::string::*;

verus! {

// ---------------------------------------------------------------------------
// What the operations mean
// ---------------------------------------------------------------------------

/// `c` is one of the characters that Unicode calls white space.
pub open spec fn is_white(c: char) -> bool {
    let u = c as int;
    ||| 0x09 <= u <= 0x0d
    ||| u == 0x20
    ||| u == 0x85
    ||| u == 0xa0
    ||| u == 0x1680
    ||| 0x2000 <= u <= 0x200a
    ||| u == 0x2028
    ||| u == 0x2029
    ||| u == 0x202f
    ||| u == 0x205f
    ||| u == 0x3000
}

/// An ASCII letter in upper case becomes lower case; others stay.
pub open spec fn lower_char(c: char) -> char {
    if 'A' <= c && c <= 'Z' {
        ((c as int) + 32) as char
    } else {
        c
    }
}

/// An ASCII letter in lower case becomes upper case; others stay.
pub open spec fn upper_char(c: char) -> char {
    if 'a' <= c && c <= 'z' {
        ((c as int) - 32) as char
    } else {
        c
    }
}

pub open spec fn ascii_lower(s: Seq<char>) -> Seq<char> {
    s.map_values(|c: char| lower_char(c))
}

pub open spec fn ascii_upper(s: Seq<char>) -> Seq<char> {
    s.map_values(|c: char| upper_char(c))
}

pub open spec fn all_ascii(s: Seq<char>) -> bool {
    forall|i: int| 0 <= i < s.len() ==> (#[trigger] s[i] as int) < 128
}

pub open spec fn is_alpha(c: char) -> bool {
    ('a' <= c && c <= 'z') || ('A' <= c && c <= 'Z')
}

pub open spec fn is_digit(c: char) -> bool {
    '0' <= c && c <= '9'
}

pub open spec fn is_alnum(c: char) -> bool {
    is_alpha(c) || is_digit(c)
}

pub open spec fn all_alpha(s: Seq<char>) -> bool {
    forall|i: int| 0 <= i < s.len() ==> is_alpha(#[trigger] s[i])
}

pub open spec fn all_alnum(s: Seq<char>) -> bool {
    forall|i: int| 0 <= i < s.len() ==> is_alnum(#[trigger] s[i])
}

/// `p` stands in `s` at position `i`.
pub open spec fn stands_at(s: Seq<char>, i: int, p: Seq<char>) -> bool {
    0 <= i && i + p.len() <= s.len() && s.subrange(i, i + p.len()) == p
}

pub open spec fn has_prefix(s: Seq<char>, p: Seq<char>) -> bool {
    stands_at(s, 0, p)
}

pub open spec fn has_suffix(s: Seq<char>, p: Seq<char>) -> bool {
    stands_at(s, s.len() - p.len(), p)
}

/// `p` stands somewhere in `s`.
pub open spec fn has_part(s: Seq<char>, p: Seq<char>) -> bool {
    exists|i: int| #[trigger] stands_at(s, i, p)
}

/// `s` without the white space at its start.
pub open spec fn trimmed_start(s: Seq<char>) -> Seq<char>
    decreases s.len(),
{
    if s.len() > 0 && is_white(s[0]) {
        trimmed_start(s.drop_first())
    } else {
        s
    }
}

/// `s` without the white space at its end.
pub open spec fn trimmed_end(s: Seq<char>) -> Seq<char>
    decreases s.len(),
{
    if s.len() > 0 && is_white(s.last()) {
        trimmed_end(s.drop_last())
    } else {
        s
    }
}

/// `s` without the white space around it.
pub open spec fn trimmed(s: Seq<char>) -> Seq<char> {
    trimmed_end(trimmed_start(s))
}

/// `s` without the `p`s at its end.
pub open spec fn without_tail(s: Seq<char>, p: Seq<char>) -> Seq<char>
    decreases s.len(),
{
    if p.len() > 0 && has_suffix(s, p) {
        without_tail(s.take(s.len() - p.len()), p)
    } else {
        s
    }
}

/// `s` without the `c`s at its start.
pub open spec fn without_head(s: Seq<char>, c: char) -> Seq<char>
    decreases s.len(),
{
    if s.len() > 0 && s[0] == c {
        without_head(s.drop_first(), c)
    } else {
        s
    }
}

/// Where `c` first stands in `s`, or the length of `s`.
pub open spec fn first_at(s: Seq<char>, c: char) -> int
    decreases s.len(),
{
    if s.len() == 0 || s[0] == c {
        0
    } else {
        1 + first_at(s.drop_first(), c)
    }
}

/// `a` comes before `b` in the dictionary order of code points.
pub open spec fn lex_lt(a: Seq<char>, b: Seq<char>) -> bool
    decreases a.len(),
{
    if b.len() == 0 {
        false
    } else if a.len() == 0 {
        true
    } else {
        (a[0] as int) < (b[0] as int) || (a[0] == b[0] && lex_lt(a.drop_first(), b.drop_first()))
    }
}

/// `a` with every `from` made `to`.
pub open spec fn exchanged(a: Seq<char>, from: char, to: char) -> Seq<char> {
    a.map_values(
        |c: char|
            if c == from {
                to
            } else {
                c
            },
    )
}

/// Equal but for the case of ASCII letters.
pub open spec fn same_ignoring_case(a: Seq<char>, b: Seq<char>) -> bool {
    ascii_lower(a) == ascii_lower(b)
}

/// What `str::to_lowercase` gives.
pub uninterp spec fn unicode_lower(s: Seq<char>) -> Seq<char>;

/// What `str::to_uppercase` gives.
pub uninterp spec fn unicode_upper(s: Seq<char>) -> Seq<char>;

// ---------------------------------------------------------------------------
// Trimming
// ---------------------------------------------------------------------------

proof fn lemma_trimmed_start(s: Seq<char>)
    ensures
        trimmed_start(s).len() > 0 ==> !is_white(trimmed_start(s)[0]),
    decreases s.len(),
{
    if s.len() > 0 && is_white(s[0]) {
        lemma_trimmed_start(s.drop_first());
    }
}

proof fn lemma_trimmed_end(s: Seq<char>)
    ensures
        trimmed_end(s).len() <= s.len(),
        trimmed_end(s).len() > 0 ==> trimmed_end(s)[0] == s[0] && !is_white(trimmed_end(s).last()),
    decreases s.len(),
{
    if s.len() > 0 && is_white(s.last()) {
        lemma_trimmed_end(s.drop_last());
    }
}

/// What has been trimmed has no white space around it: trimming it again leaves it as it
/// is.
pub proof fn law_trimming_twice(s: Seq<char>)
    ensures
        trimmed(trimmed(s)) == trimmed(s),
{
    lemma_trimmed_start(s);
    lemma_trimmed_end(trimmed_start(s));
}

// ---------------------------------------------------------------------------
// Order
// ---------------------------------------------------------------------------

pub proof fn lemma_lex_irreflexive(a: Seq<char>)
    ensures
        !lex_lt(a, a),
    decreases a.len(),
{
    if a.len() > 0 {
        lemma_lex_irreflexive(a.drop_first());
    }
}

/// Of two different texts one comes before the other.
pub proof fn law_lex_total(a: Seq<char>, b: Seq<char>)
    ensures
        a == b || lex_lt(a, b) || lex_lt(b, a),
    decreases a.len(),
{
    if a.len() == 0 || b.len() == 0 {
        if a.len() == 0 && b.len() == 0 {
            assert(a =~= b);
        }
    } else if a[0] == b[0] {
        law_lex_total(a.drop_first(), b.drop_first());
        if a.drop_first() == b.drop_first() {
            assert(a =~= seq![a[0]] + a.drop_first());
            assert(b =~= seq![b[0]] + b.drop_first());
        }
    }
}

/// Of two texts not both come before the other.
pub proof fn law_lex_asymmetric(a: Seq<char>, b: Seq<char>)
    ensures
        lex_lt(a, b) ==> !lex_lt(b, a),
    decreases a.len(),
{
    if a.len() > 0 && b.len() > 0 && a[0] == b[0] {
        law_lex_asymmetric(a.drop_first(), b.drop_first());
    }
}

pub proof fn law_lex_transitive(a: Seq<char>, b: Seq<char>, c: Seq<char>)
    requires
        lex_lt(a, b),
        lex_lt(b, c),
    ensures
        lex_lt(a, c),
    decreases a.len(),
{
    if a.len() > 0 && a[0] == b[0] && b[0] == c[0] {
        law_lex_transitive(a.drop_first(), b.drop_first(), c.drop_first());
    }
}

/// How three texts stand to one another in dictionary order.
pub proof fn lemma_lex_three(a: Seq<char>, b: Seq<char>, c: Seq<char>)
    ensures
        a == b || lex_lt(a, b) || lex_lt(b, a),
        lex_lt(a, b) ==> a != b && !lex_lt(b, a),
        !lex_lt(a, b) && !lex_lt(b, c) ==> !lex_lt(a, c),
        lex_lt(a, b) && lex_lt(b, c) ==> lex_lt(a, c),
        lex_lt(a, c) ==> a != c,
{
    law_lex_total(a, b);
    law_lex_total(b, c);
    law_lex_asymmetric(a, b);
    law_lex_asymmetric(a, c);
    lemma_lex_irreflexive(a);
    if lex_lt(a, b) && lex_lt(b, c) {
        law_lex_transitive(a, b, c);
    }
    if lex_lt(c, b) && lex_lt(b, a) {
        law_lex_transitive(c, b, a);
    }
}

// ---------------------------------------------------------------------------
// Characters
// ---------------------------------------------------------------------------

pub fn char_is_white(c: char) -> (r: bool)
    ensures
        r == is_white(c),
{
    let u: u32 = c as u32;
    (0x09 <= u && u <= 0x0d) || u == 0x20 || u == 0x85 || u == 0xa0 || u == 0x1680 || (0x2000 <= u
        && u <= 0x200a) || u == 0x2028 || u == 0x2029 || u == 0x202f || u == 0x205f || u == 0x3000
}

pub fn char_is_alpha(c: char) -> (r: bool)
    ensures
        r == is_alpha(c),
{
    ('a' <= c && c <= 'z') || ('A' <= c && c <= 'Z')
}

pub fn char_is_alnum(c: char) -> (r: bool)
    ensures
        r == is_alnum(c),
{
    char_is_alpha(c) || ('0' <= c && c <= '9')
}

/// The characters of a text.
pub fn chars_of(s: &str) -> (r: Vec<char>)
    ensures
        r@ == s@,
{
    let mut out: Vec<char> = Vec::new();
    for c in it: s.chars()
        invariant
            out@ == it.seq().take(it.index() as int),
            it.seq() == s@,
    {
        proof {
            assert(it.seq().take(it.index() as int).push(c) =~= it.seq().take(it.index() + 1));
        }
        out.push(c);
    }
    proof {
        assert(s@.take(s@.len() as int) =~= s@);
    }
    out
}

/// `String::from_iter` over characters: the text of these characters.
#[verifier::external_body]
pub(crate) fn text_of(chars: Vec<char>) -> (r: String)
    ensures
        r@ == chars@,
{
    String::from_iter(chars)
}

/// `str::to_lowercase`. The result is `unicode_lower`; on a text of ASCII
/// characters alone it changes the ASCII letters and nothing else.
#[verifier::external_body]
pub(crate) fn to_lower(s: &str) -> (r: String)
    ensures
        r@ == unicode_lower(s@),
        all_ascii(s@) ==> r@ == ascii_lower(s@),
{
    s.to_lowercase()
}

/// `str::to_uppercase`. The result is `unicode_upper`; on a text of ASCII
/// characters alone it changes the ASCII letters and nothing else.
#[verifier::external_body]
pub(crate) fn to_upper(s: &str) -> (r: String)
    ensures
        r@ == unicode_upper(s@),
        all_ascii(s@) ==> r@ == ascii_upper(s@),
{
    s.to_uppercase()
}

fn char_to_lower(c: char) -> (r: char)
    ensures
        r == lower_char(c),
{
    if 'A' <= c && c <= 'Z' {
        ((c as u8) + 32) as char
    } else {
        c
    }
}

/// ASCII letters become lower case.
pub fn to_ascii_lower(s: &str) -> (r: String)
    ensures
        r@ == ascii_lower(s@),
{
    let x = chars_of(s);
    let mut out: Vec<char> = Vec::new();
    let mut i: usize = 0;
    while i < x.len()
        invariant
            x@ == s@,
            i <= x.len(),
            out@ == ascii_lower(s@.take(i as int)),
        decreases x.len() - i,
    {
        proof {
            assert(s@.take(i + 1) =~= s@.take(i as int).push(s@[i as int]));
            assert(ascii_lower(s@.take(i + 1)) =~= ascii_lower(s@.take(i as int)).push(
                lower_char(s@[i as int]),
            ));
        }
        out.push(char_to_lower(x[i]));
        i = i + 1;
    }
    proof {
        assert(s@.take(i as int) =~= s@);
    }
    text_of(out)
}

fn char_to_upper(c: char) -> (r: char)
    ensures
        r == upper_char(c),
{
    if 'a' <= c && c <= 'z' {
        ((c as u8) - 32) as char
    } else {
        c
    }
}

/// ASCII letters become upper case.
pub fn to_ascii_upper(s: &str) -> (r: String)
    ensures
        r@ == ascii_upper(s@),
{
    let x = chars_of(s);
    let mut out: Vec<char> = Vec::new();
    let mut i: usize = 0;
    while i < x.len()
        invariant
            x@ == s@,
            i <= x.len(),
            out@ == ascii_upper(s@.take(i as int)),
        decreases x.len() - i,
    {
        proof {
            assert(s@.take(i + 1) =~= s@.take(i as int).push(s@[i as int]));
            assert(ascii_upper(s@.take(i + 1)) =~= ascii_upper(s@.take(i as int)).push(
                upper_char(s@[i as int]),
            ));
        }
        out.push(char_to_upper(x[i]));
        i = i + 1;
    }
    proof {
        assert(s@.take(i as int) =~= s@);
    }
    text_of(out)
}

// ---------------------------------------------------------------------------
// Comparing
// ---------------------------------------------------------------------------

/// The same text.
pub fn same(a: &str, b: &str) -> (r: bool)
    ensures
        r == (a@ == b@),
{
    let x = chars_of(a);
    let y = chars_of(b);
    if x.len() != y.len() {
        return false;
    }
    let mut i: usize = 0;
    while i < x.len()
        invariant
            x@ == a@,
            y@ == b@,
            x.len() == y.len(),
            i <= x.len(),
            forall|k: int| 0 <= k < i ==> x@[k] == y@[k],
        decreases x.len() - i,
    {
        if x[i] != y[i] {
            return false;
        }
        i = i + 1;
    }
    proof {
        assert(a@ =~= b@);
    }
    true
}

/// `a` comes before `b`.
pub fn text_lt(a: &str, b: &str) -> (r: bool)
    ensures
        r == lex_lt(a@, b@),
{
    let x = chars_of(a);
    let y = chars_of(b);
    let mut i: usize = 0;
    proof {
        assert(a@.skip(0) =~= a@);
        assert(b@.skip(0) =~= b@);
    }
    while i < x.len() && i < y.len()
        invariant
            x@ == a@,
            y@ == b@,
            i <= x.len(),
            i <= y.len(),
            lex_lt(a@, b@) == lex_lt(a@.skip(i as int), b@.skip(i as int)),
        decreases x.len() - i,
    {
        proof {
            assert(a@.skip(i as int).drop_first() =~= a@.skip(i + 1));
            assert(b@.skip(i as int).drop_first() =~= b@.skip(i + 1));
        }
        if x[i] < y[i] {
            return true;
        }
        if y[i] < x[i] {
            return false;
        }
        i = i + 1;
    }
    i < y.len()
}

/// `p` stands in `hay` at `at`.
fn at_position(hay: &Vec<char>, at: usize, p: &Vec<char>) -> (r: bool)
    ensures
        r == stands_at(hay@, at as int, p@),
{
    if at > hay.len() || p.len() > hay.len() - at {
        return false;
    }
    let mut k: usize = 0;
    while k < p.len()
        invariant
            k <= p.len(),
            at + p.len() <= hay.len(),
            forall|m: int| 0 <= m < k ==> hay@[at + m] == p@[m],
        decreases p.len() - k,
    {
        if hay[at + k] != p[k] {
            proof {
                assert(hay@.subrange(at as int, at + p.len())[k as int] != p@[k as int]);
            }
            return false;
        }
        k = k + 1;
    }
    proof {
        assert(hay@.subrange(at as int, at + p.len()) =~= p@);
    }
    true
}

pub fn starts_with(s: &str, p: &str) -> (r: bool)
    ensures
        r == has_prefix(s@, p@),
{
    at_position(&chars_of(s), 0, &chars_of(p))
}

pub fn ends_with(s: &str, p: &str) -> (r: bool)
    ensures
        r == has_suffix(s@, p@),
{
    let x = chars_of(s);
    let y = chars_of(p);
    if y.len() > x.len() {
        return false;
    }
    at_position(&x, x.len() - y.len(), &y)
}

/// `p` stands somewhere in `s`.
pub fn contains(s: &str, p: &str) -> (r: bool)
    ensures
        r == has_part(s@, p@),
{
    let x = chars_of(s);
    let y = chars_of(p);
    let mut i: usize = 0;
    if y.len() > x.len() {
        return false;
    }
    let last: usize = x.len() - y.len();
    while i <= last
        invariant
            x@ == s@,
            y@ == p@,
            last == x.len() - y.len(),
            i <= last + 1,
            forall|k: int| 0 <= k < i ==> !#[trigger] stands_at(s@, k, p@),
        decreases last + 1 - i,
    {
        if at_position(&x, i, &y) {
            return true;
        }
        if i == last {
            return false;
        }
        i = i + 1;
    }
    false
}

/// Equal but for the case of ASCII letters.
pub fn same_but_case(a: &str, b: &str) -> (r: bool)
    ensures
        r == same_ignoring_case(a@, b@),
{
    let x = to_ascii_lower(a);
    let y = to_ascii_lower(b);
    x == y
}

/// Every character is an ASCII letter.
pub fn only_alpha(s: &str) -> (r: bool)
    ensures
        r == all_alpha(s@),
{
    let x = chars_of(s);
    let mut i: usize = 0;
    while i < x.len()
        invariant
            x@ == s@,
            i <= x.len(),
            forall|k: int| 0 <= k < i ==> is_alpha(#[trigger] s@[k]),
        decreases x.len() - i,
    {
        if !char_is_alpha(x[i]) {
            return false;
        }
        i = i + 1;
    }
    true
}

/// Every character is an ASCII letter or digit.
pub fn only_alnum(s: &str) -> (r: bool)
    ensures
        r == all_alnum(s@),
{
    let x = chars_of(s);
    let mut i: usize = 0;
    while i < x.len()
        invariant
            x@ == s@,
            i <= x.len(),
            forall|k: int| 0 <= k < i ==> is_alnum(#[trigger] s@[k]),
        decreases x.len() - i,
    {
        if !char_is_alnum(x[i]) {
            return false;
        }
        i = i + 1;
    }
    true
}

// ---------------------------------------------------------------------------
// Cutting and joining
// ---------------------------------------------------------------------------

/// `s` without the white space around it.
pub fn trim(s: &str) -> (r: &str)
    ensures
        r@ == trimmed(s@),
{
    let x = chars_of(s);
    let mut from: usize = 0;
    proof {
        assert(s@.skip(0) =~= s@);
    }
    while from < x.len() && char_is_white(x[from])
        invariant
            x@ == s@,
            from <= x.len(),
            trimmed_start(s@) == trimmed_start(s@.skip(from as int)),
        decreases x.len() - from,
    {
        proof {
            assert(s@.skip(from as int).drop_first() =~= s@.skip(from + 1));
        }
        from = from + 1;
    }
    let mut to: usize = x.len();
    let ghost body = s@.skip(from as int);
    proof {
        assert(trimmed_start(s@) == body);
        assert(s@.subrange(from as int, to as int) =~= body);
    }
    while to > from && char_is_white(x[to - 1])
        invariant
            x@ == s@,
            from <= to <= x.len(),
            body == s@.skip(from as int),
            trimmed_end(body) == trimmed_end(s@.subrange(from as int, to as int)),
        decreases to,
    {
        proof {
            assert(s@.subrange(from as int, to as int).drop_last() =~= s@.subrange(
                from as int,
                to - 1,
            ));
        }
        to = to - 1;
    }
    s.substring_char(from, to)
}

/// `s` without the `p`s at its end.
pub fn trim_tail<'a>(s: &'a str, p: &str) -> (r: &'a str)
    ensures
        r@ == without_tail(s@, p@),
{
    let x = chars_of(s);
    let y = chars_of(p);
    let mut to: usize = x.len();
    proof {
        assert(s@.take(to as int) =~= s@);
    }
    if y.len() == 0 {
        return s.substring_char(0, to);
    }
    while y.len() <= to && at_position(&x, to - y.len(), &y)
        invariant
            x@ == s@,
            y@ == p@,
            y.len() > 0,
            to <= x.len(),
            without_tail(s@, p@) == without_tail(s@.take(to as int), p@),
        decreases to,
    {
        proof {
            let t = s@.take(to as int);
            assert(t.subrange(t.len() - p@.len(), t.len() as int) =~= s@.subrange(
                to - p@.len(),
                to as int,
            ));
            assert(t.take(t.len() - p@.len()) =~= s@.take(to - p@.len()));
        }
        to = to - y.len();
    }
    proof {
        let t = s@.take(to as int);
        if y.len() <= to {
            assert(t.subrange(t.len() - p@.len(), t.len() as int) =~= s@.subrange(
                to - p@.len(),
                to as int,
            ));
        }
        assert(s@.subrange(0, to as int) =~= t);
    }
    s.substring_char(0, to)
}

/// `s` without the `c`s at its start.
pub fn trim_head(s: &str, c: char) -> (r: &str)
    ensures
        r@ == without_head(s@, c),
{
    let x = chars_of(s);
    let mut from: usize = 0;
    proof {
        assert(s@.skip(0) =~= s@);
    }
    while from < x.len() && x[from] == c
        invariant
            x@ == s@,
            from <= x.len(),
            without_head(s@, c) == without_head(s@.skip(from as int), c),
        decreases x.len() - from,
    {
        proof {
            assert(s@.skip(from as int).drop_first() =~= s@.skip(from + 1));
        }
        from = from + 1;
    }
    proof {
        assert(s@.subrange(from as int, s@.len() as int) =~= s@.skip(from as int));
    }
    s.substring_char(from, x.len())
}

pub proof fn lemma_first_at(s: Seq<char>, c: char)
    ensures
        0 <= first_at(s, c) <= s.len(),
        first_at(s, c) < s.len() ==> s[first_at(s, c)] == c,
        forall|k: int| 0 <= k < first_at(s, c) ==> s[k] != c,
    decreases s.len(),
{
    if s.len() > 0 && s[0] != c {
        let t = s.drop_first();
        lemma_first_at(t, c);
        assert forall|k: int| 0 <= k < first_at(s, c) implies s[k] != c by {
            if k > 0 {
                assert(t[k - 1] != c);
            }
        }
    }
}

/// Where `c` first stands in `s`.
pub fn find_char(s: &str, c: char) -> (r: Option<usize>)
    ensures
        match r {
            Some(i) => i == first_at(s@, c) && i < s@.len(),
            None => first_at(s@, c) == s@.len(),
        },
{
    let x = chars_of(s);
    let mut i: usize = 0;
    proof {
        assert(s@.skip(0) =~= s@);
    }
    while i < x.len()
        invariant
            x@ == s@,
            i <= x.len(),
            first_at(s@, c) == i + first_at(s@.skip(i as int), c),
        decreases x.len() - i,
    {
        if x[i] == c {
            return Some(i);
        }
        proof {
            assert(s@.skip(i as int).drop_first() =~= s@.skip(i + 1));
        }
        i = i + 1;
    }
    None
}

/// The texts before and after the first `c`.
pub fn split_once(s: &str, c: char) -> (r: Option<(&str, &str)>)
    ensures
        match r {
            Some((a, b)) => {
                let i = first_at(s@, c);
                &&& i < s@.len()
                &&& a@ == s@.take(i)
                &&& b@ == s@.skip(i + 1)
            },
            None => first_at(s@, c) == s@.len(),
        },
{
    match find_char(s, c) {
        Some(i) => {
            let n = s.unicode_len();
            proof {
                assert(s@.subrange(0, i as int) =~= s@.take(i as int));
                assert(s@.subrange(i + 1, n as int) =~= s@.skip(i + 1));
            }
            Some((s.substring_char(0, i), s.substring_char(i + 1, n)))
        },
        None => None,
    }
}

/// Where `p` first stands in `s`.
pub open spec fn part_at(s: Seq<char>, p: Seq<char>) -> Option<int>
    decreases s.len(),
{
    if stands_at(s, 0, p) {
        Some(0)
    } else if s.len() == 0 {
        None
    } else {
        match part_at(s.drop_first(), p) {
            Some(i) => Some(i + 1),
            None => None,
        }
    }
}

pub fn find_part(s: &str, p: &str) -> (r: Option<usize>)
    ensures
        match r {
            Some(i) => part_at(s@, p@) == Some(i as int) && i + p@.len() <= s@.len(),
            None => part_at(s@, p@) is None,
        },
{
    let x = chars_of(s);
    let y = chars_of(p);
    let mut i: usize = 0;
    proof {
        assert(s@.skip(0) =~= s@);
    }
    while i <= x.len()
        invariant
            x@ == s@,
            y@ == p@,
            i <= x.len(),
            part_at(s@, p@) == (match part_at(s@.skip(i as int), p@) {
                Some(k) => Some(k + i),
                None => None,
            }),
        decreases x.len() + 1 - i,
    {
        let ghost rest = s@.skip(i as int);
        proof {
            if i + p@.len() <= s@.len() {
                assert(rest.subrange(0, p@.len() as int) =~= s@.subrange(
                    i as int,
                    i + p@.len(),
                ));
            }
            assert(stands_at(rest, 0, p@) == stands_at(s@, i as int, p@));
        }
        if at_position(&x, i, &y) {
            return Some(i);
        }
        if i == x.len() {
            return None;
        }
        proof {
            assert(rest.drop_first() =~= s@.skip(i + 1));
        }
        i = i + 1;
    }
    None
}

/// What stands behind the first `key`, up to the next one.
pub open spec fn piece_after(s: Seq<char>, key: Seq<char>) -> Option<Seq<char>> {
    match part_at(s, key) {
        None => None,
        Some(i) => {
            let t = s.skip(i + key.len());
            match part_at(t, key) {
                Some(j) => Some(t.take(j)),
                None => Some(t),
            }
        },
    }
}

pub fn after_key<'a>(s: &'a str, key: &str) -> (r: Option<&'a str>)
    ensures
        match r {
            Some(t) => piece_after(s@, key@) == Some(t@),
            None => piece_after(s@, key@) is None,
        },
{
    let n = s.unicode_len();
    let m = key.unicode_len();
    match find_part(s, key) {
        None => None,
        Some(i) => {
            let t = s.substring_char(i + m, n);
            proof {
                assert(t@ =~= s@.skip(i + m));
            }
            match find_part(t, key) {
                None => Some(t),
                Some(j) => {
                    let u = t.substring_char(0, j);
                    proof {
                        assert(u@ =~= t@.take(j as int));
                    }
                    Some(u)
                },
            }
        },
    }
}

/// What stands behind the prefix `p`.
pub fn strip_prefix<'a>(s: &'a str, p: &str) -> (r: Option<&'a str>)
    ensures
        match r {
            Some(t) => has_prefix(s@, p@) && t@ == s@.skip(p@.len() as int),
            None => !has_prefix(s@, p@),
        },
{
    if starts_with(s, p) {
        let n = s.unicode_len();
        let m = p.unicode_len();
        proof {
            assert(s@.subrange(m as int, n as int) =~= s@.skip(m as int));
        }
        Some(s.substring_char(m, n))
    } else {
        None
    }
}

/// What stands before the suffix `p`.
pub fn strip_suffix<'a>(s: &'a str, p: &str) -> (r: Option<&'a str>)
    ensures
        match r {
            Some(t) => has_suffix(s@, p@) && t@ == s@.take(s@.len() - p@.len()),
            None => !has_suffix(s@, p@),
        },
{
    if ends_with(s, p) {
        let n = s.unicode_len();
        let m = p.unicode_len();
        proof {
            assert(s@.subrange(0, n - m) =~= s@.take(n - m));
        }
        Some(s.substring_char(0, n - m))
    } else {
        None
    }
}

/// `s` with every `from` made `to`.
pub fn exchange(s: &str, from: char, to: char) -> (r: String)
    ensures
        r@ == exchanged(s@, from, to),
{
    let x = chars_of(s);
    let mut out: Vec<char> = Vec::new();
    let mut i: usize = 0;
    while i < x.len()
        invariant
            x@ == s@,
            i <= x.len(),
            out@.len() == i,
            forall|k: int|
                0 <= k < i ==> #[trigger] out@[k] == (if s@[k] == from {
                    to
                } else {
                    s@[k]
                }),
        decreases x.len() - i,
    {
        let c = x[i];
        if c == from {
            out.push(to);
        } else {
            out.push(c);
        }
        i = i + 1;
    }
    proof {
        assert(out@ =~= exchanged(s@, from, to));
    }
    text_of(out)
}

/// `a` followed by `b`.
pub fn joined(a: &str, b: &str) -> (r: String)
    ensures
        r@ == a@ + b@,
{
    let mut out: String = a.to_owned();
    out.append(b);
    out
}

/// The words of a text that are closed by white space, and what follows them.
pub open spec fn closed_words(s: Seq<char>) -> (Seq<Seq<char>>, Seq<char>)
    decreases s.len(),
{
    if s.len() == 0 {
        (Seq::empty(), Seq::empty())
    } else {
        let (done, cur) = closed_words(s.drop_last());
        if !is_white(s.last()) {
            (done, cur.push(s.last()))
        } else if cur.len() == 0 {
            (done, cur)
        } else {
            (done.push(cur), Seq::empty())
        }
    }
}

/// The pieces of a text between its white space.
pub open spec fn words_of(s: Seq<char>) -> Seq<Seq<char>> {
    let (done, cur) = closed_words(s);
    if cur.len() == 0 {
        done
    } else {
        done.push(cur)
    }
}

/// What the texts hold.
pub open spec fn texts_of(s: Seq<String>) -> Seq<Seq<char>> {
    s.map_values(|t: String| t@)
}

pub fn words(s: &str) -> (r: Vec<String>)
    ensures
        texts_of(r@) == words_of(s@),
{
    let x = chars_of(s);
    let mut done: Vec<String> = Vec::new();
    let mut cur: Vec<char> = Vec::new();
    let mut i: usize = 0;
    proof {
        assert(s@.take(0) =~= Seq::empty());
        assert(texts_of(done@) =~= Seq::empty());
    }
    while i < x.len()
        invariant
            x@ == s@,
            i <= x.len(),
            (texts_of(done@), cur@) == closed_words(s@.take(i as int)),
        decreases x.len() - i,
    {
        proof {
            assert(s@.take(i + 1).drop_last() =~= s@.take(i as int));
        }
        let c = x[i];
        if !char_is_white(c) {
            cur.push(c);
        } else if cur.len() > 0 {
            let ghost before = done@;
            let ghost word = cur@;
            let mut piece: Vec<char> = Vec::new();
            std::mem::swap(&mut piece, &mut cur);
            done.push(text_of(piece));
            proof {
                assert(texts_of(done@) =~= texts_of(before).push(word));
            }
        }
        i = i + 1;
    }
    proof {
        assert(s@.take(i as int) =~= s@);
    }
    if cur.len() > 0 {
        let ghost before = done@;
        let ghost word = cur@;
        done.push(text_of(cur));
        proof {
            assert(texts_of(done@) =~= texts_of(before).push(word));
        }
    }
    done
}

/// What stands behind the last `c`, or the whole text where there is none.
pub open spec fn behind_last(s: Seq<char>, c: char) -> Seq<char>
    decreases s.len(),
{
    if s.len() == 0 || s.last() == c {
        Seq::empty()
    } else {
        behind_last(s.drop_last(), c).push(s.last())
    }
}

/// `behind_last` gives an end of the text that holds no `c`, and what stands
/// before it is a `c`.
pub proof fn lemma_behind_last(s: Seq<char>, c: char)
    ensures
        ({
            let t = behind_last(s, c);
            &&& t.len() <= s.len()
            &&& t == s.skip(s.len() - t.len())
            &&& !t.contains(c)
            &&& t.len() < s.len() ==> s[s.len() - t.len() - 1] == c
        }),
    decreases s.len(),
{
    if s.len() == 0 || s.last() == c {
        assert(s.skip(s.len() as int) =~= Seq::empty());
    } else {
        let init = s.drop_last();
        lemma_behind_last(init, c);
        let u = behind_last(init, c);
        let t = u.push(s.last());
        assert(t =~= s.skip(s.len() - t.len()));
        assert forall|k: int| 0 <= k < t.len() implies t[k] != c by {
            if k < u.len() {
                assert(u.contains(u[k]));
            }
        }
    }
}

pub fn after_last<'a>(s: &'a str, c: char) -> (r: &'a str)
    ensures
        r@ == behind_last(s@, c),
{
    let x = chars_of(s);
    let n = x.len();
    let mut i: usize = n;
    while i > 0 && x[i - 1] != c
        invariant
            x@ == s@,
            n == x.len(),
            i <= n,
            forall|k: int| i <= k < n ==> s@[k] != c,
        decreases i,
    {
        i = i - 1;
    }
    let t = s.substring_char(i, n);
    proof {
        lemma_behind_last(s@, c);
        let u = behind_last(s@, c);
        let at = s@.len() - u.len();
        assert(at == i) by {
            if at < i {
                assert(s@[i - 1] == c);
                assert(u[i - 1 - at] == c);
                assert(u.contains(c));
            }
            if at > i {
                assert(s@[at - 1] == c);
            }
        }
        assert(t@ =~= s@.skip(i as int));
    }
    t
}

// ---------------------------------------------------------------------------
// Numbers
// ---------------------------------------------------------------------------

/// The character of a digit.
pub open spec fn digit_char(d: int) -> char {
    (48 + d) as char
}

/// A number without a sign in decimal digits.
pub open spec fn digits(n: int) -> Seq<char>
    decreases n,
{
    if n < 10 {
        seq![digit_char(n)]
    } else {
        digits(n / 10).push(digit_char(n % 10))
    }
}

/// A number in decimal digits, behind a `-` where it is below zero.
pub open spec fn number_text(n: int) -> Seq<char> {
    if n < 0 {
        seq!['-'] + digits(-n)
    } else {
        digits(n)
    }
}

fn digit_of(d: u64) -> (r: char)
    requires
        d < 10,
    ensures
        r == digit_char(d as int),
{
    let b: u8 = 48 + d as u8;
    b as char
}

fn digits_of(n: u64) -> (r: Vec<char>)
    ensures
        r@ == digits(n as int),
    decreases n,
{
    if n < 10 {
        let mut out: Vec<char> = Vec::new();
        out.push(digit_of(n));
        proof {
            assert(out@ =~= digits(n as int));
        }
        out
    } else {
        let mut out = digits_of(n / 10);
        out.push(digit_of(n % 10));
        out
    }
}

/// A number as text.
pub fn int_text(n: i64) -> (r: String)
    ensures
        r@ == number_text(n as int),
{
    if n < 0 {
        let mut out: Vec<char> = Vec::new();
        out.push('-');
        let mut rest = digits_of((-(n as i128)) as u64);
        let ghost d = rest@;
        out.append(&mut rest);
        proof {
            assert(out@ =~= seq!['-'] + d);
        }
        text_of(out)
    } else {
        text_of(digits_of(n as u64))
    }
}

/// A number without a sign as text.
pub fn uint_text(n: u64) -> (r: String)
    ensures
        r@ == digits(n as int),
{
    text_of(digits_of(n))
}

/// `s` is not empty and holds digits alone.
pub open spec fn all_digits(s: Seq<char>) -> bool {
    s.len() > 0 && forall|i: int| 0 <= i < s.len() ==> is_digit(#[trigger] s[i])
}

/// The number that a sequence of digits stands for.
pub open spec fn digits_value(s: Seq<char>) -> int
    decreases s.len(),
{
    if s.len() == 0 {
        0
    } else {
        10 * digits_value(s.drop_last()) + (s.last() as int - 48)
    }
}

/// The number that a text spells without a sign, or behind a `+`.
pub open spec fn unsigned_of(s: Seq<char>) -> Option<int> {
    let body = if s.len() > 0 && s[0] == '+' {
        s.skip(1)
    } else {
        s
    };
    if all_digits(body) {
        Some(digits_value(body))
    } else {
        None
    }
}

/// The number that a text spells, behind a sign or without one.
pub open spec fn signed_of(s: Seq<char>) -> Option<int> {
    if s.len() > 0 && s[0] == '-' {
        if all_digits(s.skip(1)) {
            Some(-digits_value(s.skip(1)))
        } else {
            None
        }
    } else {
        unsigned_of(s)
    }
}

proof fn lemma_digits_value(s: Seq<char>, n: int)
    requires
        0 <= n <= s.len(),
        forall|i: int| 0 <= i < s.len() ==> is_digit(#[trigger] s[i]),
    ensures
        0 <= digits_value(s.take(n)) <= digits_value(s),
    decreases s.len(),
{
    if s.len() > 0 {
        let t = s.drop_last();
        assert forall|i: int| 0 <= i < t.len() implies is_digit(#[trigger] t[i]) by {
            assert(is_digit(s[i]));
        }
        assert(is_digit(s[s.len() - 1]));
        if n < s.len() {
            assert(s.take(n) =~= t.take(n));
            lemma_digits_value(t, n);
        } else {
            assert(s.take(n) =~= s);
            lemma_digits_value(t, t.len() as int);
            assert(t.take(t.len() as int) =~= t);
        }
    } else {
        assert(s.take(n) =~= s);
    }
}

/// The value of the digits from `from` on, if they are digits and it fits.
fn digits_number(x: &Vec<char>, from: usize) -> (r: Option<u64>)
    requires
        from <= x@.len(),
    ensures
        match r {
            Some(n) => all_digits(x@.skip(from as int)) && n == digits_value(
                x@.skip(from as int),
            ),
            None => !all_digits(x@.skip(from as int)) || digits_value(x@.skip(from as int))
                > u64::MAX,
        },
{
    let ghost body = x@.skip(from as int);
    if from == x.len() {
        return None;
    }
    let mut k: usize = from;
    while k < x.len()
        invariant
            body == x@.skip(from as int),
            from <= k <= x@.len(),
            forall|i: int| from <= i < k ==> is_digit(#[trigger] x@[i]),
        decreases x.len() - k,
    {
        if !('0' <= x[k] && x[k] <= '9') {
            proof {
                assert(body[k - from] == x@[k as int]);
            }
            return None;
        }
        k = k + 1;
    }
    proof {
        assert forall|i: int| 0 <= i < body.len() implies is_digit(#[trigger] body[i]) by {
            assert(is_digit(x@[from + i]));
        }
        assert(body.take(0) =~= Seq::<char>::empty());
    }
    let mut n: u64 = 0;
    let mut i: usize = from;
    while i < x.len()
        invariant
            body == x@.skip(from as int),
            all_digits(body),
            from <= i <= x@.len(),
            n == digits_value(body.take(i - from)),
        decreases x.len() - i,
    {
        proof {
            let m = i - from;
            assert(body[m] == x@[i as int]);
            assert(is_digit(body[m]));
            assert(body.take(m + 1).drop_last() =~= body.take(m));
            assert(body.take(m + 1).last() == body[m]);
            lemma_digits_value(body, m + 1);
        }
        let d: u64 = x[i] as u64 - 48;
        if n > (u64::MAX - d) / 10 {
            return None;
        }
        n = n * 10 + d;
        i = i + 1;
    }
    proof {
        assert(body.take(x@.len() - from) =~= body);
    }
    Some(n)
}

/// The number that a text spells, if it has 64 bits without a sign.
pub fn parse_u64(s: &str) -> (r: Option<u64>)
    ensures
        match r {
            Some(n) => unsigned_of(s@) == Some(n as int),
            None => unsigned_of(s@) matches Some(n) ==> n > u64::MAX,
        },
{
    let x = chars_of(s);
    proof {
        assert(x@.skip(0) =~= x@);
    }
    if x.len() > 0 && x[0] == '+' {
        digits_number(&x, 1)
    } else {
        digits_number(&x, 0)
    }
}

/// The number that a text spells, if it fits 64 bits with a sign.
pub fn parse_i64(s: &str) -> (r: Option<i64>)
    ensures
        match r {
            Some(n) => signed_of(s@) == Some(n as int),
            None => signed_of(s@) matches Some(n) ==> n < i64::MIN || n > i64::MAX,
        },
{
    let x = chars_of(s);
    proof {
        assert(x@.skip(0) =~= x@);
    }
    if x.len() > 0 && x[0] == '-' {
        match digits_number(&x, 1) {
            Some(n) => if n <= i64::MAX as u64 {
                Some(-(n as i64))
            } else if n == 9223372036854775808 {
                Some(i64::MIN)
            } else {
                None
            },
            None => None,
        }
    } else {
        match parse_u64(s) {
            Some(n) => if n <= i64::MAX as u64 {
                Some(n as i64)
            } else {
                None
            },
            None => None,
        }
    }
}

/// The number that a text spells, if it fits 32 bits with a sign.
pub fn parse_i32(s: &str) -> (r: Option<i32>)
    ensures
        match r {
            Some(n) => signed_of(s@) == Some(n as int),
            None => signed_of(s@) matches Some(n) ==> n < i32::MIN || n > i32::MAX,
        },
{
    match parse_i64(s) {
        Some(n) => if i32::MIN as i64 <= n && n <= i32::MAX as i64 {
            Some(n as i32)
        } else {
            None
        },
        None => None,
    }
}

} // verus!
