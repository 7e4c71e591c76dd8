//! Distances: meters, whole kilometers, and the normalized
//! kilometers-plus-meters pair parsed from strings like `"10km"`,
//! `"10.5km"` or `"1500m"`.

use vstd::prelude::*;

use crate::render::dec_rep;
use crate::render::u32_digits;
use crate::scan::all_digits;
use crate::scan::digits_val;
use crate::scan::find_char;
use crate::scan::is_digit;
use crate::scan::lemma_digits_val_bound;
use crate::scan::parse_u32;
use crate::scan::parses_to_u32;
use crate::scan::pow10;
use crate::scan::split_first;
use crate::scan::lemma_split_first_at;

verus! {

/// A non-negative count of meters.
#[derive(Debug, PartialEq, Eq, Structural, Clone, Copy)]
pub struct Meters(pub u32);

/// A non-negative count of whole kilometers.
#[derive(Debug, PartialEq, Eq, Structural, Clone, Copy)]
pub struct Kilometers(pub u32);

/// A distance normalized to whole kilometers plus sub-kilometer meters.
/// Every value this crate produces keeps the meters component below 1000.
#[derive(Debug, PartialEq, Eq, Structural, Clone, Copy)]
pub struct Distance(pub u32, pub u32);

/// `s` ends with the given suffix.
pub open spec fn ends_with(s: Seq<char>, suffix: Seq<char>) -> bool {
    suffix.len() <= s.len() && s.skip(s.len() - suffix.len()) == suffix
}

/// The kilometer branch of the grammar, applied to the string with its `km`
/// suffix already removed: the part before the first `.` must parse as the
/// kilometers; of the part between the first and second `.`, the first three
/// characters parse as the meters, or default to 0.
pub open spec fn parse_km_body(body: Seq<char>) -> Option<Distance> {
    let (whole, rest) = split_first(body, '.');
    if !parses_to_u32(whole) {
        None
    } else {
        let frac = match rest {
            None => Seq::<char>::empty(),
            Some(r) => split_first(r, '.').0,
        };
        let frac3 = frac.subrange(0, if frac.len() < 3 { frac.len() as int } else { 3 });
        let m: nat = if parses_to_u32(frac3) {
            digits_val(frac3)
        } else {
            0
        };
        Some(Distance(digits_val(whole) as u32, m as u32))
    }
}

/// The meter branch of the grammar, applied to the string with its `m`
/// suffix already removed: the whole remainder parses as total meters,
/// decomposed into kilometers and leftover meters.
pub open spec fn parse_m_body(body: Seq<char>) -> Option<Distance> {
    if parses_to_u32(body) {
        Some(
            Distance((digits_val(body) as int / 1000) as u32, (digits_val(body) as int % 1000) as u32),
        )
    } else {
        None
    }
}

/// The distance grammar: a `km`-suffixed kilometers-and-fraction form, or an
/// `m`-suffixed whole-meters form; anything else is rejected.
pub open spec fn parse_distance(s: Seq<char>) -> Option<Distance> {
    if ends_with(s, seq!['k', 'm']) {
        parse_km_body(s.subrange(0, s.len() - 2))
    } else if ends_with(s, seq!['m']) {
        parse_m_body(s.subrange(0, s.len() - 1))
    } else {
        None
    }
}

fn ends_with_km(s: &str) -> (b: bool)
    ensures
        b == ends_with(s@, seq!['k', 'm']),
{
    let n = s.unicode_len();
    if n < 2 {
        return false;
    }
    let b = s.get_char(n - 2) == 'k' && s.get_char(n - 1) == 'm';
    proof {
        if b {
            assert(s@.skip(n - 2) =~= seq!['k', 'm']);
        } else {
            if ends_with(s@, seq!['k', 'm']) {
                assert(s@.skip(n - 2)[0] == s@[n - 2]);
                assert(s@.skip(n - 2)[1] == s@[n - 1]);
            }
        }
    }
    b
}

fn ends_with_m(s: &str) -> (b: bool)
    ensures
        b == ends_with(s@, seq!['m']),
{
    let n = s.unicode_len();
    if n < 1 {
        return false;
    }
    let b = s.get_char(n - 1) == 'm';
    proof {
        if b {
            assert(s@.skip(n - 1) =~= seq!['m']);
        } else {
            if ends_with(s@, seq!['m']) {
                assert(s@.skip(n - 1)[0] == s@[n - 1]);
            }
        }
    }
    b
}

impl Distance {
    /// Parse a distance string: `"10km"`, `"10.5km"`, `"1500m"`, and the
    /// like. The fractional part of a kilometer value is truncated to its
    /// first three characters, never rounded, and defaults to 0 when absent
    /// or unparseable.
    pub fn new(distance: &str) -> (r: Option<Self>)
        ensures
            r == parse_distance(distance@),
            r matches Some(d) ==> d.1 < 1000,
    {
        proof {
            lemma_parse_distance_meters_bound(distance@);
        }
        if ends_with_km(distance) {
            let n = distance.unicode_len();
            let body = distance.substring_char(0, n - 2);
            proof {
                assert(body@ =~= distance@.subrange(0, distance@.len() - 2));
            }
            Self::parse_km(body)
        } else if ends_with_m(distance) {
            let n = distance.unicode_len();
            let body = distance.substring_char(0, n - 1);
            proof {
                assert(body@ =~= distance@.subrange(0, distance@.len() - 1));
            }
            match parse_u32(body) {
                Some(total) => Some(Self(total / 1000, total % 1000)),
                None => None,
            }
        } else {
            None
        }
    }

    fn parse_km(body: &str) -> (r: Option<Self>)
        ensures
            r == parse_km_body(body@),
    {
        let blen = body.unicode_len();
        let dot1 = find_char(body, '.', 0);
        proof {
            lemma_split_first_at(body@, '.', dot1 as int);
        }
        let whole = body.substring_char(0, dot1);
        let km = match parse_u32(whole) {
            Some(km) => km,
            None => {
                return None;
            },
        };
        if dot1 == blen {
            // No fractional part at all: the meters default to 0.
            assert(!parses_to_u32(Seq::<char>::empty().subrange(0, 0)));
            Some(Self(km, 0))
        } else {
            let rs = dot1 + 1;
            let dot2 = find_char(body, '.', rs);
            proof {
                let rest = body@.skip(dot1 + 1);
                assert(forall|j: int|
                    0 <= j < dot2 - rs ==> rest[j] == body@[j + rs] && rest[j] != '.');
                assert(dot2 < blen ==> rest[dot2 - rs] == '.');
                lemma_split_first_at(rest, '.', dot2 - rs);
            }
            let end3 = if dot2 - rs > 3 {
                rs + 3
            } else {
                dot2
            };
            let frac3 = body.substring_char(rs, end3);
            proof {
                let rest = body@.skip(dot1 + 1);
                let frac = rest.subrange(0, dot2 - rs);
                let cut = if frac.len() < 3 {
                    frac.len() as int
                } else {
                    3
                };
                assert(frac3@ =~= frac.subrange(0, cut));
            }
            match parse_u32(frac3) {
                Some(m) => Some(Self(km, m)),
                None => Some(Self(km, 0)),
            }
        }
    }
}

impl Meters {
    /// A whole-kilometer count in meters.
    pub fn from_kilometers(kms: Kilometers) -> (r: Self)
        requires
            kms.0 * 1000 <= u32::MAX,
        ensures
            r.0 == kms.0 * 1000,
    {
        Meters(kms.0 * 1000)
    }

    /// A normalized distance as total meters.
    pub fn from_distance(distance: Distance) -> (r: Self)
        requires
            distance.0 * 1000 + distance.1 <= u32::MAX,
        ensures
            r.0 == distance.0 * 1000 + distance.1,
    {
        Meters(distance.0 * 1000 + distance.1)
    }

    /// The count followed by the meter unit, e.g. `"1500 m"`.
    pub fn to_display_string(&self) -> (r: String)
        ensures
            r@ == dec_rep(self.0 as nat) + " m"@,
    {
        let mut s = u32_digits(self.0);
        s.append(" m");
        s
    }
}

/// For every kilometer string `"{k}.{f}km"` whose fractional part has at
/// least three digits, the parsed meters component is the value of the first
/// three digits of the fraction, read verbatim: truncation by character
/// count, not rounding.
pub proof fn lemma_km_fraction_truncates(k: Seq<char>, f: Seq<char>)
    requires
        parses_to_u32(k),
        all_digits(f),
        f.len() >= 3,
    ensures
        parse_distance(k + seq!['.'] + f + seq!['k', 'm']) == Some(
            Distance(digits_val(k) as u32, digits_val(f.subrange(0, 3)) as u32),
        ),
{
    let s = k + seq!['.'] + f + seq!['k', 'm'];
    assert(s.skip(s.len() - 2) =~= seq!['k', 'm']);
    let body = s.subrange(0, s.len() - 2);
    assert(body =~= k + seq!['.'] + f);
    assert(forall|j: int| 0 <= j < k.len() ==> body[j] == k[j]);
    assert(!is_digit('.'));
    assert(body[k.len() as int] == '.');
    lemma_split_first_at(body, '.', k.len() as int);
    assert(body.subrange(0, k.len() as int) =~= k);
    assert(body.skip(k.len() as int + 1) =~= f);
    lemma_split_first_at(f, '.', f.len() as int);
    assert(f.subrange(0, f.len() as int) =~= f);
    let frac3 = f.subrange(0, 3);
    lemma_digits_val_bound(frac3);
    assert(pow10(0) == 1);
    assert(pow10(1) == 10);
    assert(pow10(2) == 100);
    assert(pow10(3) == 1000);
    assert(parses_to_u32(frac3));
}

/// For every meter string `"{n}m"`, the parsed distance is the canonical
/// decomposition of `n` total meters: `n / 1000` whole kilometers and
/// `n % 1000` leftover meters.
pub proof fn lemma_meters_string_decomposes(n: Seq<char>)
    requires
        parses_to_u32(n),
    ensures
        parse_distance(n + seq!['m']) == Some(
            Distance(
                (digits_val(n) as int / 1000) as u32,
                (digits_val(n) as int % 1000) as u32,
            ),
        ),
{
    let s = n + seq!['m'];
    if ends_with(s, seq!['k', 'm']) {
        assert(s.skip(s.len() - 2)[0] == s[s.len() - 2]);
        assert(s[s.len() - 2] == n.last());
        assert(is_digit(n.last()));
        assert(false);
    }
    assert(s.skip(s.len() - 1) =~= seq!['m']);
    assert(s.subrange(0, s.len() - 1) =~= n);
}

/// Every distance the parser accepts has its meters component below 1000:
/// the kilometer branch keeps at most three fractional digits, and the meter
/// branch reduces modulo 1000.
pub proof fn lemma_parse_distance_meters_bound(s: Seq<char>)
    ensures
        parse_distance(s) matches Some(d) ==> d.1 < 1000,
{
    if parse_distance(s) is Some {
        if ends_with(s, seq!['k', 'm']) {
            let body = s.subrange(0, s.len() - 2);
            let (whole, rest) = split_first(body, '.');
            let frac = match rest {
                None => Seq::<char>::empty(),
                Some(r) => split_first(r, '.').0,
            };
            let frac3 = frac.subrange(0, if frac.len() < 3 { frac.len() as int } else { 3 });
            lemma_digits_val_bound(frac3);
            assert(pow10(0) == 1);
            assert(pow10(1) == 10);
            assert(pow10(2) == 100);
            assert(pow10(3) == 1000);
            assert(frac3.len() <= 3);
        }
    }
}

} // verus!
