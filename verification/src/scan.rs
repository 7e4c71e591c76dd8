//! Character-level scanning shared by the distance and duration parsers:
//! decimal digit sequences and their numeric value, splitting a string at a
//! separator character, and a verified decimal `u32` parser.

use vstd::prelude::*;

verus! {

/// A decimal digit, by its Unicode code point (`'0'` is 48, `'9'` is 57).
pub open spec fn is_digit(c: char) -> bool {
    48 <= c as int <= 57
}

/// Numeric value of one digit; 0 for any other character, so that
/// `digits_val` is total.
pub open spec fn digit_val(c: char) -> nat {
    if is_digit(c) {
        (c as int - 48) as nat
    } else {
        0
    }
}

pub open spec fn all_digits(s: Seq<char>) -> bool {
    forall|i: int| 0 <= i < s.len() ==> is_digit(#[trigger] s[i])
}

/// Value of a digit sequence read in base 10, most significant digit first.
pub open spec fn digits_val(s: Seq<char>) -> nat
    decreases s.len(),
{
    if s.len() == 0 {
        0
    } else {
        digits_val(s.drop_last()) * 10 + digit_val(s.last())
    }
}

/// The strings accepted by the decimal `u32` parser: non-empty, digits only,
/// value within range.
pub open spec fn parses_to_u32(s: Seq<char>) -> bool {
    s.len() > 0 && all_digits(s) && digits_val(s) <= u32::MAX
}

pub open spec fn pow10(n: nat) -> nat
    decreases n,
{
    if n == 0 {
        1
    } else {
        10 * pow10((n - 1) as nat)
    }
}

/// A digit sequence of length `n` denotes a value below `10^n`.
pub proof fn lemma_digits_val_bound(s: Seq<char>)
    ensures
        digits_val(s) < pow10(s.len()),
    decreases s.len(),
{
    if s.len() > 0 {
        lemma_digits_val_bound(s.drop_last());
    }
}

/// Reading more digits can only increase the value: a prefix denotes at most
/// what the whole sequence denotes.
pub proof fn lemma_digits_val_prefix(s: Seq<char>, i: int)
    requires
        0 <= i <= s.len(),
    ensures
        digits_val(s.subrange(0, i)) <= digits_val(s),
    decreases s.len(),
{
    if i == s.len() {
        assert(s.subrange(0, i) =~= s);
    } else {
        assert(s.subrange(0, i) =~= s.drop_last().subrange(0, i));
        lemma_digits_val_prefix(s.drop_last(), i);
    }
}

/// The part of `s` before the first `sep`, and, when `sep` occurs, the part
/// after that first occurrence.
pub open spec fn split_first(s: Seq<char>, sep: char) -> (Seq<char>, Option<Seq<char>>)
    decreases s.len(),
{
    if s.len() == 0 {
        (s, None)
    } else if s[0] == sep {
        (Seq::empty(), Some(s.skip(1)))
    } else {
        let (head, rest) = split_first(s.skip(1), sep);
        (seq![s[0]] + head, rest)
    }
}

/// Ties `split_first` to an index `i` found by scanning: if no separator
/// stands before `i`, and `i` is either the first separator or the end, then
/// `split_first` cuts exactly at `i`.
pub proof fn lemma_split_first_at(s: Seq<char>, sep: char, i: int)
    requires
        0 <= i <= s.len(),
        forall|j: int| 0 <= j < i ==> s[j] != sep,
        i < s.len() ==> s[i] == sep,
    ensures
        split_first(s, sep).0 =~= s.subrange(0, i),
        split_first(s, sep).1 == (if i < s.len() {
            Some(s.skip(i + 1))
        } else {
            None::<Seq<char>>
        }),
    decreases i,
{
    if s.len() == 0 {
    } else if i == 0 {
        if i < s.len() {
            assert(split_first(s, sep).1 == Some(s.skip(1)));
        }
    } else {
        lemma_split_first_at(s.skip(1), sep, i - 1);
        assert(forall|j: int| 0 <= j < i - 1 ==> s.skip(1)[j] != sep);
        assert(split_first(s, sep).0 =~= seq![s[0]] + split_first(s.skip(1), sep).0);
        assert(seq![s[0]] + s.skip(1).subrange(0, i - 1) =~= s.subrange(0, i));
        if i < s.len() {
            assert(s.skip(1).skip(i) =~= s.skip(i + 1));
        }
    }
}

/// Index of the first occurrence of `sep` at or after `from`, or the length
/// of the string when there is none.
pub fn find_char(s: &str, sep: char, from: usize) -> (r: usize)
    requires
        from <= s@.len(),
    ensures
        from <= r <= s@.len(),
        forall|j: int| from <= j < r ==> s@[j] != sep,
        r < s@.len() ==> s@[r as int] == sep,
{
    let n = s.unicode_len();
    let mut i = from;
    while i < n
        invariant
            from <= i <= n,
            n == s@.len(),
            forall|j: int| from <= j < i ==> s@[j] != sep,
        decreases n - i,
    {
        if s.get_char(i) == sep {
            return i;
        }
        i = i + 1;
    }
    n
}

/// Parse a string of decimal digits as a `u32`. Fails on an empty string, on
/// any non-digit character, and on a value above `u32::MAX`.
pub fn parse_u32(s: &str) -> (r: Option<u32>)
    ensures
        r == (if parses_to_u32(s@) {
            Some(digits_val(s@) as u32)
        } else {
            None::<u32>
        }),
{
    let n = s.unicode_len();
    if n == 0 {
        return None;
    }
    let mut i: usize = 0;
    let mut acc: u32 = 0;
    while i < n
        invariant
            0 <= i <= n,
            n == s@.len(),
            all_digits(s@.subrange(0, i as int)),
            acc == digits_val(s@.subrange(0, i as int)),
        decreases n - i,
    {
        let c = s.get_char(i);
        let u = c as u32;
        if u < 48 || u > 57 {
            assert(!is_digit(s@[i as int]));
            return None;
        }
        let d = u - 48;
        if acc > (u32::MAX - d) / 10 {
            proof {
                let p = s@.subrange(0, i as int + 1);
                assert(p.drop_last() =~= s@.subrange(0, i as int));
                assert(p.last() == s@[i as int]);
                assert(digits_val(p) == acc * 10 + d);
                assert(digits_val(p) > u32::MAX);
                lemma_digits_val_prefix(s@, i as int + 1);
            }
            return None;
        }
        proof {
            let p = s@.subrange(0, i as int + 1);
            assert(p.drop_last() =~= s@.subrange(0, i as int));
            assert(p.last() == s@[i as int]);
        }
        acc = acc * 10 + d;
        i = i + 1;
    }
    proof {
        assert(s@.subrange(0, n as int) =~= s@);
    }
    Some(acc)
}

} // verus!
