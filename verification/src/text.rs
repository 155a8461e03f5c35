//! Text utilities shared by the cell and formula modules: whitespace
//! classification, trimming, and parsing of integer literals, each specified
//! against a sequence-level model of the text.

use vstd::prelude::*;

verus! {

/// The Unicode white-space characters, exactly the set that
/// `char::is_whitespace` (and hence `str::trim`) recognises.
pub open spec fn is_ws_char(c: char) -> bool {
    let u = c as u32;
    u == 0x20 || (0x09 <= u && u <= 0x0D) || u == 0x85 || u == 0xA0 || u == 0x1680 || (0x2000
        <= u && u <= 0x200A) || u == 0x2028 || u == 0x2029 || u == 0x202F || u == 0x205F || u
        == 0x3000
}

/// Runtime check matching `is_ws_char`.
pub fn is_ws(c: char) -> (r: bool)
    ensures
        r == is_ws_char(c),
{
    let u = c as u32;
    u == 0x20 || (0x09 <= u && u <= 0x0D) || u == 0x85 || u == 0xA0 || u == 0x1680 || (0x2000
        <= u && u <= 0x200A) || u == 0x2028 || u == 0x2029 || u == 0x202F || u == 0x205F || u
        == 0x3000
}

/// Index of the first character at or after `i` that is not white space
/// (the length of `s` if there is none).
pub open spec fn first_non_ws_from(s: Seq<char>, i: int) -> int
    decreases s.len() - i,
{
    if i < 0 || i >= s.len() {
        i
    } else if is_ws_char(s[i]) {
        first_non_ws_from(s, i + 1)
    } else {
        i
    }
}

pub proof fn lemma_first_non_ws_from(s: Seq<char>, i: int)
    requires
        0 <= i <= s.len(),
    ensures
        i <= first_non_ws_from(s, i) <= s.len(),
        forall|j: int| i <= j < first_non_ws_from(s, i) ==> is_ws_char(s[j]),
        first_non_ws_from(s, i) < s.len() ==> !is_ws_char(s[first_non_ws_from(s, i)]),
    decreases s.len() - i,
{
    if i < s.len() && is_ws_char(s[i]) {
        lemma_first_non_ws_from(s, i + 1);
    }
}

/// Index of the first character at or after `i` that is not `'='`
/// (the length of `s` if there is none).
pub open spec fn first_non_eq_from(s: Seq<char>, i: int) -> int
    decreases s.len() - i,
{
    if i < 0 || i >= s.len() {
        i
    } else if s[i] == '=' {
        first_non_eq_from(s, i + 1)
    } else {
        i
    }
}

/// Index just past the last character before `j` that is not white space
/// (`0` if every character before `j` is white space).
pub open spec fn end_non_ws_to(s: Seq<char>, j: int) -> int
    decreases j,
{
    if j <= 0 || j > s.len() {
        0
    } else if is_ws_char(s[j - 1]) {
        end_non_ws_to(s, j - 1)
    } else {
        j
    }
}

pub proof fn lemma_end_non_ws_to(s: Seq<char>, j: int)
    requires
        0 <= j <= s.len(),
    ensures
        0 <= end_non_ws_to(s, j) <= j,
        forall|k: int| end_non_ws_to(s, j) <= k < j ==> is_ws_char(s[k]),
        end_non_ws_to(s, j) > 0 ==> !is_ws_char(s[end_non_ws_to(s, j) - 1]),
    decreases j,
{
    if 0 < j && is_ws_char(s[j - 1]) {
        lemma_end_non_ws_to(s, j - 1);
    }
}

/// What `str::trim` leaves of `s`.
pub open spec fn trim_spec(s: Seq<char>) -> Seq<char> {
    let b = first_non_ws_from(s, 0);
    if b == s.len() {
        Seq::empty()
    } else {
        s.subrange(b, end_non_ws_to(s, s.len() as int))
    }
}

pub proof fn lemma_trim_spec_wf(s: Seq<char>)
    ensures
        first_non_ws_from(s, 0) < s.len() ==> first_non_ws_from(s, 0) < end_non_ws_to(
            s,
            s.len() as int,
        ),
{
    lemma_first_non_ws_from(s, 0);
    lemma_end_non_ws_to(s, s.len() as int);
    let b = first_non_ws_from(s, 0);
    let e = end_non_ws_to(s, s.len() as int);
    if b < s.len() && e <= b {
        assert(is_ws_char(s[b]));  // from the second lemma, since e <= b < len
        assert(!is_ws_char(s[b]));
    }
}

/// Runtime trim: the bounds of `trim_spec` computed by scanning.
pub fn trim_bounds(s: &str) -> (r: (usize, usize))
    ensures
        0 <= r.0 <= r.1 <= s@.len(),
        s@.subrange(r.0 as int, r.1 as int) == trim_spec(s@),
{
    let n: usize = s.unicode_len();
    let mut b: usize = 0;
    while b < n && is_ws(s.get_char(b))
        invariant
            0 <= b <= n,
            n == s@.len(),
            first_non_ws_from(s@, 0) == first_non_ws_from(s@, b as int),
        decreases n - b,
    {
        b = b + 1;
    }
    proof {
        lemma_first_non_ws_from(s@, b as int);
        assert(first_non_ws_from(s@, b as int) == b);
    }
    if b == n {
        proof {
            assert(trim_spec(s@) == Seq::<char>::empty());
            assert(s@.subrange(n as int, n as int) =~= Seq::<char>::empty());
        }
        return (n, n);
    }
    let mut e: usize = n;
    while e > 0 && is_ws(s.get_char(e - 1))
        invariant
            0 <= e <= n,
            n == s@.len(),
            end_non_ws_to(s@, n as int) == end_non_ws_to(s@, e as int),
        decreases e,
    {
        e = e - 1;
    }
    proof {
        lemma_end_non_ws_to(s@, e as int);
        assert(end_non_ws_to(s@, e as int) == e);
        lemma_trim_spec_wf(s@);
    }
    (b, e)
}

/// The characters that a sequence of ASCII bytes spells.
pub open spec fn chars_of_bytes(bs: Seq<u8>) -> Seq<char> {
    bs.map_values(|b: u8| b as char)
}

/// Relies on `String::from_utf8`: ASCII bytes decode to exactly one
/// character per byte.
#[verifier::external_body]
pub(crate) fn ascii_to_string(bytes: Vec<u8>) -> (r: String)
    requires
        forall|i: int| 0 <= i < bytes@.len() ==> bytes@[i] < 128,
    ensures
        r@ == chars_of_bytes(bytes@),
{
    String::from_utf8(bytes).unwrap_or_default()
}

/// ASCII decimal digit.
pub open spec fn is_digit(c: char) -> bool {
    0x30 <= c as u32 <= 0x39
}

pub open spec fn digit_val(c: char) -> int {
    c as u32 - 0x30
}

pub open spec fn all_digits(s: Seq<char>) -> bool {
    forall|i: int| 0 <= i < s.len() ==> is_digit(#[trigger] s[i])
}

/// The number the digit string `s` denotes in decimal.
pub open spec fn digits_val(s: Seq<char>) -> int
    decreases s.len(),
{
    if s.len() == 0 {
        0
    } else {
        digits_val(s.drop_last()) * 10 + digit_val(s.last())
    }
}

pub proof fn lemma_digits_val_nonneg(s: Seq<char>)
    requires
        all_digits(s),
    ensures
        digits_val(s) >= 0,
    decreases s.len(),
{
    if s.len() > 0 {
        assert(all_digits(s.drop_last())) by {
            assert(forall|i: int|
                0 <= i < s.len() - 1 ==> s.drop_last()[i] == #[trigger] s[i]);
        }
        lemma_digits_val_nonneg(s.drop_last());
    }
}

/// A digit string's value never shrinks as digits are appended.
pub proof fn lemma_digits_val_prefix_le(s: Seq<char>, i: int)
    requires
        all_digits(s),
        0 <= i <= s.len(),
    ensures
        digits_val(s.take(i)) <= digits_val(s),
    decreases s.len(),
{
    if i == s.len() {
        assert(s.take(i) =~= s);
    } else {
        assert(all_digits(s.drop_last())) by {
            assert(forall|j: int|
                0 <= j < s.len() - 1 ==> s.drop_last()[j] == #[trigger] s[j]);
        }
        assert(s.take(i) =~= s.drop_last().take(i));
        lemma_digits_val_prefix_le(s.drop_last(), i);
        lemma_digits_val_nonneg(s.drop_last());
    }
}

/// What `str::parse::<i64>` accepts and returns: an optional sign followed
/// by one or more ASCII digits, denoting a value within the `i64` range.
pub open spec fn int_literal(s: Seq<char>) -> Option<int> {
    let ds = if s.len() > 0 && (s[0] == '+' || s[0] == '-') {
        s.subrange(1, s.len() as int)
    } else {
        s
    };
    let sign: int = if s.len() > 0 && s[0] == '-' {
        -1
    } else {
        1
    };
    if ds.len() > 0 && all_digits(ds) {
        let v = sign * digits_val(ds);
        if i64::MIN <= v <= i64::MAX {
            Some(v)
        } else {
            None
        }
    } else {
        None
    }
}

/// Parse a whole string as an `i64`, accepting exactly what
/// `str::parse::<i64>` accepts.
pub fn parse_i64(s: &str) -> (r: Option<i64>)
    ensures
        match r {
            Some(x) => int_literal(s@) == Some(x as int),
            None => int_literal(s@) is None,
        },
{
    let n: usize = s.unicode_len();
    if n == 0 {
        return None;
    }
    let c0 = s.get_char(0);
    let negative = c0 == '-';
    let start: usize = if c0 == '-' || c0 == '+' {
        1
    } else {
        0
    };
    let ghost ds = s@.subrange(start as int, n as int);
    proof {
        if start == 0 {
            assert(s@.subrange(0, n as int) =~= s@);
        }
    }
    if start == n {
        // A bare sign has no digits.
        assert(ds.len() == 0);
        return None;
    }
    // Accumulate the negated value so that i64::MIN parses as well.
    let mut acc: i64 = 0;
    let mut i: usize = start;
    while i < n
        invariant
            start <= i <= n,
            n == s@.len(),
            0 < n,
            start < n,
            start == 0 || start == 1,
            (start == 1) == (s@[0] == '+' || s@[0] == '-'),
            negative == (s@[0] == '-'),
            ds == s@.subrange(start as int, n as int),
            start == 0 ==> ds == s@,
            all_digits(ds.take(i - start)),
            acc == -digits_val(ds.take(i - start)),
        decreases n - i,
    {
        let c = s.get_char(i);
        let u = c as u32;
        if !(0x30 <= u && u <= 0x39) {
            assert(!is_digit(ds[i - start]));
            return None;
        }
        let d: i64 = (u - 0x30) as i64;
        let ghost pre = ds.take(i - start);
        let ghost cur = ds.take(i + 1 - start);
        assert(cur.drop_last() =~= pre && cur.last() == ds[i - start]);
        let step = match acc.checked_mul(10) {
            Some(m) => m.checked_sub(d),
            None => None,
        };
        match step {
            Some(next) => {
                acc = next;
            },
            None => {
                // The value exceeds the i64 range already; appending more
                // digits can only grow it further.
                proof {
                    lemma_digits_val_nonneg(pre);
                    assert(acc <= 0);
                    assert(ds[i - start] == c);
                    assert(digit_val(ds[i - start]) == d as int);
                    assert(digits_val(cur) == digits_val(pre) * 10 + digit_val(ds[i - start]));
                    assert(digits_val(cur) > i64::MAX + 1);
                    let spec_ds = if s@.len() > 0 && (s@[0] == '+' || s@[0] == '-') {
                        s@.subrange(1, s@.len() as int)
                    } else {
                        s@
                    };
                    assert(spec_ds == ds);
                    if all_digits(ds) {
                        lemma_digits_val_prefix_le(ds, i + 1 - start);
                        assert(digits_val(ds) > i64::MAX + 1);
                        assert(-1 * digits_val(ds) == -digits_val(ds));
                        assert(-digits_val(ds) < i64::MIN);
                        assert(1 * digits_val(ds) > i64::MAX);
                    }
                    assert(int_literal(s@) is None);
                }
                return None;
            },
        }
        i = i + 1;
    }
    assert(ds.take(n - start) =~= ds);
    proof {
        lemma_digits_val_nonneg(ds);
        assert(all_digits(ds));
        assert(acc == -digits_val(ds));
        assert(ds.len() > 0);
    }
    if negative {
        assert(s@[0] == '-');
        proof {
            let spec_ds = if s@.len() > 0 && (s@[0] == '+' || s@[0] == '-') {
                s@.subrange(1, s@.len() as int)
            } else {
                s@
            };
            assert(spec_ds == ds);
            assert(spec_ds.len() > 0 && all_digits(spec_ds));
            let v = -1 * digits_val(spec_ds);
            assert(v == acc as int);
            assert(i64::MIN <= v <= i64::MAX);
            assert(int_literal(s@) == Some(v));
        }
        assert(int_literal(s@) == Some(acc as int));
        Some(acc)
    } else {
        if acc == i64::MIN {
            // The magnitude 2^63 fits only with a minus sign.
            assert(int_literal(s@) is None);
            return None;
        }
        assert(int_literal(s@) == Some(-acc as int));
        Some(-acc)
    }
}

} // verus!

