//! Coordinate naming and formula evaluation: the spreadsheet-style name of a
//! grid coordinate (`A0`, `B7`, `AA10`, ...) is the variable under which a
//! cell's value enters the evaluation context of a tick.

use vstd::prelude::*;

use crate::cell::{canonical_value, formula_body, formula_body_of, CellValue, ValView};
use crate::grid_state::{
    entries_map, entries_uniq, entry_key, lemma_entries_map_contains, GridEntry, GridState,
};
use crate::text::{all_digits, ascii_to_string, chars_of_bytes, digit_val, digits_val, is_digit};

verus! {

/// Upper-case ASCII letter, the alphabet of column names.
pub open spec fn is_upper(c: char) -> bool {
    65 <= c as u32 <= 90
}

/// The column digit a letter stands for (`'A'` is 0, `'Z'` is 25).
pub open spec fn letter_val(c: char) -> int {
    c as u32 - 65
}

/// The letter that stands for the column digit `d`.
pub open spec fn col_letter(d: int) -> char {
    ((65 + d) as u8) as char
}

pub open spec fn all_uppers(s: Seq<char>) -> bool {
    forall|i: int| 0 <= i < s.len() ==> is_upper(#[trigger] s[i])
}

/// Bijective base-26 spelling of a column index:
/// 0 is `A`, 25 is `Z`, 26 is `AA`, 27 is `AB`, and so on.
pub open spec fn col_letters(c: nat) -> Seq<char>
    decreases c,
{
    if c < 26 {
        seq![col_letter(c as int)]
    } else {
        col_letters((c / 26 - 1) as nat) + seq![col_letter((c % 26) as int)]
    }
}

/// Decimal spelling of a row index, most significant digit first.
pub open spec fn dec_digits(r: nat) -> Seq<char>
    decreases r,
{
    if r < 10 {
        seq![digit_char(r as int)]
    } else {
        dec_digits((r / 10) as nat) + seq![digit_char((r % 10) as int)]
    }
}

/// The digit character for the value `d`.
pub open spec fn digit_char(d: int) -> char {
    ((48 + d) as u8) as char
}

/// The name of the cell at column `c`, row `r`: the column letters followed
/// directly by the row digits.
pub open spec fn name_of(c: nat, r: nat) -> Seq<char> {
    col_letters(c) + dec_digits(r)
}

/// The column index a letter string denotes, inverting `col_letters`.
pub open spec fn letters_val(s: Seq<char>) -> int
    decreases s.len(),
{
    if s.len() == 0 {
        0
    } else if s.len() == 1 {
        letter_val(s[0])
    } else {
        (letters_val(s.drop_last()) + 1) * 26 + letter_val(s.last())
    }
}

/// Index of the first character at or after `i` that is not an upper-case
/// letter (the length of `s` if there is none).
pub open spec fn first_non_upper_from(s: Seq<char>, i: int) -> int
    decreases s.len() - i,
{
    if i < 0 || i >= s.len() {
        i
    } else if is_upper(s[i]) {
        first_non_upper_from(s, i + 1)
    } else {
        i
    }
}

/// How a name splits back into a coordinate: one or more letters, then one
/// or more digits, and nothing else.
pub open spec fn parse_name(s: Seq<char>) -> Option<(int, int)> {
    let k = first_non_upper_from(s, 0);
    if 1 <= k && k < s.len() && all_digits(s.subrange(k, s.len() as int)) {
        Some((letters_val(s.subrange(0, k)), digits_val(s.subrange(k, s.len() as int))))
    } else {
        None
    }
}

pub proof fn lemma_first_non_upper_from(s: Seq<char>, i: int)
    requires
        0 <= i <= s.len(),
    ensures
        i <= first_non_upper_from(s, i) <= s.len(),
        forall|j: int| i <= j < first_non_upper_from(s, i) ==> is_upper(s[j]),
        first_non_upper_from(s, i) < s.len() ==> !is_upper(s[first_non_upper_from(s, i)]),
    decreases s.len() - i,
{
    if i < s.len() && is_upper(s[i]) {
        lemma_first_non_upper_from(s, i + 1);
    }
}

/// The scan for the first non-letter stops exactly at a known boundary.
proof fn lemma_first_non_upper_identify(s: Seq<char>, i: int, k: int)
    requires
        0 <= i <= k < s.len(),
        forall|j: int| 0 <= j < k ==> is_upper(#[trigger] s[j]),
        !is_upper(s[k]),
    ensures
        first_non_upper_from(s, i) == k,
    decreases k - i,
{
    if i < k {
        lemma_first_non_upper_identify(s, i + 1, k);
    }
}

pub proof fn lemma_letters_val_nonneg(s: Seq<char>)
    requires
        all_uppers(s),
    ensures
        letters_val(s) >= 0,
    decreases s.len(),
{
    if s.len() > 1 {
        assert(all_uppers(s.drop_last())) by {
            assert(forall|i: int|
                0 <= i < s.len() - 1 ==> s.drop_last()[i] == #[trigger] s[i]);
        }
        lemma_letters_val_nonneg(s.drop_last());
    }
}

/// A letter string's value never shrinks as letters are appended.
pub proof fn lemma_letters_val_prefix_le(s: Seq<char>, i: int)
    requires
        all_uppers(s),
        1 <= i <= s.len(),
    ensures
        letters_val(s.take(i)) <= letters_val(s),
    decreases s.len(),
{
    if i == s.len() {
        assert(s.take(i) =~= s);
    } else {
        assert(all_uppers(s.drop_last())) by {
            assert(forall|j: int|
                0 <= j < s.len() - 1 ==> s.drop_last()[j] == #[trigger] s[j]);
        }
        assert(s.take(i) =~= s.drop_last().take(i));
        lemma_letters_val_prefix_le(s.drop_last(), i);
        lemma_letters_val_nonneg(s.drop_last());
        assert(s.len() >= 2);
        assert(letters_val(s) == (letters_val(s.drop_last()) + 1) * 26 + letter_val(s.last()));
        assert(is_upper(s.last()));
    }
}

/// The column spelling consists of letters and spells the column back.
pub proof fn lemma_col_letters_props(c: nat)
    ensures
        col_letters(c).len() >= 1,
        all_uppers(col_letters(c)),
        letters_val(col_letters(c)) == c,
    decreases c,
{
    if c < 26 {
        assert(is_upper(col_letter(c as int)));
        assert(letters_val(col_letters(c)) == letter_val(col_letter(c as int)));
    } else {
        let q = (c / 26 - 1) as nat;
        lemma_col_letters_props(q);
        let w = col_letters(q) + seq![col_letter((c % 26) as int)];
        assert(all_uppers(w)) by {
            assert(forall|i: int|
                0 <= i < col_letters(q).len() ==> w[i] == #[trigger] col_letters(q)[i]);
            assert(is_upper(col_letter((c % 26) as int)));
        }
        assert(w.drop_last() =~= col_letters(q));
        assert(w.len() >= 2);
        assert(letters_val(w) == (letters_val(col_letters(q)) + 1) * 26 + letter_val(
            col_letter((c % 26) as int),
        ));
        assert(letter_val(col_letter((c % 26) as int)) == c % 26);
        assert((q + 1) * 26 + c % 26 == c) by {
            assert(q + 1 == c / 26);
            assert(c / 26 * 26 + c % 26 == c) by (nonlinear_arith);
        }
    }
}

/// The row spelling consists of digits and spells the row back.
pub proof fn lemma_dec_digits_props(r: nat)
    ensures
        dec_digits(r).len() >= 1,
        all_digits(dec_digits(r)),
        digits_val(dec_digits(r)) == r,
    decreases r,
{
    if r < 10 {
        assert(is_digit(digit_char(r as int)));
        assert(dec_digits(r).drop_last() =~= Seq::<char>::empty());
        assert(digits_val(Seq::<char>::empty()) == 0);
        assert(digits_val(dec_digits(r)) == digit_val(digit_char(r as int)));
    } else {
        let q = (r / 10) as nat;
        lemma_dec_digits_props(q);
        let w = dec_digits(q) + seq![digit_char((r % 10) as int)];
        assert(all_digits(w)) by {
            assert(forall|i: int|
                0 <= i < dec_digits(q).len() ==> w[i] == #[trigger] dec_digits(q)[i]);
            assert(is_digit(digit_char((r % 10) as int)));
        }
        assert(w.drop_last() =~= dec_digits(q));
        assert(digits_val(w) == digits_val(dec_digits(q)) * 10 + digit_val(
            digit_char((r % 10) as int),
        ));
        assert(digit_val(digit_char((r % 10) as int)) == r % 10);
        assert(r / 10 * 10 + r % 10 == r) by (nonlinear_arith);
    }
}

/// Coordinate naming is a bijection on non-negative pairs: parsing the name
/// of any coordinate gives that coordinate back.
pub proof fn lemma_name_round_trip(c: nat, r: nat)
    ensures
        parse_name(name_of(c, r)) == Some((c as int, r as int)),
{
    lemma_col_letters_props(c);
    lemma_dec_digits_props(r);
    let nm = name_of(c, r);
    let k = col_letters(c).len() as int;
    assert(forall|j: int| 0 <= j < k ==> is_upper(#[trigger] nm[j])) by {
        assert(forall|j: int| 0 <= j < k ==> nm[j] == #[trigger] col_letters(c)[j]);
    }
    assert(nm[k] == dec_digits(r)[0]);
    assert(is_digit(nm[k]));
    assert(!is_upper(nm[k]));
    lemma_first_non_upper_identify(nm, 0, k);
    assert(nm.subrange(0, k) =~= col_letters(c));
    assert(nm.subrange(k, nm.len() as int) =~= dec_digits(r));
}

/// Helper pushing the column letters of `c` onto an ASCII byte buffer.
fn push_col_letters(c: u32, out: &mut Vec<u8>)
    ensures
        chars_of_bytes(final(out)@) == chars_of_bytes(old(out)@) + col_letters(c as nat),
        final(out)@.len() > old(out)@.len(),
        forall|i: int|
            0 <= i < final(out)@.len() ==> (#[trigger] final(out)@[i] < 128 <==> (i
                < old(out)@.len() ==> old(out)@[i] < 128)),
    decreases c,
{
    if c < 26 {
        let b: u8 = 65 + (c as u8);
        out.push(b);
        proof {
            assert(chars_of_bytes(out@) =~= chars_of_bytes(old(out)@) + seq![b as char]);
            assert(b as char == col_letter(c as int));
        }
    } else {
        push_col_letters(c / 26 - 1, out);
        let b: u8 = 65 + ((c % 26) as u8);
        let ghost mid = out@;
        out.push(b);
        proof {
            assert(chars_of_bytes(out@) =~= chars_of_bytes(mid) + seq![b as char]);
            assert(b as char == col_letter((c % 26) as int));
            assert(chars_of_bytes(out@) =~= chars_of_bytes(old(out)@) + col_letters(c as nat));
        }
    }
}

/// Helper pushing the decimal digits of `r` onto an ASCII byte buffer.
fn push_dec_digits(r: u32, out: &mut Vec<u8>)
    ensures
        chars_of_bytes(final(out)@) == chars_of_bytes(old(out)@) + dec_digits(r as nat),
        final(out)@.len() > old(out)@.len(),
        forall|i: int|
            0 <= i < final(out)@.len() ==> (#[trigger] final(out)@[i] < 128 <==> (i
                < old(out)@.len() ==> old(out)@[i] < 128)),
    decreases r,
{
    if r < 10 {
        let b: u8 = 48 + (r as u8);
        out.push(b);
        proof {
            assert(chars_of_bytes(out@) =~= chars_of_bytes(old(out)@) + seq![b as char]);
            assert(b as char == digit_char(r as int));
        }
    } else {
        push_dec_digits(r / 10, out);
        let b: u8 = 48 + ((r % 10) as u8);
        let ghost mid = out@;
        out.push(b);
        proof {
            assert(chars_of_bytes(out@) =~= chars_of_bytes(mid) + seq![b as char]);
            assert(b as char == digit_char((r % 10) as int));
            assert(chars_of_bytes(out@) =~= chars_of_bytes(old(out)@) + dec_digits(r as nat));
        }
    }
}

/// Convert `(col, row)` to its spreadsheet-style name: `A0`, `B0`, ... `Z0`,
/// `AA0`, `AB0`, and so on, with the row number appended in decimal.
pub fn coord_to_name(col: i32, row: i32) -> (r: String)
    requires
        0 <= col,
        0 <= row,
    ensures
        r@ == name_of(col as nat, row as nat),
{
    let mut bytes: Vec<u8> = Vec::new();
    push_col_letters(col as u32, &mut bytes);
    push_dec_digits(row as u32, &mut bytes);
    proof {
        assert(bytes@.len() == chars_of_bytes(bytes@).len());
        assert(chars_of_bytes(bytes@) == name_of(col as nat, row as nat));
        assert(forall|i: int| 0 <= i < bytes@.len() ==> bytes@[i] < 128);
    }
    ascii_to_string(bytes)
}

/// Runtime check matching `is_upper`.
fn upper_char(c: char) -> (r: bool)
    ensures
        r == is_upper(c),
{
    let u = c as u32;
    65 <= u && u <= 90
}

/// Parse a spreadsheet-style name back to `(col, row)`: the exact inverse of
/// `coord_to_name` wherever both coordinates fit in `i32`.
pub fn name_to_coord(s: &str) -> (r: Option<(i32, i32)>)
    ensures
        match parse_name(s@) {
            Some(p) => if p.0 <= i32::MAX && p.1 <= i32::MAX {
                r == Some((p.0 as i32, p.1 as i32))
            } else {
                r is None
            },
            None => r is None,
        },
{
    let n: usize = s.unicode_len();
    let ghost k = first_non_upper_from(s@, 0);
    proof {
        lemma_first_non_upper_from(s@, 0);
    }
    let mut i: usize = 0;
    let mut col: u64 = 0;
    while i < n && upper_char(s.get_char(i))
        invariant
            0 <= i <= n,
            n == s@.len(),
            k == first_non_upper_from(s@, 0),
            0 <= k <= n,
            forall|j: int| 0 <= j < k ==> is_upper(#[trigger] s@[j]),
            k < n ==> !is_upper(s@[k]),
            i <= k,
            forall|j: int| 0 <= j < i ==> is_upper(#[trigger] s@[j]),
            i >= 1 ==> col == letters_val(s@.take(i as int)),
            i == 0 ==> col == 0,
            col <= i32::MAX,
        decreases n - i,
    {
        let u = s.get_char(i) as u32;
        let lv: u64 = (u - 65) as u64;
        let ghost pre = s@.take(i as int);
        let ghost cur = s@.take(i + 1 as int);
        let next: u64 = if i == 0 {
            lv
        } else {
            (col + 1) * 26 + lv
        };
        proof {
            assert(cur.drop_last() =~= pre);
            assert(cur.last() == s@[i as int]);
            if i >= 1 {
                assert(cur.len() >= 2);
                assert(letters_val(cur) == (letters_val(pre) + 1) * 26 + letter_val(
                    s@[i as int],
                ));
            } else {
                assert(cur.len() == 1);
            }
            assert(next == letters_val(cur));
        }
        if next > i32::MAX as u64 {
            // The column index has already outgrown i32; more letters can
            // only make it larger.
            proof {
                lemma_first_non_upper_from(s@, 0);
                if parse_name(s@) is Some {
                    assert(1 <= k && k < s@.len() && all_digits(
                        s@.subrange(k, s@.len() as int),
                    ));
                    assert(all_uppers(s@.take(k))) by {
                        assert(forall|j: int|
                            0 <= j < k ==> s@.take(k)[j] == #[trigger] s@[j]);
                    }
                    assert(cur =~= s@.take(k).take(i + 1 as int));
                    lemma_letters_val_prefix_le(s@.take(k), i + 1 as int);
                    assert(s@.take(k).take(k) =~= s@.take(k));
                    assert(s@.subrange(0, k) =~= s@.take(k));
                }
            }
            return None;
        }
        col = next;
        i = i + 1;
    }
    // No letters at all, or nothing after them: not a name.
    proof {
        if i < n {
            assert(!is_upper(s@[i as int]));
            lemma_first_non_upper_identify(s@, 0, i as int);
        } else {
            assert(k == n) by {
                lemma_first_non_upper_from(s@, 0);
                if k < n {
                    assert(is_upper(s@[k]));
                }
            }
        }
        assert(k == i);
    }
    if i == 0 || i == n {
        return None;
    }
    let ghost ds = s@.subrange(k, n as int);
    let start: usize = i;
    let mut row: u64 = 0;
    while i < n
        invariant
            start <= i <= n,
            n == s@.len(),
            1 <= start < n,
            k == start,
            k == first_non_upper_from(s@, 0),
            ds == s@.subrange(k, n as int),
            col <= i32::MAX,
            col == letters_val(s@.subrange(0, k)),
            all_digits(ds.take(i - start)),
            row == digits_val(ds.take(i - start)),
            row <= i32::MAX,
        decreases n - i,
    {
        let c = s.get_char(i);
        let u = c as u32;
        if !(48 <= u && u <= 57) {
            assert(!is_digit(ds[i - start]));
            return None;
        }
        let d: u64 = (u - 48) as u64;
        let ghost pre = ds.take(i - start);
        let ghost cur = ds.take(i + 1 - start);
        proof {
            assert(cur.drop_last() =~= pre);
            assert(cur.last() == ds[i - start]);
        }
        let next: u64 = row * 10 + d;
        assert(next == digits_val(cur));
        if next > i32::MAX as u64 {
            // The row number has already outgrown i32; more digits can only
            // make it larger.
            proof {
                if parse_name(s@) is Some && all_digits(ds) {
                    crate::text::lemma_digits_val_prefix_le(ds, i + 1 - start);
                }
            }
            return None;
        }
        row = next;
        i = i + 1;
    }
    proof {
        assert(ds.take(n - start) =~= ds);
    }
    Some((col as i32, row as i32))
}


/// The evaluation context of one tick: the variables a formula can read.
/// It holds evalexpr's `HashMapContext`, whose generic declaration Verus
/// refuses, so Verus treats the whole wrapper as opaque.
#[verifier::external_body]
pub struct EvalContext {
    inner: evalexpr::HashMapContext,
}

/// What the evaluation context holds: each variable name mapped to the
/// value set under it.
pub uninterp spec fn ctx_entries(ctx: EvalContext) -> Map<Seq<char>, ValView>;

/// How evalexpr may answer an expression over the given variables: the
/// outcome is a value, or nothing when evaluation fails. This is a
/// relation, not a function: evalexpr's `^` operator and `math::*`
/// builtins delegate to the platform's floating-point routines, whose
/// exact results Rust leaves open, so equal inputs are not promised equal
/// answers.
pub uninterp spec fn eval_may(
    expr: Seq<char>,
    vars: Map<Seq<char>, ValView>,
    outcome: Option<ValView>,
) -> bool;

/// Why a formula failed to evaluate, as the evaluator reported it.
#[derive(Debug, Clone)]
pub struct FormulaError {
    /// The evaluator's message.
    pub message: String,
}

/// Relies on `evalexpr::HashMapContext::new`: a context with no variables.
#[verifier::external_body]
fn ctx_new() -> (r: EvalContext)
    ensures
        ctx_entries(r) =~= Map::empty(),
{
    EvalContext { inner: evalexpr::HashMapContext::new() }
}

/// Relies on evalexpr's `ContextWithMutableVariables::set_value` on a
/// `HashMapContext`: a name not yet present is inserted, and an integer
/// may replace an integer binding; either way the name then maps to the
/// given value. (Setting a differently typed value over an existing
/// binding would be refused, so the contract keeps that case out.) The
/// context stores a float as a number, not as text, so only a float in
/// its canonical spelling — the one its number reads back as — is
/// admitted; for it the stored number and the text determine each other.
#[verifier::external_body]
fn ctx_set(ctx: &mut EvalContext, name: String, value: &CellValue)
    requires
        ctx_entries(*old(ctx)).contains_key(name@) ==> (ctx_entries(*old(ctx))[name@] is Int
            && value@ is Int),
        canonical_value(value@),
    ensures
        ctx_entries(*final(ctx)) == ctx_entries(*old(ctx)).insert(name@, value@),
{
    let v = match value {
        CellValue::Int(i) => evalexpr::Value::Int(*i),
        CellValue::Float(s) => evalexpr::Value::Float(s.parse().unwrap()),
        CellValue::Text(s) => evalexpr::Value::String(s.clone()),
        CellValue::Bool(b) => evalexpr::Value::Boolean(*b),
        CellValue::Empty => evalexpr::Value::Empty,
    };
    let _ = evalexpr::ContextWithMutableVariables::set_value(&mut ctx.inner, name, v);
}

/// Relies on `evalexpr::eval_with_context`: the outcome is one the
/// evaluator can give for this expression over the context's variables,
/// and a returned float carries the canonical text of its number, the
/// spelling the shortest-round-trip formatting produces. Results outside
/// the data model (tuples) collapse to `Empty`; the error carries the
/// evaluator's message. (Deeply nested expression text can exhaust the
/// stack inside evalexpr's recursive parser.)
#[verifier::external_body]
pub fn evaluate_formula(expr: &str, context: &EvalContext) -> (r: Result<
    CellValue,
    FormulaError,
>)
    ensures
        match r {
            Ok(v) => eval_may(expr@, ctx_entries(*context), Some(v@)),
            Err(_) => eval_may(expr@, ctx_entries(*context), None),
        },
        r matches Ok(v) ==> canonical_value(v@),
{
    match evalexpr::eval_with_context(expr, &context.inner) {
        Ok(evalexpr::Value::Int(i)) => Ok(CellValue::Int(i)),
        Ok(evalexpr::Value::Float(f)) => Ok(CellValue::Float(format!("{:?}", f))),
        Ok(evalexpr::Value::String(s)) => Ok(CellValue::Text(s)),
        Ok(evalexpr::Value::Boolean(b)) => Ok(CellValue::Bool(b)),
        Ok(evalexpr::Value::Empty) => Ok(CellValue::Empty),
        Ok(evalexpr::Value::Tuple(_)) => Ok(CellValue::Empty),
        Err(e) => Err(FormulaError { message: e.to_string() }),
    }
}

/// Two distinct non-negative coordinates never share a name.
pub proof fn lemma_name_of_injective(c1: nat, r1: nat, c2: nat, r2: nat)
    requires
        name_of(c1, r1) == name_of(c2, r2),
    ensures
        c1 == c2,
        r1 == r2,
{
    lemma_name_round_trip(c1, r1);
    lemma_name_round_trip(c2, r2);
}

/// The snapshot the engine takes at the start of a tick: every cell at a
/// nameable (non-negative) coordinate, recorded under its name.
pub open spec fn snapshot_of(s: Seq<GridEntry>) -> Map<Seq<char>, ValView>
    decreases s.len(),
{
    if s.len() == 0 {
        Map::empty()
    } else {
        let m = snapshot_of(s.drop_last());
        let e = s.last();
        if e.col >= 0 && e.row >= 0 {
            m.insert(name_of(e.col as nat, e.row as nat), e.cell@.value)
        } else {
            m
        }
    }
}

/// A name is in the snapshot exactly when some nameable entry carries it.
pub proof fn lemma_snapshot_contains(s: Seq<GridEntry>, nm: Seq<char>)
    ensures
        snapshot_of(s).contains_key(nm) <==> exists|i: int|
            0 <= i < s.len() && (#[trigger] s[i]).col >= 0 && s[i].row >= 0 && name_of(
                s[i].col as nat,
                s[i].row as nat,
            ) == nm,
    decreases s.len(),
{
    if s.len() > 0 {
        lemma_snapshot_contains(s.drop_last(), nm);
        let e = s.last();
        if e.col >= 0 && e.row >= 0 && name_of(e.col as nat, e.row as nat) == nm {
            assert((s[s.len() - 1]).col >= 0 && s[s.len() - 1].row >= 0 && name_of(
                s[s.len() - 1].col as nat,
                s[s.len() - 1].row as nat,
            ) == nm);
        } else if snapshot_of(s.drop_last()).contains_key(nm) {
            let i = choose|i: int|
                0 <= i < s.drop_last().len() && (#[trigger] s.drop_last()[i]).col >= 0
                    && s.drop_last()[i].row >= 0 && name_of(
                    s.drop_last()[i].col as nat,
                    s.drop_last()[i].row as nat,
                ) == nm;
            assert((s[i]).col >= 0 && s[i].row >= 0 && name_of(s[i].col as nat, s[i].row as nat)
                == nm);
        } else if exists|i: int|
            0 <= i < s.len() && (#[trigger] s[i]).col >= 0 && s[i].row >= 0 && name_of(
                s[i].col as nat,
                s[i].row as nat,
            ) == nm {
            let i = choose|i: int|
                0 <= i < s.len() && (#[trigger] s[i]).col >= 0 && s[i].row >= 0 && name_of(
                    s[i].col as nat,
                    s[i].row as nat,
                ) == nm;
            assert(i < s.len() - 1);
            assert((s.drop_last()[i]).col >= 0 && s.drop_last()[i].row >= 0 && name_of(
                s.drop_last()[i].col as nat,
                s.drop_last()[i].row as nat,
            ) == nm);
        }
    }
}

/// In a well-formed grid, the snapshot holds each nameable cell's value
/// under that cell's name.
pub proof fn lemma_snapshot_lookup(s: Seq<GridEntry>, i: int)
    requires
        entries_uniq(s),
        0 <= i < s.len(),
        s[i].col >= 0,
        s[i].row >= 0,
    ensures
        snapshot_of(s).contains_key(name_of(s[i].col as nat, s[i].row as nat)),
        snapshot_of(s)[name_of(s[i].col as nat, s[i].row as nat)] == s[i].cell@.value,
    decreases s.len(),
{
    let nm = name_of(s[i].col as nat, s[i].row as nat);
    if i == s.len() - 1 {
    } else {
        assert(entries_uniq(s.drop_last())) by {
            assert(forall|p: int, q: int|
                0 <= p < q < s.len() - 1 ==> entry_key(#[trigger] s.drop_last()[p]) != entry_key(
                    #[trigger] s.drop_last()[q],
                ));
        }
        assert(s.drop_last()[i] == s[i]);
        lemma_snapshot_lookup(s.drop_last(), i);
        let e = s.last();
        if e.col >= 0 && e.row >= 0 {
            assert(entry_key(s[i]) != entry_key(s[s.len() - 1]));
            if name_of(e.col as nat, e.row as nat) == nm {
                lemma_name_of_injective(
                    e.col as nat,
                    e.row as nat,
                    s[i].col as nat,
                    s[i].row as nat,
                );
                assert(false);
            }
        }
    }
}

/// Build the evaluation context from the current grid state: one variable
/// per cell at a non-negative coordinate, carrying the cell's current
/// value. Cells at negative coordinates have no name a formula could
/// reference, so they stay out of the context.
pub fn build_context(grid: &GridState) -> (ctx: EvalContext)
    requires
        grid.wf(),
        grid.values_canonical(),
    ensures
        ctx_entries(ctx) == snapshot_of(grid.entries()),
{
    let mut ctx = ctx_new();
    let n = grid.cells.len();
    let mut i: usize = 0;
    while i < n
        invariant
            0 <= i <= n,
            n == grid.cells@.len(),
            grid.wf(),
            grid.values_canonical(),
            ctx_entries(ctx) == snapshot_of(grid.cells@.take(i as int)),
        decreases n - i,
    {
        let ghost pre = grid.cells@.take(i as int);
        let ghost cur = grid.cells@.take(i + 1 as int);
        proof {
            assert(cur.drop_last() =~= pre);
            assert(cur.last() == grid.cells@[i as int]);
        }
        let e = &grid.cells[i];
        if e.col >= 0 && e.row >= 0 {
            let nm = coord_to_name(e.col, e.row);
            proof {
                lemma_snapshot_contains(pre, nm@);
                if ctx_entries(ctx).contains_key(nm@) {
                    let j = choose|j: int|
                        0 <= j < pre.len() && (#[trigger] pre[j]).col >= 0 && pre[j].row >= 0
                            && name_of(pre[j].col as nat, pre[j].row as nat) == nm@;
                    assert(pre[j] == grid.cells@[j]);
                    lemma_name_of_injective(
                        pre[j].col as nat,
                        pre[j].row as nat,
                        e.col as nat,
                        e.row as nat,
                    );
                    assert(entry_key(grid.cells@[j]) == entry_key(grid.cells@[i as int]));
                    assert(false);
                }
            }
            ctx_set(&mut ctx, nm, &e.cell.value);
        }
        i = i + 1;
    }
    proof {
        assert(grid.cells@.take(n as int) =~= grid.cells@);
    }
    ctx
}

/// Non-negative coordinates spell non-negative name components.
pub proof fn lemma_parse_name_nonneg(s: Seq<char>)
    ensures
        parse_name(s) matches Some(p) ==> p.0 >= 0 && p.1 >= 0,
{
    if parse_name(s) is Some {
        let k = first_non_upper_from(s, 0);
        lemma_first_non_upper_from(s, 0);
        assert(all_uppers(s.subrange(0, k))) by {
            assert(forall|j: int| 0 <= j < k ==> s.subrange(0, k)[j] == #[trigger] s[j]);
        }
        lemma_letters_val_nonneg(s.subrange(0, k));
        crate::text::lemma_digits_val_nonneg(s.subrange(k, s.len() as int));
    }
}

/// The variable names an expression reads, in the order evalexpr's parser
/// lists them; an expression that does not parse reads none.
pub uninterp spec fn read_vars_of(expr: Seq<char>) -> Seq<Seq<char>>;

/// Relies on `evalexpr::build_operator_tree` and
/// `Node::iter_read_variable_identifiers`: parsing is deterministic, so
/// the listed names are a function of the expression text alone.
#[verifier::external_body]
fn read_variable_names(expr: &str) -> (r: Vec<String>)
    ensures
        r.deep_view() == read_vars_of(expr@),
{
    match evalexpr::build_operator_tree::<evalexpr::DefaultNumericTypes>(expr) {
        Ok(tree) => tree.iter_read_variable_identifiers().map(|v| v.to_string()).collect(),
        Err(_) => Vec::new(),
    }
}

/// A name that denotes a coordinate holding no cell; in the evaluation
/// context of a tick such a name carries the empty cell's zero default.
pub open spec fn absent_coord_name(s: Seq<GridEntry>, v: Seq<char>) -> bool {
    exists|c: nat, r: nat|
        c <= i32::MAX && r <= i32::MAX && #[trigger] name_of(c, r) == v && !entries_map(
            s,
        ).contains_key((c as int, r as int))
}

/// Whether a formula among the first `n` cells reads the name `v`.
pub open spec fn ref_by_upto(s: Seq<GridEntry>, n: int, v: Seq<char>) -> bool {
    exists|i: int|
        0 <= i < n && (#[trigger] s[i]).cell@.is_formula && read_vars_of(
            formula_body(s[i].cell@.raw),
        ).contains(v)
}

/// The evaluation context of one tick: every present cell at a nameable
/// coordinate under its name, and integer zero for every absent
/// coordinate that some formula references — an empty cell reads as zero.
pub open spec fn tick_ctx(s: Seq<GridEntry>) -> Map<Seq<char>, ValView> {
    Map::new(
        |v: Seq<char>|
            snapshot_of(s).contains_key(v) || (absent_coord_name(s, v) && ref_by_upto(
                s,
                s.len() as int,
                v,
            )),
        |v: Seq<char>|
            if snapshot_of(s).contains_key(v) {
                snapshot_of(s)[v]
            } else {
                ValView::Int(0)
            },
    )
}

/// The context part way through the zero-default pass: zeros stand for the
/// absent names read by the first `n` cells and by the first `j` listed
/// variables of the next one.
spec fn ctx_mid(s: Seq<GridEntry>, n: int, vs: Seq<Seq<char>>, j: int) -> Map<Seq<char>, ValView> {
    Map::new(
        |v: Seq<char>|
            snapshot_of(s).contains_key(v) || (absent_coord_name(s, v) && (ref_by_upto(s, n, v)
                || vs.take(j).contains(v))),
        |v: Seq<char>|
            if snapshot_of(s).contains_key(v) {
                snapshot_of(s)[v]
            } else {
                ValView::Int(0)
            },
    )
}

/// An absent coordinate's name never appears in the snapshot: the
/// snapshot names exactly the present cells.
proof fn lemma_absent_not_in_snapshot(s: Seq<GridEntry>, v: Seq<char>)
    requires
        entries_uniq(s),
        absent_coord_name(s, v),
    ensures
        !snapshot_of(s).contains_key(v),
{
    if snapshot_of(s).contains_key(v) {
        lemma_snapshot_contains(s, v);
        let i = choose|i: int|
            0 <= i < s.len() && (#[trigger] s[i]).col >= 0 && s[i].row >= 0 && name_of(
                s[i].col as nat,
                s[i].row as nat,
            ) == v;
        let (c, r) = choose|c: nat, r: nat|
            c <= i32::MAX && r <= i32::MAX && #[trigger] name_of(c, r) == v && !entries_map(
                s,
            ).contains_key((c as int, r as int));
        lemma_name_of_injective(c, r, s[i].col as nat, s[i].row as nat);
        lemma_entries_map_contains(s, (c as int, r as int));
        assert(entry_key(s[i]) == (c as int, r as int));
    }
}

/// Extend a snapshot context with the zero default of every absent
/// coordinate that a formula of the grid references, completing the
/// evaluation context of one tick.
pub fn add_zero_defaults(grid: &GridState, ctx: &mut EvalContext)
    requires
        grid.wf(),
        ctx_entries(*old(ctx)) == snapshot_of(grid.entries()),
    ensures
        ctx_entries(*final(ctx)) == tick_ctx(grid.entries()),
{
    let ghost s = grid.cells@;
    let n = grid.cells.len();
    proof {
        assert(ctx_entries(*ctx) =~= ctx_mid(s, 0, Seq::empty(), 0));
    }
    let mut i: usize = 0;
    while i < n
        invariant
            0 <= i <= n,
            n == grid.cells@.len(),
            grid.wf(),
            s == grid.cells@,
            ctx_entries(*ctx) == ctx_mid(s, i as int, Seq::empty(), 0),
        decreases n - i,
    {
        let is_f = grid.cells[i].cell.is_formula;
        if is_f {
            let expr = formula_body_of(grid.cells[i].cell.raw.as_str());
            let names = read_variable_names(expr.as_str());
            let ghost vs = names.deep_view();
            proof {
                assert(vs == read_vars_of(formula_body(s[i as int].cell@.raw)));
                assert(ctx_entries(*ctx) =~= ctx_mid(s, i as int, vs, 0));
            }
            let m = names.len();
            let mut j: usize = 0;
            while j < m
                invariant
                    0 <= j <= m,
                    m == names@.len(),
                    grid.wf(),
                    s == grid.cells@,
                    0 <= i < n,
                    n == s.len(),
                    vs == names.deep_view(),
                    vs == read_vars_of(formula_body(s[i as int].cell@.raw)),
                    s[i as int].cell@.is_formula,
                    ctx_entries(*ctx) == ctx_mid(s, i as int, vs, j as int),
                decreases m - j,
            {
                let v = &names[j];
                let ghost vv = vs[j as int];
                proof {
                    assert(vv == names@[j as int].deep_view());
                    assert(v@ == vv);
                    lemma_parse_name_nonneg(v@);
                }
                let mut bind = false;
                match name_to_coord(v.as_str()) {
                    Some((c, r)) => {
                        let nm = coord_to_name(c, r);
                        if nm == *v {
                            if grid.get_cell(c, r).is_none() {
                                proof {
                                    assert(name_of(c as nat, r as nat) == vv);
                                    assert(absent_coord_name(s, vv));
                                    lemma_absent_not_in_snapshot(s, vv);
                                }
                                bind = true;
                                let zero = CellValue::Int(0);
                                ctx_set(ctx, nm, &zero);
                            } else {
                                proof {
                                    if absent_coord_name(s, vv) {
                                        let (c2, r2) = choose|c2: nat, r2: nat|
                                            c2 <= i32::MAX && r2 <= i32::MAX && #[trigger] name_of(
                                                c2,
                                                r2,
                                            ) == vv && !entries_map(s).contains_key(
                                                (c2 as int, r2 as int),
                                            );
                                        lemma_name_round_trip(c2, r2);
                                        assert(name_of(c as nat, r as nat) == vv);
                                        lemma_name_of_injective(c2, r2, c as nat, r as nat);
                                        assert(false);
                                    }
                                }
                            }
                        } else {
                            proof {
                                if absent_coord_name(s, vv) {
                                    let (c2, r2) = choose|c2: nat, r2: nat|
                                        c2 <= i32::MAX && r2 <= i32::MAX && #[trigger] name_of(
                                            c2,
                                            r2,
                                        ) == vv && !entries_map(s).contains_key(
                                            (c2 as int, r2 as int),
                                        );
                                    lemma_name_round_trip(c2, r2);
                                    assert(c2 == c as nat && r2 == r as nat);
                                    assert(nm@ == name_of(c as nat, r as nat));
                                    assert(false);
                                }
                            }
                        }
                    },
                    None => {
                        proof {
                            if absent_coord_name(s, vv) {
                                let (c2, r2) = choose|c2: nat, r2: nat|
                                    c2 <= i32::MAX && r2 <= i32::MAX && #[trigger] name_of(
                                        c2,
                                        r2,
                                    ) == vv && !entries_map(s).contains_key(
                                        (c2 as int, r2 as int),
                                    );
                                lemma_name_round_trip(c2, r2);
                                assert(false);
                            }
                        }
                    },
                }
                proof {
                    assert forall|w: Seq<char>|
                        #[trigger] vs.take(j + 1).contains(w) <==> (vs.take(j as int).contains(w)
                            || w == vv) by {
                        if vs.take(j + 1).contains(w) {
                            let idx = choose|idx: int|
                                0 <= idx < j + 1 && #[trigger] vs.take(j + 1)[idx] == w;
                            if idx < j {
                                assert(vs.take(j as int)[idx] == w);
                            }
                        }
                        if vs.take(j as int).contains(w) {
                            let idx = choose|idx: int|
                                0 <= idx < j && #[trigger] vs.take(j as int)[idx] == w;
                            assert(vs.take(j + 1)[idx] == w);
                        }
                        if w == vv {
                            assert(vs.take(j + 1)[j as int] == w);
                        }
                    }
                    if bind {
                        assert(ctx_entries(*ctx) =~= ctx_mid(s, i as int, vs, j + 1));
                    } else {
                        assert(!absent_coord_name(s, vv));
                        assert(ctx_entries(*ctx) =~= ctx_mid(s, i as int, vs, j + 1));
                    }
                }
                j = j + 1;
            }
            proof {
                assert(vs.take(m as int) =~= vs);
                assert forall|w: Seq<char>|
                    ref_by_upto(s, i + 1, w) <==> (ref_by_upto(s, i as int, w) || vs.contains(
                        w,
                    )) by {
                    if ref_by_upto(s, i + 1, w) {
                        let idx = choose|idx: int|
                            0 <= idx < i + 1 && (#[trigger] s[idx]).cell@.is_formula
                                && read_vars_of(formula_body(s[idx].cell@.raw)).contains(w);
                        if idx < i {
                            assert(ref_by_upto(s, i as int, w));
                        }
                    }
                    if ref_by_upto(s, i as int, w) {
                        let idx = choose|idx: int|
                            0 <= idx < i && (#[trigger] s[idx]).cell@.is_formula && read_vars_of(
                                formula_body(s[idx].cell@.raw),
                            ).contains(w);
                        assert((s[idx]).cell@.is_formula && read_vars_of(
                            formula_body(s[idx].cell@.raw),
                        ).contains(w));
                    }
                    if vs.contains(w) {
                        assert((s[i as int]).cell@.is_formula && read_vars_of(
                            formula_body(s[i as int].cell@.raw),
                        ).contains(w));
                    }
                }
                assert(ctx_entries(*ctx) =~= ctx_mid(s, i + 1, Seq::empty(), 0));
            }
        } else {
            proof {
                assert forall|w: Seq<char>|
                    ref_by_upto(s, i + 1, w) <==> ref_by_upto(s, i as int, w) by {
                    if ref_by_upto(s, i + 1, w) {
                        let idx = choose|idx: int|
                            0 <= idx < i + 1 && (#[trigger] s[idx]).cell@.is_formula
                                && read_vars_of(formula_body(s[idx].cell@.raw)).contains(w);
                        assert(idx < i);
                    }
                    if ref_by_upto(s, i as int, w) {
                        let idx = choose|idx: int|
                            0 <= idx < i && (#[trigger] s[idx]).cell@.is_formula && read_vars_of(
                                formula_body(s[idx].cell@.raw),
                            ).contains(w);
                        assert((s[idx]).cell@.is_formula && read_vars_of(
                            formula_body(s[idx].cell@.raw),
                        ).contains(w));
                    }
                }
                assert(ctx_entries(*ctx) =~= ctx_mid(s, i + 1, Seq::empty(), 0));
            }
        }
        i = i + 1;
    }
    proof {
        assert(ctx_mid(s, n as int, Seq::empty(), 0) =~= tick_ctx(s));
    }
}

} // verus!
