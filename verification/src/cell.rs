//! A single spreadsheet cell: source text, the typed value derived from it,
//! and the flags the evaluation engine maintains.

use vstd::prelude::*;

use crate::text::{
    first_non_eq_from, first_non_ws_from, is_ws, lemma_first_non_ws_from,
    trim_bounds, trim_spec,
};

verus! {

/// Mathematical model of a cell value.
pub ghost enum ValView {
    Int(int),
    Float(Seq<char>),
    Text(Seq<char>),
    Bool(bool),
    Empty,
}

/// The typed result of evaluating a cell: an integer, a floating-point
/// number carried as its decimal text, a text, a boolean, or nothing.
#[derive(Debug, Clone)]
pub enum CellValue {
    Int(i64),
    Float(String),
    Text(String),
    Bool(bool),
    Empty,
}

impl View for CellValue {
    type V = ValView;

    open spec fn view(&self) -> ValView {
        match self {
            CellValue::Int(i) => ValView::Int(*i as int),
            CellValue::Float(s) => ValView::Float(s@),
            CellValue::Text(s) => ValView::Text(s@),
            CellValue::Bool(b) => ValView::Bool(*b),
            CellValue::Empty => ValView::Empty,
        }
    }
}

impl PartialEq for CellValue {
    fn eq(&self, other: &Self) -> (r: bool) {
        match (self, other) {
            (CellValue::Int(a), CellValue::Int(b)) => *a == *b,
            (CellValue::Float(a), CellValue::Float(b)) => *a == *b,
            (CellValue::Text(a), CellValue::Text(b)) => *a == *b,
            (CellValue::Bool(a), CellValue::Bool(b)) => *a == *b,
            (CellValue::Empty, CellValue::Empty) => true,
            _ => false,
        }
    }
}

impl Eq for CellValue {

}

impl vstd::std_specs::cmp::PartialEqSpecImpl for CellValue {
    open spec fn obeys_eq_spec() -> bool {
        true
    }

    open spec fn eq_spec(&self, other: &CellValue) -> bool {
        self@ == other@
    }
}

/// The decimal text of the floating-point number `str::parse::<f64>` reads
/// from `s`, if it reads one; a function of the characters alone.
pub uninterp spec fn float_text_of(s: Seq<char>) -> Option<Seq<char>>;

/// A value in the form the library's own evaluation produces: a float is
/// carried as the canonical (shortest round-trip) text of its number, the
/// one spelling that reads back as itself.
pub open spec fn canonical_value(v: ValView) -> bool {
    v matches ValView::Float(t) ==> float_text_of(t) == Some(t)
}

/// Relies on `str::parse::<f64>` and on the exact shortest formatting of
/// the parsed number; both depend on the characters alone, and formatting
/// a parsed number yields a text that reads back as itself.
#[verifier::external_body]
pub(crate) fn parse_float_text(s: &str) -> (r: Option<String>)
    ensures
        match r {
            Some(t) => float_text_of(s@) == Some(t@) && float_text_of(t@) == Some(t@),
            None => float_text_of(s@) is None,
        },
{
    match s.parse().map(evalexpr::Value::<evalexpr::DefaultNumericTypes>::Float) {
        Ok(evalexpr::Value::Float(f)) => Some(format!("{:?}", f)),
        _ => None,
    }
}

/// Mathematical model of a cell.
pub ghost struct CellView {
    pub raw: Seq<char>,
    pub value: ValView,
    pub is_formula: bool,
    pub error: bool,
    pub content_hash: Option<u64>,
}

/// True iff the text, after leading white space, begins with `'='`.
pub open spec fn is_formula_text(s: Seq<char>) -> bool {
    first_non_ws_from(s, 0) < s.len() && s[first_non_ws_from(s, 0)] == '='
}

/// The expression a formula cell hands to the evaluator: the text after the
/// leading white space and the run of `'='` signs, trimmed on both sides.
pub open spec fn formula_body(s: Seq<char>) -> Seq<char> {
    trim_spec(s.subrange(first_non_eq_from(s, first_non_ws_from(s, 0)), s.len() as int))
}

/// Runtime check matching `is_formula_text`.
pub fn text_is_formula(s: &str) -> (r: bool)
    ensures
        r == is_formula_text(s@),
{
    let n: usize = s.unicode_len();
    let mut b: usize = 0;
    while b < n && is_ws(s.get_char(b))
        invariant
            0 <= b <= n,
            n == s@.len(),
            first_non_ws_from(s@, 0) == first_non_ws_from(s@, b as int),
        decreases n - b,
    {
        b = b + 1;
    }
    proof {
        lemma_first_non_ws_from(s@, b as int);
    }
    b < n && s.get_char(b) == '='
}

/// The expression text of a formula cell, as `formula_body` describes it:
/// the leading white space and the run of `'='` signs stripped, the
/// remainder trimmed on both sides.
pub fn formula_body_of(s: &str) -> (r: String)
    ensures
        r@ == formula_body(s@),
{
    let n: usize = s.unicode_len();
    let mut b: usize = 0;
    while b < n && is_ws(s.get_char(b))
        invariant
            0 <= b <= n,
            n == s@.len(),
            first_non_ws_from(s@, 0) == first_non_ws_from(s@, b as int),
        decreases n - b,
    {
        b = b + 1;
    }
    proof {
        lemma_first_non_ws_from(s@, b as int);
        assert(first_non_ws_from(s@, 0) == b);
    }
    let ghost w = b as int;
    while b < n && s.get_char(b) == '='
        invariant
            w <= b <= n,
            n == s@.len(),
            first_non_eq_from(s@, w) == first_non_eq_from(s@, b as int),
        decreases n - b,
    {
        b = b + 1;
    }
    proof {
        assert(first_non_eq_from(s@, b as int) == b);
    }
    let rest = s.substring_char(b, n);
    let (tb, te) = trim_bounds(rest);
    let out = rest.substring_char(tb, te);
    proof {
        assert(rest@ == s@.subrange(
            first_non_eq_from(s@, first_non_ws_from(s@, 0)),
            s@.len() as int,
        ));
        assert(out@ == trim_spec(rest@));
    }
    out.to_owned()
}

/// One grid entry: source text, the value most recently computed for it,
/// the flags the engine maintains, and the digest of any rich content.
#[derive(Debug, Clone)]
pub struct Cell {
    /// The raw source text: `"= A0 + B0"` or `"100"`.
    pub raw: String,
    /// The computed result.
    pub value: CellValue,
    /// True iff the content, after leading white space, starts with `'='`.
    pub is_formula: bool,
    /// True iff the most recent evaluation of this cell failed.
    pub error: bool,
    /// Digest of the cell's rich content, used as the render cache key.
    pub content_hash: Option<u64>,
}

impl View for Cell {
    type V = CellView;

    open spec fn view(&self) -> CellView {
        CellView {
            raw: self.raw@,
            value: self.value@,
            is_formula: self.is_formula,
            error: self.error,
            content_hash: self.content_hash,
        }
    }
}

/// The formula flag is never settable on its own: it always agrees with
/// the current source text.
pub open spec fn cell_wf(c: CellView) -> bool {
    c.is_formula == is_formula_text(c.raw)
}

impl Cell {
    /// Create a new cell from raw text.
    pub fn new(raw: String) -> (c: Cell)
        ensures
            c@.raw == raw@,
            c@.value == ValView::Int(0),
            c@.is_formula == is_formula_text(raw@),
            c@.error == false,
            c@.content_hash is None,
            cell_wf(c@),
    {
        let is_formula = text_is_formula(raw.as_str());
        Cell { raw, value: CellValue::Int(0), is_formula, error: false, content_hash: None }
    }

    /// Update the raw text, rederive the formula flag, and clear the error;
    /// the computed value and the content digest are left alone.
    pub fn set_raw(&mut self, raw: String)
        ensures
            final(self)@.raw == raw@,
            final(self)@.is_formula == is_formula_text(raw@),
            final(self)@.error == false,
            final(self)@.value == old(self)@.value,
            final(self)@.content_hash == old(self)@.content_hash,
            cell_wf(final(self)@),
    {
        self.is_formula = text_is_formula(raw.as_str());
        self.raw = raw;
        self.error = false;
    }
}

impl Default for Cell {
    /// The empty cell: no text, integer zero, no flags, no rich content.
    fn default() -> (c: Cell)
        ensures
            c@.raw == Seq::<char>::empty(),
            c@.value == ValView::Int(0),
            c@.is_formula == false,
            c@.error == false,
            c@.content_hash is None,
            cell_wf(c@),
    {
        Cell {
            raw: String::new(),
            value: CellValue::Int(0),
            is_formula: false,
            error: false,
            content_hash: None,
        }
    }
}

} // verus!
