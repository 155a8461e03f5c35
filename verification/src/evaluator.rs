//! The tick-driven evaluation engine: when a tick fires, every cell is
//! rederived from one context built at the start of the tick — each cell
//! of the grid under its coordinate name, and integer zero for empty
//! coordinates a formula references — so cells observe each other's
//! values as of the previous tick.

use vstd::prelude::*;

use crate::cell::{
    canonical_value, float_text_of, formula_body, formula_body_of, parse_float_text, CellValue,
    CellView, ValView,
};
use crate::formula::{
    add_zero_defaults, build_context, ctx_entries, eval_may, evaluate_formula, tick_ctx,
};
use crate::grid_state::{entries_values_canonical, entry_key, GridEntry, GridState};
use crate::text::{int_literal, parse_i64, trim_bounds, trim_spec};

verus! {

/// Controls tick-based evaluation.
pub struct TickControl {
    /// When true, formulas evaluate on a recurring timer.
    pub auto_tick_enabled: bool,
    /// When true, trigger one immediate evaluation and reset to false.
    pub manual_tick_requested: bool,
}

impl Default for TickControl {
    /// Both triggers start off.
    fn default() -> (t: TickControl)
        ensures
            !t.auto_tick_enabled,
            !t.manual_tick_requested,
    {
        TickControl { auto_tick_enabled: false, manual_tick_requested: false }
    }
}

/// The recurring timer that drives automatic evaluation.
pub struct EvaluationTimer {
    /// Fixed period between automatic ticks, in milliseconds.
    pub period_ms: u64,
    /// Time accumulated since the last firing, in milliseconds.
    pub elapsed_ms: u64,
}

impl EvaluationTimer {
    /// The period is positive and small enough to add without overflow,
    /// and the accumulator stays below it.
    pub open spec fn wf(self) -> bool {
        0 < self.period_ms <= 0x7fff_ffff_ffff_ffff && self.elapsed_ms < self.period_ms
    }

    /// Advance the timer and report whether it fired; on firing the
    /// accumulator keeps the remainder, as a repeating timer does.
    pub fn tick(&mut self, delta_ms: u64) -> (fired: bool)
        requires
            old(self).wf(),
        ensures
            final(self).wf(),
            final(self).period_ms == old(self).period_ms,
            fired == (old(self).elapsed_ms + delta_ms >= old(self).period_ms),
            final(self).elapsed_ms as int == (old(self).elapsed_ms + delta_ms) % (
            old(self).period_ms as int),
    {
        let p = self.period_ms;
        let d = delta_ms % p;
        let fired = delta_ms >= p - self.elapsed_ms;
        let s = self.elapsed_ms + d;
        let e2 = if s >= p {
            s - p
        } else {
            s
        };
        proof {
            let e0 = self.elapsed_ms as int;
            let dl = delta_ms as int;
            let pp = p as int;
            assert((e0 + dl) % pp == e2 as int) by (nonlinear_arith)
                requires
                    0 < pp,
                    0 <= e0 < pp,
                    0 <= dl,
                    d == dl % pp,
                    s == e0 + d,
                    e2 == if s >= pp {
                        s - pp
                    } else {
                        s as int
                    },
            ;
        }
        self.elapsed_ms = e2;
        fired
    }
}

impl Default for EvaluationTimer {
    /// A repeating 100 ms timer, not yet advanced.
    fn default() -> (t: EvaluationTimer)
        ensures
            t.period_ms == 100,
            t.elapsed_ms == 0,
            t.wf(),
    {
        EvaluationTimer { period_ms: 100, elapsed_ms: 0 }
    }
}

/// The value a literal cell takes: its text read as an integer first, as a
/// floating-point number second, and kept as plain text otherwise.
pub open spec fn literal_value_of(raw: Seq<char>) -> ValView {
    let t = trim_spec(raw);
    match int_literal(t) {
        Some(v) => ValView::Int(v),
        None => match float_text_of(t) {
            Some(fs) => ValView::Float(fs),
            None => ValView::Text(raw),
        },
    }
}

/// Evaluate a literal cell's text along the integer, float, text fallback
/// chain; a float comes out in its canonical spelling.
pub fn literal_value(raw: &String) -> (v: CellValue)
    ensures
        v@ == literal_value_of(raw@),
        canonical_value(v@),
{
    let (b, e) = trim_bounds(raw.as_str());
    let t = raw.as_str().substring_char(b, e);
    match parse_i64(t) {
        Some(i) => CellValue::Int(i),
        None => match parse_float_text(t) {
            Some(fs) => CellValue::Float(fs),
            None => CellValue::Text(raw.clone()),
        },
    }
}

/// Whether one tick may leave a cell with this value and error flag,
/// given the evaluation context of the tick: a formula cell takes an
/// answer the evaluator may give, or integer zero and the error flag when
/// it may fail; a literal cell takes exactly its text's value, never an
/// error.
pub open spec fn tick_outcome_ok(
    c: CellView,
    vars: Map<Seq<char>, ValView>,
    value: ValView,
    error: bool,
) -> bool {
    if c.is_formula {
        (!error && eval_may(formula_body(c.raw), vars, Some(value))) || (error && value
            == ValView::Int(0) && eval_may(formula_body(c.raw), vars, None))
    } else {
        value == literal_value_of(c.raw) && !error
    }
}

/// How one entry of the grid changes in one tick: coordinates, text,
/// formula flag and content digest stay; value and error are rederived
/// from the start-of-tick context alone — the old grid's cells under
/// their names, and zero for referenced empty coordinates.
pub open spec fn tick_cell_rel(old_s: Seq<GridEntry>, new_s: Seq<GridEntry>, i: int) -> bool {
    let oe = old_s[i];
    let ne = new_s[i];
    &&& ne.col == oe.col
    &&& ne.row == oe.row
    &&& ne.cell@.raw == oe.cell@.raw
    &&& ne.cell@.is_formula == oe.cell@.is_formula
    &&& ne.cell@.content_hash == oe.cell@.content_hash
    &&& canonical_value(ne.cell@.value)
    &&& tick_outcome_ok(oe.cell@, tick_ctx(old_s), ne.cell@.value, ne.cell@.error)
}

/// One full pass over the grid: every cell rederived from the one snapshot.
pub open spec fn tick_rel(old_s: Seq<GridEntry>, new_s: Seq<GridEntry>) -> bool {
    &&& new_s.len() == old_s.len()
    &&& forall|i: int| 0 <= i < old_s.len() ==> #[trigger] tick_cell_rel(old_s, new_s, i)
}

/// Evaluate every cell of the grid once, against one context built from
/// the grid's state at the call: every present cell under its name, and
/// zero for each empty coordinate a formula references. A formula cell
/// gets the evaluator's result, or integer zero and the error flag when
/// evaluation fails; a literal cell gets its text's value and never an
/// error. No cell's update is visible to any other cell within the same
/// tick.
pub fn evaluate_tick(grid: &mut GridState)
    requires
        old(grid).wf(),
        old(grid).values_canonical(),
    ensures
        final(grid).wf(),
        final(grid).values_canonical(),
        final(grid).selected_keys() == old(grid).selected_keys(),
        tick_rel(old(grid).entries(), final(grid).entries()),
{
    let mut ctx = build_context(grid);
    add_zero_defaults(grid, &mut ctx);
    let ghost s0 = grid.cells@;
    let ghost sel0 = grid.selected@;
    let n = grid.cells.len();
    let mut i: usize = 0;
    while i < n
        invariant
            0 <= i <= n,
            n == grid.cells@.len(),
            n == s0.len(),
            grid.selected@ == sel0,
            ctx_entries(ctx) == tick_ctx(s0),
            forall|j: int| i <= j < n ==> grid.cells@[j] == s0[j],
            forall|j: int| 0 <= j < i ==> #[trigger] tick_cell_rel(s0, grid.cells@, j),
        decreases n - i,
    {
        let is_f = grid.cells[i].cell.is_formula;
        let (nv, ne): (CellValue, bool) = if is_f {
            let expr = formula_body_of(grid.cells[i].cell.raw.as_str());
            match evaluate_formula(expr.as_str(), &ctx) {
                Ok(v) => (v, false),
                Err(_) => (CellValue::Int(0), true),
            }
        } else {
            (literal_value(&grid.cells[i].cell.raw), false)
        };
        let ghost before = grid.cells@;
        let e = &mut grid.cells[i];
        e.cell.value = nv;
        e.cell.error = ne;
        proof {
            let j0 = i as int;
            assert(grid.cells@ == before.update(j0, grid.cells@[j0]));
            assert(before[j0] == s0[j0]);
            assert(grid.cells@[j0].cell.value == nv);
            assert(grid.cells@[j0].cell.error == ne);
            assert(tick_outcome_ok(s0[j0].cell@, tick_ctx(s0), nv@, ne));
            assert(tick_cell_rel(s0, grid.cells@, j0));
            assert forall|j: int| 0 <= j < j0 implies #[trigger] tick_cell_rel(
                s0,
                grid.cells@,
                j,
            ) by {
                assert(tick_cell_rel(s0, before, j));
                assert(grid.cells@[j] == before[j]);
            }
        }
        i = i + 1;
    }
    proof {
        assert forall|p: int, q: int|
            0 <= p < q < n implies entry_key(#[trigger] grid.cells@[p]) != entry_key(
            #[trigger] grid.cells@[q],
        ) by {
            assert(tick_cell_rel(s0, grid.cells@, p));
            assert(tick_cell_rel(s0, grid.cells@, q));
            assert(entry_key(grid.cells@[p]) == entry_key(s0[p]));
            assert(entry_key(grid.cells@[q]) == entry_key(s0[q]));
        }
        assert forall|p: int|
            0 <= p < n implies canonical_value((#[trigger] grid.cells@[p]).cell@.value) by {
            assert(tick_cell_rel(s0, grid.cells@, p));
        }
    }
}

/// Tick-based formula evaluation: run at most one full pass, when either
/// the manual trigger is set (consuming it, without advancing the timer)
/// or auto mode is on and the timer fires for the elapsed time. A manual
/// trigger and a timer firing in the same call produce one pass, not two.
pub fn tick_evaluation_system(
    control: &mut TickControl,
    timer: &mut EvaluationTimer,
    delta_ms: u64,
    grid: &mut GridState,
)
    requires
        old(grid).wf(),
        old(grid).values_canonical(),
        old(timer).wf(),
    ensures
        final(grid).wf(),
        final(grid).values_canonical(),
        final(timer).wf(),
        final(control).auto_tick_enabled == old(control).auto_tick_enabled,
        final(grid).selected_keys() == old(grid).selected_keys(),
        old(control).manual_tick_requested ==> {
            &&& !final(control).manual_tick_requested
            &&& *final(timer) == *old(timer)
            &&& tick_rel(old(grid).entries(), final(grid).entries())
        },
        !old(control).manual_tick_requested && old(control).auto_tick_enabled ==> {
            &&& final(control).manual_tick_requested == old(control).manual_tick_requested
            &&& final(timer).period_ms == old(timer).period_ms
            &&& final(timer).elapsed_ms as int == (old(timer).elapsed_ms + delta_ms) % (
            old(timer).period_ms as int)
            &&& (old(timer).elapsed_ms + delta_ms >= old(timer).period_ms ==> tick_rel(
                old(grid).entries(),
                final(grid).entries(),
            ))
            &&& (old(timer).elapsed_ms + delta_ms < old(timer).period_ms ==> final(grid).entries()
                == old(grid).entries())
        },
        !old(control).manual_tick_requested && !old(control).auto_tick_enabled ==> {
            &&& final(control).manual_tick_requested == old(control).manual_tick_requested
            &&& *final(timer) == *old(timer)
            &&& final(grid).entries() == old(grid).entries()
        },
{
    let should_evaluate: bool = if control.manual_tick_requested {
        control.manual_tick_requested = false;
        true
    } else if control.auto_tick_enabled {
        timer.tick(delta_ms)
    } else {
        false
    };
    if should_evaluate {
        evaluate_tick(grid);
    }
}

} // verus!
