//! Demo data showcasing the formula evaluation system: a self-incrementing
//! counter, a blinker pair, an accumulator, a Fibonacci-style column, one
//! row of digits, and two cells with rich content.

use vstd::prelude::*;

use crate::cell::{is_formula_text, CellView, ValView};
use crate::grid_state::GridState;
use crate::svg_renderer::{content_digest, content_hash_of};
use vstd::string::StringSliceAdditionalSpecFns;

verus! {

/// What the demo leaves in one cell: the text, the derived formula flag,
/// no error, and the value the coordinate carried before — integer zero
/// where the coordinate was empty.
pub open spec fn demo_cell_ok(
    old_m: Map<(int, int), CellView>,
    m: Map<(int, int), CellView>,
    c: int,
    r: int,
    raw: Seq<char>,
) -> bool {
    &&& m.contains_key((c, r))
    &&& m[(c, r)].raw == raw
    &&& m[(c, r)].is_formula == is_formula_text(raw)
    &&& m[(c, r)].error == false
    &&& m[(c, r)].value == if old_m.contains_key((c, r)) {
        old_m[(c, r)].value
    } else {
        ValView::Int(0)
    }
}

/// The coordinates the demo writes.
pub open spec fn demo_coord(k: (int, int)) -> bool {
    ||| k == (0int, 0int)
    ||| k == (1int, 0int)
    ||| k == (1int, 1int)
    ||| k == (2int, 0int)
    ||| k == (2int, 1int)
    ||| k == (2int, 2int)
    ||| k == (3int, 0int)
    ||| k == (3int, 1int)
    ||| k == (3int, 2int)
    ||| k == (3int, 3int)
    ||| k == (3int, 4int)
    ||| k == (0int, 5int)
    ||| k == (1int, 5int)
    ||| k == (2int, 5int)
    ||| k == (3int, 5int)
    ||| k == (4int, 5int)
    ||| k == (0int, 6int)
    ||| k == (1int, 6int)
    ||| k == (2int, 6int)
    ||| k == (3int, 6int)
    ||| k == (0int, 2int)
    ||| k == (1int, 2int)
    ||| k == (4int, 6int)
}

/// Initialize the grid with demo data: the counter at A0, the blinker at
/// B0 and B1, the accumulator in column C, the Fibonacci-style column D,
/// the digits 0 through 9 across rows 5 and 6, and two rich-content cells
/// at A2 and B2 carrying their content digests.
pub fn setup_demo_data(grid: &mut GridState)
    requires
        old(grid).wf(),
    ensures
        final(grid).wf(),
        final(grid).selected_keys() == old(grid).selected_keys(),
        demo_cell_ok(old(grid).as_map(), final(grid).as_map(), 0, 0, "= A0 + 1"@),
        demo_cell_ok(old(grid).as_map(), final(grid).as_map(), 1, 0, "= A0 % 2"@),
        demo_cell_ok(old(grid).as_map(), final(grid).as_map(), 1, 1, "= (A0 + 1) % 2"@),
        demo_cell_ok(old(grid).as_map(), final(grid).as_map(), 2, 0, "10"@),
        demo_cell_ok(old(grid).as_map(), final(grid).as_map(), 2, 1, "20"@),
        demo_cell_ok(old(grid).as_map(), final(grid).as_map(), 2, 2, "= C0 + C1"@),
        demo_cell_ok(old(grid).as_map(), final(grid).as_map(), 3, 0, "1"@),
        demo_cell_ok(old(grid).as_map(), final(grid).as_map(), 3, 1, "1"@),
        demo_cell_ok(old(grid).as_map(), final(grid).as_map(), 3, 2, "= D0 + D1"@),
        demo_cell_ok(old(grid).as_map(), final(grid).as_map(), 3, 3, "= D1 + D2"@),
        demo_cell_ok(old(grid).as_map(), final(grid).as_map(), 3, 4, "= D2 + D3"@),
        demo_cell_ok(old(grid).as_map(), final(grid).as_map(), 0, 5, "0"@),
        demo_cell_ok(old(grid).as_map(), final(grid).as_map(), 1, 5, "1"@),
        demo_cell_ok(old(grid).as_map(), final(grid).as_map(), 2, 5, "2"@),
        demo_cell_ok(old(grid).as_map(), final(grid).as_map(), 3, 5, "3"@),
        demo_cell_ok(old(grid).as_map(), final(grid).as_map(), 4, 5, "4"@),
        demo_cell_ok(old(grid).as_map(), final(grid).as_map(), 0, 6, "5"@),
        demo_cell_ok(old(grid).as_map(), final(grid).as_map(), 1, 6, "6"@),
        demo_cell_ok(old(grid).as_map(), final(grid).as_map(), 2, 6, "7"@),
        demo_cell_ok(old(grid).as_map(), final(grid).as_map(), 3, 6, "8"@),
        demo_cell_ok(old(grid).as_map(), final(grid).as_map(), 4, 6, "9"@),
        demo_cell_ok(old(grid).as_map(), final(grid).as_map(), 0, 2, Seq::empty()),
        demo_cell_ok(old(grid).as_map(), final(grid).as_map(), 1, 2, Seq::empty()),
        final(grid).as_map()[(0int, 2int)].content_hash == Some(
            content_digest(
                r##"<svg xmlns="http://www.w3.org/2000/svg" width="80" height="30"><rect width="80" height="30" fill="#e0f7fa"/><text x="5" y="20" font-family="sans-serif" font-size="12" fill="#006064">Status: OK</text></svg>"##.spec_bytes(),
            ),
        ),
        final(grid).as_map()[(1int, 2int)].content_hash == Some(
            content_digest(
                r##"<svg xmlns="http://www.w3.org/2000/svg" width="80" height="30"><circle cx="15" cy="15" r="8" fill="#4caf50"/><text x="30" y="20" font-family="sans-serif" font-size="12" fill="#333">Active</text></svg>"##.spec_bytes(),
            ),
        ),
        forall|k: (int, int)|
            #[trigger] final(grid).as_map().contains_key(k) <==> (old(
                grid,
            ).as_map().contains_key(k) || demo_coord(k)),
        forall|k: (int, int)|
            !demo_coord(k) && old(grid).as_map().contains_key(k)
                ==> #[trigger] final(grid).as_map()[k] == old(grid).as_map()[k],
{
    // Counter: A0 increments itself each tick.
    grid.set_raw_at(0, 0, "= A0 + 1".to_owned());
    // Blinker: B0 and B1 oscillate based on the counter.
    grid.set_raw_at(1, 0, "= A0 % 2".to_owned());
    grid.set_raw_at(1, 1, "= (A0 + 1) % 2".to_owned());
    // Accumulator: literal values and their sum.
    grid.set_raw_at(2, 0, "10".to_owned());
    grid.set_raw_at(2, 1, "20".to_owned());
    grid.set_raw_at(2, 2, "= C0 + C1".to_owned());
    // Fibonacci-like sequence down column D.
    grid.set_raw_at(3, 0, "1".to_owned());
    grid.set_raw_at(3, 1, "1".to_owned());
    grid.set_raw_at(3, 2, "= D0 + D1".to_owned());
    grid.set_raw_at(3, 3, "= D1 + D2".to_owned());
    grid.set_raw_at(3, 4, "= D2 + D3".to_owned());
    // The digits 0 to 9 across rows 5 and 6.
    grid.set_raw_at(0, 5, "0".to_owned());
    grid.set_raw_at(1, 5, "1".to_owned());
    grid.set_raw_at(2, 5, "2".to_owned());
    grid.set_raw_at(3, 5, "3".to_owned());
    grid.set_raw_at(4, 5, "4".to_owned());
    grid.set_raw_at(0, 6, "5".to_owned());
    grid.set_raw_at(1, 6, "6".to_owned());
    grid.set_raw_at(2, 6, "7".to_owned());
    grid.set_raw_at(3, 6, "8".to_owned());
    grid.set_raw_at(4, 6, "9".to_owned());
    // Rich content: two cells whose visual payload the render cache serves.
    let status_svg =
        r##"<svg xmlns="http://www.w3.org/2000/svg" width="80" height="30"><rect width="80" height="30" fill="#e0f7fa"/><text x="5" y="20" font-family="sans-serif" font-size="12" fill="#006064">Status: OK</text></svg>"##;
    let active_svg =
        r##"<svg xmlns="http://www.w3.org/2000/svg" width="80" height="30"><circle cx="15" cy="15" r="8" fill="#4caf50"/><text x="30" y="20" font-family="sans-serif" font-size="12" fill="#333">Active</text></svg>"##;
    grid.set_raw_at(0, 2, String::new());
    let h0 = content_hash_of(status_svg);
    grid.set_content_hash_at(0, 2, Some(h0));
    grid.set_raw_at(1, 2, String::new());
    let h1 = content_hash_of(active_svg);
    grid.set_content_hash_at(1, 2, Some(h1));
}

} // verus!
