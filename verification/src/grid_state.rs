//! The sparse grid: the single source of truth for all cell data, keyed by
//! integer coordinates, plus the view-layer selection set.

use vstd::prelude::*;

use std::collections::HashSet;

use crate::cell::{canonical_value, Cell, CellView};
use crate::gpu_cell::{flags_of, GpuCell};

verus! {

broadcast use vstd::std_specs::hash::group_hash_axioms;

/// The two coordinates packed into one word: the key type of the selection
/// and pending sets.
pub open spec fn coord_key_of(col: i32, row: i32) -> u64 {
    ((col as u32 as u64) << 32u64) | (row as u32 as u64)
}

/// Pack a coordinate pair into its set key.
pub fn coord_key(col: i32, row: i32) -> (k: u64)
    ensures
        k == coord_key_of(col, row),
{
    ((col as u32 as u64) << 32u64) | (row as u32 as u64)
}

/// Packing coordinates into one word loses nothing.
pub proof fn lemma_coord_key_injective(c1: i32, r1: i32, c2: i32, r2: i32)
    requires
        coord_key_of(c1, r1) == coord_key_of(c2, r2),
    ensures
        c1 == c2,
        r1 == r2,
{
    assert((((c1 as u32 as u64) << 32u64) | (r1 as u32 as u64)) == (((c2 as u32 as u64)
        << 32u64) | (r2 as u32 as u64)) ==> c1 == c2 && r1 == r2) by (bit_vector);
}

/// One stored cell together with its coordinates.
pub struct GridEntry {
    pub col: i32,
    pub row: i32,
    pub cell: Cell,
}

/// The coordinate key of a stored entry.
pub open spec fn entry_key(e: GridEntry) -> (int, int) {
    (e.col as int, e.row as int)
}

/// The sparse map a sequence of entries denotes; later entries would win,
/// though a well-formed grid never stores a coordinate twice.
pub open spec fn entries_map(s: Seq<GridEntry>) -> Map<(int, int), CellView>
    decreases s.len(),
{
    if s.len() == 0 {
        Map::empty()
    } else {
        entries_map(s.drop_last()).insert(entry_key(s.last()), s.last().cell@)
    }
}

/// A key is in the map exactly when some entry carries it.
pub proof fn lemma_entries_map_contains(s: Seq<GridEntry>, k: (int, int))
    ensures
        entries_map(s).contains_key(k) <==> exists|i: int|
            0 <= i < s.len() && entry_key(#[trigger] s[i]) == k,
    decreases s.len(),
{
    if s.len() > 0 {
        lemma_entries_map_contains(s.drop_last(), k);
        if entry_key(s.last()) == k {
            assert(entry_key(s[s.len() - 1]) == k);
        } else if entries_map(s.drop_last()).contains_key(k) {
            let i = choose|i: int|
                0 <= i < s.drop_last().len() && entry_key(#[trigger] s.drop_last()[i]) == k;
            assert(entry_key(s[i]) == k);
        } else if exists|i: int| 0 <= i < s.len() && entry_key(#[trigger] s[i]) == k {
            let i = choose|i: int| 0 <= i < s.len() && entry_key(#[trigger] s[i]) == k;
            assert(entry_key(s.drop_last()[i]) == k);
        }
    }
}

/// No two entries of a well-formed grid share a coordinate.
pub open spec fn entries_uniq(s: Seq<GridEntry>) -> bool {
    forall|i: int, j: int|
        0 <= i < j < s.len() ==> entry_key(#[trigger] s[i]) != entry_key(#[trigger] s[j])
}

/// In a well-formed grid, each entry is what the map holds for its key.
pub proof fn lemma_entries_map_index(s: Seq<GridEntry>, i: int)
    requires
        entries_uniq(s),
        0 <= i < s.len(),
    ensures
        entries_map(s).contains_key(entry_key(s[i])),
        entries_map(s)[entry_key(s[i])] == s[i].cell@,
    decreases s.len(),
{
    if i == s.len() - 1 {
    } else {
        assert(entries_uniq(s.drop_last())) by {
            assert(forall|p: int, q: int|
                0 <= p < q < s.len() - 1 ==> entry_key(#[trigger] s.drop_last()[p]) != entry_key(
                    #[trigger] s.drop_last()[q],
                ));
        }
        lemma_entries_map_index(s.drop_last(), i);
        assert(s.drop_last()[i] == s[i]);
        assert(entry_key(s[i]) != entry_key(s[s.len() - 1]));
    }
}

/// Replacing the cell of one entry updates just that key of the map.
pub proof fn lemma_entries_map_update(s: Seq<GridEntry>, i: int, e: GridEntry)
    requires
        entries_uniq(s),
        0 <= i < s.len(),
        entry_key(e) == entry_key(s[i]),
    ensures
        entries_map(s.update(i, e)) == entries_map(s).insert(entry_key(e), e.cell@),
    decreases s.len(),
{
    let t = s.update(i, e);
    if i == s.len() - 1 {
        assert(t.drop_last() =~= s.drop_last());
        assert(t.last() == e);
        assert(entries_map(t) == entries_map(s.drop_last()).insert(entry_key(e), e.cell@));
        assert(entries_map(s.drop_last()).insert(entry_key(e), e.cell@) =~= entries_map(
            s,
        ).insert(entry_key(e), e.cell@));
    } else {
        assert(entries_uniq(s.drop_last())) by {
            assert(forall|p: int, q: int|
                0 <= p < q < s.len() - 1 ==> entry_key(#[trigger] s.drop_last()[p]) != entry_key(
                    #[trigger] s.drop_last()[q],
                ));
        }
        assert(s.drop_last()[i] == s[i]);
        lemma_entries_map_update(s.drop_last(), i, e);
        assert(t.drop_last() =~= s.drop_last().update(i, e));
        assert(t.last() == s.last());
        assert(entry_key(e) != entry_key(s.last())) by {
            assert(entry_key(s[i]) != entry_key(s[s.len() - 1]));
        }
        assert(entries_map(t) =~= entries_map(s).insert(entry_key(e), e.cell@));
    }
}

/// Replacing only the cell stored at one index keeps the coordinates
/// unique and updates exactly that key of the map, whatever the new cell
/// holds.
pub proof fn lemma_cell_slot_update(s: Seq<GridEntry>, i: int)
    requires
        entries_uniq(s),
        0 <= i < s.len(),
    ensures
        forall|cc: Cell|
            #![trigger entries_map(s.update(i, GridEntry { col: s[i].col, row: s[i].row, cell: cc }))]
            entries_map(s.update(i, GridEntry { col: s[i].col, row: s[i].row, cell: cc }))
                == entries_map(s).insert(entry_key(s[i]), cc@) && entries_uniq(
                s.update(i, GridEntry { col: s[i].col, row: s[i].row, cell: cc }),
            ),
{
    assert forall|cc: Cell|
        entries_map(s.update(i, GridEntry { col: s[i].col, row: s[i].row, cell: cc }))
            == entries_map(s).insert(entry_key(s[i]), cc@) && entries_uniq(
            s.update(i, GridEntry { col: s[i].col, row: s[i].row, cell: cc }),
        ) by {
        let e2 = GridEntry { col: s[i].col, row: s[i].row, cell: cc };
        let t = s.update(i, e2);
        lemma_entries_map_update(s, i, e2);
        assert(entries_uniq(t)) by {
            assert(forall|p: int, q: int|
                0 <= p < q < t.len() ==> entry_key(#[trigger] t[p]) == entry_key(s[p])
                    && entry_key(#[trigger] t[q]) == entry_key(s[q]));
        }
    }
}

/// Every stored value is in the library's canonical form: a float is
/// carried as the canonical text of its number, the form the evaluation
/// engine itself produces.
pub open spec fn entries_values_canonical(s: Seq<GridEntry>) -> bool {
    forall|i: int| 0 <= i < s.len() ==> canonical_value((#[trigger] s[i]).cell@.value)
}

/// CPU-side grid state: sparse cell storage and the selected coordinates.
pub struct GridState {
    /// Sparse cell storage, each coordinate held at most once.
    pub cells: Vec<GridEntry>,
    /// Packed keys of the selected cell coordinates.
    pub selected: HashSet<u64>,
}

impl GridState {
    /// The entries as stored, in insertion order.
    pub open spec fn entries(self) -> Seq<GridEntry> {
        self.cells@
    }

    /// The sparse coordinate-to-cell map this grid denotes.
    pub open spec fn as_map(self) -> Map<(int, int), CellView> {
        entries_map(self.cells@)
    }

    /// Selection state of one coordinate.
    pub open spec fn selected_spec(self, col: i32, row: i32) -> bool {
        self.selected@.contains(coord_key_of(col, row))
    }

    /// The packed keys of the selected coordinates.
    pub open spec fn selected_keys(self) -> Set<u64> {
        self.selected@
    }

    /// Each coordinate is stored at most once.
    pub open spec fn wf(self) -> bool {
        entries_uniq(self.cells@)
    }

    /// Every stored value is in the library's canonical form.
    pub open spec fn values_canonical(self) -> bool {
        entries_values_canonical(self.cells@)
    }

    /// Create a new empty grid.
    pub fn new() -> (g: GridState)
        ensures
            g.wf(),
            g.entries() == Seq::<GridEntry>::empty(),
            g.as_map() == Map::<(int, int), CellView>::empty(),
            g.selected_keys() == Set::<u64>::empty(),
    {
        let g = GridState { cells: Vec::new(), selected: HashSet::new() };
        proof {
            assert(g.as_map() =~= Map::<(int, int), CellView>::empty());
        }
        g
    }

    /// Find the index storing a coordinate, if any.
    fn find(&self, col: i32, row: i32) -> (r: Option<usize>)
        ensures
            match r {
                Some(i) => i < self.cells@.len() && entry_key(self.cells@[i as int]) == (
                    col as int,
                    row as int,
                ),
                None => forall|i: int|
                    0 <= i < self.cells@.len() ==> entry_key(#[trigger] self.cells@[i]) != (
                        col as int,
                        row as int,
                    ),
            },
    {
        let n = self.cells.len();
        let mut i: usize = 0;
        while i < n
            invariant
                0 <= i <= n,
                n == self.cells@.len(),
                forall|j: int|
                    0 <= j < i ==> entry_key(#[trigger] self.cells@[j]) != (
                        col as int,
                        row as int,
                    ),
            decreases n - i,
        {
            let e = &self.cells[i];
            if e.col == col && e.row == row {
                return Some(i);
            }
            i = i + 1;
        }
        None
    }

    /// Get an immutable reference to a cell.
    pub fn get_cell(&self, col: i32, row: i32) -> (r: Option<&Cell>)
        requires
            self.wf(),
        ensures
            match r {
                Some(c) => self.as_map().contains_key((col as int, row as int)) && c@
                    == self.as_map()[(col as int, row as int)],
                None => !self.as_map().contains_key((col as int, row as int)),
            },
    {
        proof {
            lemma_entries_map_contains(self.cells@, (col as int, row as int));
        }
        match self.find(col, row) {
            Some(i) => {
                proof {
                    lemma_entries_map_index(self.cells@, i as int);
                }
                Some(&self.cells[i].cell)
            },
            None => None,
        }
    }

    /// Get a mutable reference to a cell. Afterwards the grid holds, under
    /// this coordinate, whatever the caller leaves behind the reference;
    /// coordinates and all other cells are untouched.
    pub fn get_cell_mut(&mut self, col: i32, row: i32) -> (r: Option<&mut Cell>)
        requires
            old(self).wf(),
        ensures
            final(self).wf(),
            final(self).selected_keys() == old(self).selected_keys(),
            match r {
                Some(c) => {
                    &&& old(self).as_map().contains_key((col as int, row as int))
                    &&& (*c)@ == old(self).as_map()[(col as int, row as int)]
                    &&& final(self).as_map() == old(self).as_map().insert(
                        (col as int, row as int),
                        (*final(c))@,
                    )
                },
                None => {
                    &&& !old(self).as_map().contains_key((col as int, row as int))
                    &&& final(self).cells@ == old(self).cells@
                },
            },
    {
        let ghost k = (col as int, row as int);
        proof {
            lemma_entries_map_contains(self.cells@, k);
        }
        match self.find(col, row) {
            Some(i) => {
                let ghost s0 = self.cells@;
                proof {
                    lemma_entries_map_index(s0, i as int);
                    lemma_cell_slot_update(s0, i as int);
                }
                let e = &mut self.cells[i];
                let c = &mut e.cell;
                Some(c)
            },
            None => None,
        }
    }

    /// Get a mutable reference to a cell, creating an empty cell first if
    /// the coordinate holds none. Afterwards the grid holds, under this
    /// coordinate, whatever the caller leaves behind the reference.
    pub fn get_cell_mut_or_create(&mut self, col: i32, row: i32) -> (c: &mut Cell)
        requires
            old(self).wf(),
        ensures
            final(self).wf(),
            final(self).selected_keys() == old(self).selected_keys(),
            (*c)@ == if old(self).as_map().contains_key((col as int, row as int)) {
                old(self).as_map()[(col as int, row as int)]
            } else {
                CellView {
                    raw: Seq::empty(),
                    value: crate::cell::ValView::Int(0),
                    is_formula: false,
                    error: false,
                    content_hash: None,
                }
            },
            final(self).as_map() == old(self).as_map().insert(
                (col as int, row as int),
                (*final(c))@,
            ),
    {
        let ghost k = (col as int, row as int);
        proof {
            lemma_entries_map_contains(self.cells@, k);
        }
        let i: usize = match self.find(col, row) {
            Some(i) => i,
            None => {
                let ghost s0 = self.cells@;
                self.cells.push(GridEntry { col, row, cell: Cell::default() });
                proof {
                    assert(self.cells@.drop_last() =~= s0);
                    assert(entries_map(self.cells@) == entries_map(s0).insert(
                        k,
                        self.cells@.last().cell@,
                    ));
                    assert(entries_uniq(self.cells@)) by {
                        assert(forall|p: int|
                            0 <= p < s0.len() ==> entry_key(#[trigger] self.cells@[p])
                                == entry_key(s0[p]));
                        assert(entry_key(self.cells@[self.cells@.len() - 1]) == k);
                    }
                    lemma_entries_map_index(self.cells@, self.cells@.len() - 1);
                }
                self.cells.len() - 1
            },
        };
        let ghost s1 = self.cells@;
        proof {
            lemma_entries_map_index(s1, i as int);
            lemma_cell_slot_update(s1, i as int);
            assert forall|cc: Cell|
                #[trigger] entries_map(s1).insert(k, cc@) == entries_map(old(self).cells@).insert(
                    k,
                    cc@,
                ) by {
                assert(entries_map(s1).insert(k, cc@) =~= entries_map(old(self).cells@).insert(
                    k,
                    cc@,
                ));
            }
        }
        let e = &mut self.cells[i];
        let c = &mut e.cell;
        c
    }

    /// Insert or update a cell.
    pub fn set_cell(&mut self, col: i32, row: i32, cell: Cell)
        requires
            old(self).wf(),
        ensures
            final(self).wf(),
            final(self).as_map() == old(self).as_map().insert((col as int, row as int), cell@),
            final(self).selected_keys() == old(self).selected_keys(),
    {
        let ghost k = (col as int, row as int);
        match self.find(col, row) {
            Some(i) => {
                let ghost s0 = self.cells@;
                let e = &mut self.cells[i];
                e.cell = cell;
                proof {
                    let e2 = GridEntry { col: s0[i as int].col, row: s0[i as int].row, cell };
                    assert(self.cells@ =~= s0.update(i as int, e2));
                    lemma_entries_map_update(s0, i as int, e2);
                    assert(entries_uniq(self.cells@)) by {
                        assert(forall|p: int, q: int|
                            0 <= p < q < self.cells@.len() ==> entry_key(
                                #[trigger] self.cells@[p],
                            ) == entry_key(s0[p]) && entry_key(#[trigger] self.cells@[q])
                                == entry_key(s0[q]));
                    }
                }
            },
            None => {
                let ghost s0 = self.cells@;
                self.cells.push(GridEntry { col, row, cell });
                proof {
                    assert(self.cells@.drop_last() =~= s0);
                    assert(entries_map(self.cells@) == entries_map(s0).insert(k, cell@));
                    assert(entries_uniq(self.cells@)) by {
                        assert(forall|p: int|
                            0 <= p < s0.len() ==> entry_key(#[trigger] self.cells@[p])
                                == entry_key(s0[p]));
                        assert(entry_key(self.cells@[self.cells@.len() - 1]) == k);
                    }
                }
            },
        }
    }

    /// Set the source text of the cell at a coordinate, creating the cell
    /// the first time the coordinate is written.
    pub fn set_raw_at(&mut self, col: i32, row: i32, raw: String)
        requires
            old(self).wf(),
        ensures
            final(self).wf(),
            final(self).selected_keys() == old(self).selected_keys(),
            final(self).as_map().dom() == old(self).as_map().dom().insert(
                (col as int, row as int),
            ),
            ({
                let k = (col as int, row as int);
                let c = final(self).as_map()[k];
                &&& c.raw == raw@
                &&& c.is_formula == crate::cell::is_formula_text(raw@)
                &&& c.error == false
                &&& c.value == if old(self).as_map().contains_key(k) {
                    old(self).as_map()[k].value
                } else {
                    crate::cell::ValView::Int(0)
                }
                &&& c.content_hash == if old(self).as_map().contains_key(k) {
                    old(self).as_map()[k].content_hash
                } else {
                    None
                }
            }),
            forall|k2: (int, int)|
                k2 != (col as int, row as int) && old(self).as_map().contains_key(k2)
                    ==> final(self).as_map()[k2] == old(self).as_map()[k2],
    {
        let ghost k = (col as int, row as int);
        proof {
            lemma_entries_map_contains(self.cells@, k);
        }
        match self.find(col, row) {
            Some(i) => {
                let ghost s0 = self.cells@;
                proof {
                    lemma_entries_map_index(s0, i as int);
                }
                let e = &mut self.cells[i];
                e.cell.set_raw(raw);
                proof {
                    let enew = self.cells@[i as int];
                    assert(self.cells@ =~= s0.update(i as int, enew));
                    lemma_entries_map_update(s0, i as int, enew);
                    assert(entries_uniq(self.cells@)) by {
                        assert(forall|p: int, q: int|
                            0 <= p < q < self.cells@.len() ==> entry_key(
                                #[trigger] self.cells@[p],
                            ) == entry_key(s0[p]) && entry_key(#[trigger] self.cells@[q])
                                == entry_key(s0[q]));
                    }
                    assert(final(self).as_map().dom() =~= old(self).as_map().dom().insert(k));
                }
            },
            None => {
                let ghost s0 = self.cells@;
                let cell = Cell::new(raw);
                self.cells.push(GridEntry { col, row, cell });
                proof {
                    assert(self.cells@.drop_last() =~= s0);
                    assert(entries_map(self.cells@) == entries_map(s0).insert(
                        k,
                        self.cells@.last().cell@,
                    ));
                    assert(entries_uniq(self.cells@)) by {
                        assert(forall|p: int|
                            0 <= p < s0.len() ==> entry_key(#[trigger] self.cells@[p])
                                == entry_key(s0[p]));
                        assert(entry_key(self.cells@[self.cells@.len() - 1]) == k);
                    }
                    assert(final(self).as_map().dom() =~= old(self).as_map().dom().insert(k));
                }
            },
        }
    }

    /// Attach or clear the rich-content digest of an existing cell; reports
    /// whether the coordinate was present.
    pub fn set_content_hash_at(&mut self, col: i32, row: i32, hash: Option<u64>) -> (r: bool)
        requires
            old(self).wf(),
        ensures
            final(self).wf(),
            final(self).selected_keys() == old(self).selected_keys(),
            r == old(self).as_map().contains_key((col as int, row as int)),
            !r ==> final(self).as_map() == old(self).as_map(),
            r ==> ({
                let k = (col as int, row as int);
                let c0 = old(self).as_map()[k];
                final(self).as_map() == old(self).as_map().insert(
                    k,
                    CellView {
                        raw: c0.raw,
                        value: c0.value,
                        is_formula: c0.is_formula,
                        error: c0.error,
                        content_hash: hash,
                    },
                )
            }),
    {
        let ghost k = (col as int, row as int);
        proof {
            lemma_entries_map_contains(self.cells@, k);
        }
        match self.find(col, row) {
            Some(i) => {
                let ghost s0 = self.cells@;
                proof {
                    lemma_entries_map_index(s0, i as int);
                }
                let e = &mut self.cells[i];
                e.cell.content_hash = hash;
                proof {
                    let enew = self.cells@[i as int];
                    assert(self.cells@ =~= s0.update(i as int, enew));
                    lemma_entries_map_update(s0, i as int, enew);
                    assert(entries_uniq(self.cells@)) by {
                        assert(forall|p: int, q: int|
                            0 <= p < q < self.cells@.len() ==> entry_key(
                                #[trigger] self.cells@[p],
                            ) == entry_key(s0[p]) && entry_key(#[trigger] self.cells@[q])
                                == entry_key(s0[q]));
                    }
                }
                true
            },
            None => false,
        }
    }

    /// Mark a coordinate selected.
    pub fn select(&mut self, col: i32, row: i32)
        ensures
            final(self).cells@ == old(self).cells@,
            final(self).selected_keys() == old(self).selected_keys().insert(
                coord_key_of(col, row),
            ),
    {
        let k = coord_key(col, row);
        self.selected.insert(k);
    }

    /// Clear the selection.
    pub fn clear_selection(&mut self)
        ensures
            final(self).cells@ == old(self).cells@,
            final(self).selected_keys() == Set::<u64>::empty(),
    {
        self.selected.clear();
    }

    /// Selection state of a coordinate.
    pub fn is_selected(&self, col: i32, row: i32) -> (r: bool)
        ensures
            r == self.selected_spec(col, row),
    {
        let k = coord_key(col, row);
        self.selected.contains(&k)
    }

    /// The flags word the viewport buffer holds for one coordinate.
    pub open spec fn viewport_word(self, col: i32, row: i32) -> u32 {
        let sel = self.selected_spec(col, row);
        if self.as_map().contains_key((col as int, row as int)) {
            flags_of(self.as_map()[(col as int, row as int)], sel)
        } else if sel {
            1u32
        } else {
            0u32
        }
    }

    /// Generate the per-cell flags buffer for a viewport region, one word
    /// per cell, rows bottom to top.
    pub fn to_gpu_cells_viewport(&self, min_col: i32, min_row: i32, width: i32, height: i32) -> (r:
        Vec<u32>)
        requires
            self.wf(),
            0 <= width,
            0 <= height,
            width as int * height as int <= usize::MAX,
            min_col as int + width as int <= i32::MAX as int + 1,
            min_row as int + height as int <= i32::MAX as int + 1,
        ensures
            r@.len() == width as int * height as int,
            forall|y: int, x: int|
                0 <= y < height && 0 <= x < width ==> r@[y * width as int + x]
                    == #[trigger] self.viewport_word((min_col + x) as i32, (min_row + y) as i32),
    {
        let mut buffer: Vec<u32> = Vec::new();
        let mut y: i32 = 0;
        while y < height
            invariant
                0 <= y <= height,
                0 <= width,
                0 <= height,
                self.wf(),
                width as int * height as int <= usize::MAX,
                min_col as int + width as int <= i32::MAX as int + 1,
                min_row as int + height as int <= i32::MAX as int + 1,
                buffer@.len() == y * width as int,
                forall|y2: int, x2: int|
                    0 <= y2 < y && 0 <= x2 < width ==> buffer@[y2 * width as int + x2]
                        == #[trigger] self.viewport_word((min_col + x2) as i32, (min_row + y2) as i32),
            decreases height - y,
        {
            let mut x: i32 = 0;
            proof {
                assert((y + 1) * width as int <= height as int * width as int) by (
                nonlinear_arith)
                    requires
                        0 <= y < height,
                        0 <= width,
                ;
            }
            while x < width
                invariant
                    0 <= x <= width,
                    0 <= y < height,
                    0 <= width,
                    0 <= height,
                    self.wf(),
                    width as int * height as int <= usize::MAX,
                    min_col as int + width as int <= i32::MAX as int + 1,
                    min_row as int + height as int <= i32::MAX as int + 1,
                    (y + 1) * width as int <= height as int * width as int,
                    buffer@.len() == y * width as int + x,
                    forall|y2: int, x2: int|
                        0 <= y2 < y && 0 <= x2 < width ==> buffer@[y2 * width as int + x2]
                            == #[trigger] self.viewport_word((min_col + x2) as i32, (min_row + y2) as i32),
                    forall|x2: int|
                        0 <= x2 < x ==> buffer@[y * width as int + x2]
                            == #[trigger] self.viewport_word((min_col + x2) as i32, (min_row + y) as i32),
                decreases width - x,
            {
                let col = min_col + x;
                let row = min_row + y;
                let is_sel = self.is_selected(col, row);
                let word: u32 = match self.get_cell(col, row) {
                    Some(cell) => GpuCell::from_cell(cell, is_sel).flags,
                    None => if is_sel {
                        1
                    } else {
                        0
                    },
                };
                let ghost buf0 = buffer@;
                buffer.push(word);
                proof {
                    assert forall|y2: int, x2: int|
                        0 <= y2 < y && 0 <= x2 < width implies #[trigger] buffer@[y2 * width
                        as int + x2] == buf0[y2 * width as int + x2] by {
                        assert(0 <= y2 * width as int + x2 < y * width as int) by (
                        nonlinear_arith)
                            requires
                                0 <= y2 < y,
                                0 <= x2 < width,
                        ;
                    }
                }
                x = x + 1;
            }
            y = y + 1;
            proof {
                assert(y * width as int == (y - 1) * width as int + width as int) by (
                nonlinear_arith);
            }
        }
        proof {
            assert(buffer@.len() == height as int * width as int);
        }
        buffer
    }
}

} // verus!

