//! Compact per-cell word for the display layer: the clamped integer value
//! and a small bitmask of state flags.

use vstd::prelude::*;

use crate::cell::{Cell, CellView, ValView};

verus! {

/// Compact representation of a cell for a display buffer: the value clamped
/// to `i32` and the state flags packed into one word.
#[derive(Clone, Copy, Debug)]
pub struct GpuCell {
    /// Cell value clamped from `i64` to `i32`; zero for non-integer values.
    pub value: i32,
    /// Bitmask flags, see the `FLAG_` constants.
    pub flags: u32,
}

/// The flags word a cell packs to: selection, formula, error and
/// rich-content bits.
pub open spec fn flags_of(c: CellView, selected: bool) -> u32 {
    ((if selected {
        1u32
    } else {
        0u32
    }) + (if c.is_formula {
        2u32
    } else {
        0u32
    }) + (if c.error {
        4u32
    } else {
        0u32
    }) + (if c.content_hash is Some {
        8u32
    } else {
        0u32
    })) as u32
}

/// The integer a cell value displays as: clamped to `i32`, zero when the
/// value is not an integer.
pub open spec fn gpu_value_of(v: ValView) -> int {
    match v {
        ValView::Int(i) => if i > i32::MAX {
            i32::MAX as int
        } else if i < i32::MIN {
            i32::MIN as int
        } else {
            i
        },
        _ => 0,
    }
}

impl GpuCell {
    /// Selection bit.
    pub const FLAG_SELECTED: u32 = 1;

    /// Formula bit.
    pub const FLAG_FORMULA: u32 = 2;

    /// Error bit.
    pub const FLAG_ERROR: u32 = 4;

    /// Rich-content bit.
    pub const FLAG_RICH: u32 = 8;

    /// Pack a cell and its selection state.
    pub fn from_cell(cell: &Cell, selected: bool) -> (g: GpuCell)
        ensures
            g.value as int == gpu_value_of(cell@.value),
            g.flags == flags_of(cell@, selected),
    {
        let mut flags: u32 = 0;
        if selected {
            flags = flags + 1;
        }
        if cell.is_formula {
            flags = flags + 2;
        }
        if cell.error {
            flags = flags + 4;
        }
        if cell.content_hash.is_some() {
            flags = flags + 8;
        }
        let value: i32 = match &cell.value {
            crate::cell::CellValue::Int(i) => {
                if *i > i32::MAX as i64 {
                    i32::MAX
                } else if *i < i32::MIN as i64 {
                    i32::MIN
                } else {
                    *i as i32
                }
            },
            _ => 0,
        };
        GpuCell { value, flags }
    }

    /// The two words a cell occupies in a shader buffer: the value
    /// reinterpreted as `u32`, then the flags.
    pub fn to_u32_pair(self) -> (r: (u32, u32))
        ensures
            r.0 == self.value as u32,
            r.1 == self.flags,
    {
        (self.value as u32, self.flags)
    }
}

} // verus!
