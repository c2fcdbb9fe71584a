//! Where the cells of a universe stand on a canvas.
//!
//! Cells are squares of `cell_size` pixels. A grid line of one pixel runs
//! before every cell and after the last one, along both axes.

use vstd::prelude::*;

verus! {

/// The pixels that `count` cells take along one axis, grid lines included.
pub open spec fn spec_extent(cell_size: nat, count: nat) -> nat {
    (cell_size + 1) * count + 1
}

/// The pixel at which the cell with the given index along one axis begins.
pub open spec fn spec_cell_origin(cell_size: nat, index: nat) -> nat {
    index * (cell_size + 1) + 1
}

/// The pixels that `count` cells take along one axis, grid lines included;
/// `None` where that number is too large for a `usize`.
pub fn extent(cell_size: usize, count: usize) -> (pixels: Option<usize>)
    ensures
        match pixels {
            Some(pixels) => pixels == spec_extent(cell_size as nat, count as nat),
            None => spec_extent(cell_size as nat, count as nat) > usize::MAX,
        },
{
    let step = match cell_size.checked_add(1) {
        Some(step) => step,
        None => {
            return if count == 0 {
                proof {
                    assert((cell_size + 1) * 0 == 0) by (nonlinear_arith);
                }
                Some(1)
            } else {
                proof {
                    assert((cell_size + 1) * count >= cell_size + 1) by (nonlinear_arith)
                        requires
                            count >= 1,
                    ;
                }
                None
            };
        },
    };
    match step.checked_mul(count) {
        Some(cells) => cells.checked_add(1),
        None => None,
    }
}

/// The pixel at which the cell with the given index along one axis begins;
/// `None` where that number is too large for a `usize`.
pub fn cell_origin(cell_size: usize, index: usize) -> (pixel: Option<usize>)
    ensures
        match pixel {
            Some(pixel) => pixel == spec_cell_origin(cell_size as nat, index as nat),
            None => spec_cell_origin(cell_size as nat, index as nat) > usize::MAX,
        },
{
    proof {
        assert(index * (cell_size + 1) == (cell_size + 1) * index) by (nonlinear_arith);
    }
    extent(cell_size, index)
}

} // verus!
