use vstd::prelude::*;

verus! {

/// Spatial reference of a grid, carried through a rasterization run
/// unmodified: the four affine transform coefficients as the raw 64-bit
/// patterns of their binary encodings, plus the projection identifier.
///
/// The engine never interprets the coefficients; holding them as opaque bit
/// patterns lets the contract state exactly that they come out unchanged.
pub struct GridMeta {
    /// Bit pattern of the west edge coordinate of the grid origin.
    pub origin_x_bits: u64,
    /// Bit pattern of the cell width.
    pub x_res_bits: u64,
    /// Bit pattern of the north edge coordinate of the grid origin.
    pub origin_y_bits: u64,
    /// Bit pattern of the cell height.
    pub y_res_bits: u64,
    /// Projection identifier, passed through as-is.
    pub projection: String,
}

/// A raster grid: a row-major buffer of `rows * cols` cell values together
/// with its spatial reference.
pub struct Grid {
    pub rows: usize,
    pub cols: usize,
    pub cells: Vec<u32>,
    pub meta: GridMeta,
}

impl Grid {
    /// The buffer holds exactly one value per cell.
    pub open spec fn wf(self) -> bool {
        self.rows * self.cols == self.cells@.len()
    }
}

} // verus!
