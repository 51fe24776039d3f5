//! Geometry of a frame: the block grid, the strips above and below it, and the
//! fixed patterns (corner markers, calibration cells) that the receiver knows.

use vstd::prelude::*;

verus! {

/// Height in cells of the strip above and of the strip below the block grid.
pub const STRIP_H: usize = 6;

/// Side in cells of a corner marker.
pub const CORNER: usize = 6;

/// Block grid of a frame. It travels in the header, so a decoder needs no
/// prior knowledge of it.
#[derive(Clone, Copy, Debug, PartialEq, Eq, Structural)]
pub struct Layout {
    /// Side of a block in cells.
    pub block: usize,
    /// Blocks per row.
    pub grid_w: usize,
    /// Blocks per column.
    pub grid_h: usize,
}

impl Layout {
    /// Side of a block in cells, shared by every layout.
    pub const BLOCK: usize = 20;

    /// Default layout: 100x92 cells, 20 blocks.
    #[verifier::allow_in_spec]
    pub fn v0() -> Layout
        returns
            (Layout { block: 20, grid_w: 5, grid_h: 4 }),
    {
        Layout { block: 20, grid_w: 5, grid_h: 4 }
    }

    /// Dense layout: 140x132 cells, 42 blocks.
    #[verifier::allow_in_spec]
    pub fn v1_dense() -> Layout
        returns
            (Layout { block: 20, grid_w: 7, grid_h: 6 }),
    {
        Layout { block: 20, grid_w: 7, grid_h: 6 }
    }

    /// Ultra dense layout: 180x172 cells, 72 blocks.
    #[verifier::allow_in_spec]
    pub fn v2_ultra() -> Layout
        returns
            (Layout { block: 20, grid_w: 9, grid_h: 8 }),
    {
        Layout { block: 20, grid_w: 9, grid_h: 8 }
    }

    /// Densest layout: 220x212 cells, 110 blocks.
    #[verifier::allow_in_spec]
    pub fn v3_max() -> Layout
        returns
            (Layout { block: 20, grid_w: 11, grid_h: 10 }),
    {
        Layout { block: 20, grid_w: 11, grid_h: 10 }
    }

    /// Width of the frame in cells.
    pub open spec fn spec_width(self) -> int {
        self.grid_w * self.block
    }

    /// Height of the frame in cells.
    pub open spec fn spec_height(self) -> int {
        self.grid_h * self.block + 2 * STRIP_H
    }

    /// Number of blocks.
    pub open spec fn spec_block_count(self) -> int {
        self.grid_w * self.grid_h
    }

    /// Bytes carried by one block at `bpc` bits per cell.
    pub open spec fn spec_block_bytes(self, bpc: u8) -> int {
        self.block * self.block * bpc / 8
    }

    /// Bytes of a block left once its CRC-32 is taken away.
    pub open spec fn spec_block_payload_len(self, bpc: u8) -> int {
        self.spec_block_bytes(bpc) - 4
    }

    /// The fountain packet size that fills a block (its 4-byte id comes on top).
    pub open spec fn spec_packet_size(self, bpc: u8) -> int {
        self.spec_block_payload_len(bpc) - 4
    }

    /// A layout on the common block size with the given grid.
    pub fn from_grid(grid_w: usize, grid_h: usize) -> (l: Layout)
        ensures
            l == (Layout { block: Self::BLOCK, grid_w, grid_h }),
    {
        Layout { block: Self::BLOCK, grid_w, grid_h }
    }

    /// The candidate layouts a receiver tries before it has read a header,
    /// the most frequent first.
    pub fn candidates() -> (c: [Layout; 4])
        ensures
            c@ == seq![Layout::v1_dense(), Layout::v0(), Layout::v2_ultra(), Layout::v3_max()],
    {
        let c = [Layout::v1_dense(), Layout::v0(), Layout::v2_ultra(), Layout::v3_max()];
        assert(c@ =~= seq![Layout::v1_dense(), Layout::v0(), Layout::v2_ultra(), Layout::v3_max()]);
        c
    }

    pub fn width(&self) -> (r: usize)
        requires
            self.spec_width() <= usize::MAX,
        ensures
            r == self.spec_width(),
    {
        self.grid_w * self.block
    }

    pub fn height(&self) -> (r: usize)
        requires
            self.spec_height() <= usize::MAX,
        ensures
            r == self.spec_height(),
    {
        self.grid_h * self.block + 2 * STRIP_H
    }

    pub fn block_count(&self) -> (r: usize)
        requires
            self.spec_block_count() <= usize::MAX,
        ensures
            r == self.spec_block_count(),
    {
        self.grid_w * self.grid_h
    }

    pub fn block_bytes(&self, bpc: u8) -> (r: usize)
        requires
            self.block * self.block <= usize::MAX,
            self.block * self.block * bpc <= usize::MAX,
        ensures
            r == self.spec_block_bytes(bpc),
    {
        self.block * self.block * bpc as usize / 8
    }

    pub fn block_payload_len(&self, bpc: u8) -> (r: usize)
        requires
            self.block * self.block <= usize::MAX,
            self.block * self.block * bpc <= usize::MAX,
            self.spec_block_bytes(bpc) >= 4,
        ensures
            r == self.spec_block_payload_len(bpc),
    {
        self.block_bytes(bpc) - 4
    }

    pub fn packet_size(&self, bpc: u8) -> (r: usize)
        requires
            self.block * self.block <= usize::MAX,
            self.block * self.block * bpc <= usize::MAX,
            self.spec_block_bytes(bpc) >= 8,
        ensures
            r == self.spec_packet_size(bpc),
    {
        self.block_payload_len(bpc) - 4
    }

    /// Top-left cell (row, column) of block `bi`, blocks numbered row by row.
    pub open spec fn spec_block_origin(self, bi: int) -> (int, int) {
        (STRIP_H + (bi / self.grid_w as int) * self.block, (bi % self.grid_w as int) * self.block)
    }

    pub fn block_origin(&self, bi: usize) -> (r: (usize, usize))
        requires
            self.grid_w > 0,
            bi < self.spec_block_count(),
            self.spec_height() <= usize::MAX,
            self.spec_width() <= usize::MAX,
        ensures
            r.0 == self.spec_block_origin(bi as int).0,
            r.1 == self.spec_block_origin(bi as int).1,
    {
        let by = bi / self.grid_w;
        let bx = bi % self.grid_w;
        proof {
            assert(by < self.grid_h) by (nonlinear_arith)
                requires
                    by == bi / self.grid_w,
                    bi < self.grid_w * self.grid_h,
                    self.grid_w > 0,
            ;
            assert(by * self.block <= self.grid_h * self.block) by (nonlinear_arith)
                requires
                    by < self.grid_h,
            ;
            assert(bx < self.grid_w) by (nonlinear_arith)
                requires
                    bx == bi % self.grid_w,
                    self.grid_w > 0,
            ;
            assert(bx * self.block <= self.grid_w * self.block) by (nonlinear_arith)
                requires
                    bx < self.grid_w,
            ;
        }
        (STRIP_H + by * self.block, bx * self.block)
    }
}

} // verus!
