//! The grid and its operations.

use vstd::prelude::*;
use crate::checksum::{checksum_of, lemma_step_wrapping};
use crate::tick::{
    bit_weight, lemma_join_rule, lemma_set_bit, mask_below, neighbor_mask, tick_prefix,
    tick_result, RULE_COUNT,
};
use crate::topology::{
    lemma_cell_in_grid, lemma_packed_in_range, lemma_wrap_step, neighbor_index, offset,
};

verus! {

/// Why a step was refused.
#[derive(Debug, Clone, Copy, PartialEq, Eq)]
pub enum TickError {
    /// The grid has a dimension below one.
    InvalidDimensions,
    /// A state buffer does not have one entry per cell, or the ruleset or
    /// the histogram does not have 256 entries.
    InvalidBufferLength,
}

/// A toroidal hexagonal grid of fixed dimensions.
pub struct World {
    grid_cols: i32,
    grid_rows: i32,
}

impl World {
    /// The number of columns.
    pub closed spec fn cols(&self) -> int {
        self.grid_cols as int
    }

    /// The number of rows.
    pub closed spec fn rows(&self) -> int {
        self.grid_rows as int
    }

    /// Both dimensions are at least one: the grid has cells.
    pub open spec fn wf(&self) -> bool {
        self.cols() >= 1 && self.rows() >= 1
    }

    /// The number of cells.
    pub open spec fn cells(&self) -> int {
        self.cols() * self.rows()
    }

    /// The buffers of a step have the lengths that the grid asks for: 256
    /// rules, 256 counters, and one entry per cell in each of the others.
    pub open spec fn buffers_fit(
        &self,
        ruleset: Seq<u8>,
        state: Seq<u8>,
        next_state: Seq<u8>,
        rule_indices: Seq<u8>,
        rule_usage_counters: Seq<u32>,
    ) -> bool {
        &&& ruleset.len() == RULE_COUNT
        &&& rule_usage_counters.len() == RULE_COUNT
        &&& state.len() == self.cells()
        &&& next_state.len() == self.cells()
        &&& rule_indices.len() == self.cells()
    }

    /// A grid of `grid_cols` by `grid_rows` cells. The dimensions are taken
    /// as they are.
    pub fn new(grid_cols: i32, grid_rows: i32) -> (world: World)
        ensures
            world.cols() == grid_cols,
            world.rows() == grid_rows,
    {
        World { grid_cols, grid_rows }
    }

    /// The six neighbours of the cell at `(col, row)`, in direction order, as
    /// packed cell indices.
    pub fn neighbors_of(&self, col: i32, row: i32) -> (found: [usize; 6])
        requires
            self.wf(),
            0 <= col < self.cols(),
            0 <= row < self.rows(),
            self.cells() <= usize::MAX,
        ensures
            forall|dir: int|
                0 <= dir < 6 ==> #[trigger] found@[dir] as int == neighbor_index(
                    self.cols(),
                    self.rows(),
                    col as int,
                    row as int,
                    dir,
                ),
            forall|dir: int| 0 <= dir < 6 ==> 0 <= #[trigger] found@[dir] < self.cells(),
    {
        let odd = col % 2 != 0;
        [
            self.neighbor_at(col, row, step(odd, 0), Ghost(0)),
            self.neighbor_at(col, row, step(odd, 1), Ghost(1)),
            self.neighbor_at(col, row, step(odd, 2), Ghost(2)),
            self.neighbor_at(col, row, step(odd, 3), Ghost(3)),
            self.neighbor_at(col, row, step(odd, 4), Ghost(4)),
            self.neighbor_at(col, row, step(odd, 5), Ghost(5)),
        ]
    }

    /// The packed index of the cell one step `(dc, dr)` away from
    /// `(col, row)`, on the torus.
    fn neighbor_at(&self, col: i32, row: i32, delta: (i64, i64), Ghost(dir): Ghost<int>) -> (index:
        usize)
        requires
            self.wf(),
            0 <= col < self.cols(),
            0 <= row < self.rows(),
            self.cells() <= usize::MAX,
            0 <= dir < 6,
            (delta.0 as int, delta.1 as int) == offset(col % 2 != 0, dir),
        ensures
            index as int == neighbor_index(self.cols(), self.rows(), col as int, row as int, dir),
            0 <= index < self.cells(),
    {
        let cols: i64 = self.grid_cols as i64;
        let rows: i64 = self.grid_rows as i64;
        let dc: i64 = delta.0;
        let dr: i64 = delta.1;
        proof {
            lemma_wrap_step(col as int, dc as int, cols as int);
            lemma_wrap_step(row as int, dr as int, rows as int);
        }
        let n_col: i64 = (col as i64 + dc + cols) % cols;
        let n_row: i64 = (row as i64 + dr + rows) % rows;
        proof {
            lemma_packed_in_range(cols as int, rows as int, n_col as int, n_row as int);
            assert(0 <= n_row * cols <= n_row * cols + n_col) by (nonlinear_arith)
                requires
                    0 <= n_row,
                    0 <= n_col,
                    0 <= cols,
            ;
            assert(cols * rows <= 0x4000_0000_0000_0000) by (nonlinear_arith)
                requires
                    0 <= cols <= 0x7fff_ffff,
                    0 <= rows <= 0x7fff_ffff,
            ;
        }
        (n_row * cols + n_col) as usize
    }

    /// The neighbour mask of the cell at `(col, row)` in `state`.
    fn mask_of(&self, state: &[u8], col: i32, row: i32) -> (mask: u8)
        requires
            self.wf(),
            0 <= col < self.cols(),
            0 <= row < self.rows(),
            state@.len() == self.cells(),
        ensures
            mask as int == neighbor_mask(self.cols(), self.rows(), state@, col as int, row as int),
            mask < 64,
    {
        proof {
            vstd::slice::axiom_spec_len(state);
        }
        let found = self.neighbors_of(col, row);
        let mut mask: u8 = 0;
        let mut n: usize = 0;
        while n < 6
            invariant
                n <= 6,
                self.wf(),
                state@.len() == self.cells(),
                forall|dir: int|
                    0 <= dir < 6 ==> #[trigger] found@[dir] as int == neighbor_index(
                        self.cols(),
                        self.rows(),
                        col as int,
                        row as int,
                        dir,
                    ),
                forall|dir: int| 0 <= dir < 6 ==> 0 <= #[trigger] found@[dir] < self.cells(),
                mask as int == mask_below(
                    self.cols(),
                    self.rows(),
                    state@,
                    col as int,
                    row as int,
                    n as int,
                ),
                bit_weight(n as int) > mask,
            decreases 6 - n,
        {
            let bit: u8 = 1u8 << (n as u8);
            proof {
                lemma_set_bit(mask, n as u8);
            }
            if state[found[n]] == 1 {
                mask = mask | bit;
            }
            n = n + 1;
        }
        mask
    }

    /// Advances the automaton by one step. For every cell, the rule it
    /// selects in `state` is written to `rule_indices`, the ruleset's entry
    /// for that rule to `next_state`, and the rule's counter in
    /// `rule_usage_counters` is incremented; a counter at its largest value
    /// goes to zero. The counters are not cleared first. Of a cell's value
    /// only the low two bits enter its rule.
    pub fn run_tick(
        &self,
        ruleset: &[u8],
        state: &[u8],
        next_state: &mut [u8],
        rule_indices: &mut [u8],
        rule_usage_counters: &mut [u32],
    )
        requires
            self.wf(),
            self.buffers_fit(
                ruleset@,
                state@,
                old(next_state)@,
                old(rule_indices)@,
                old(rule_usage_counters)@,
            ),
        ensures
            tick_result(
                self.cols(),
                self.rows(),
                ruleset@,
                state@,
                final(next_state)@,
                final(rule_indices)@,
                old(rule_usage_counters)@,
                final(rule_usage_counters)@,
            ),
    {
        let num_cells: usize = state.len();
        let cols: usize = self.grid_cols as usize;
        let mut i: usize = 0;
        while i < num_cells
            invariant
                i <= num_cells,
                self.wf(),
                cols == self.cols(),
                num_cells == self.cells(),
                ruleset@.len() == RULE_COUNT,
                state@.len() == self.cells(),
                old(rule_usage_counters)@.len() == RULE_COUNT,
                tick_prefix(
                    self.cols(),
                    self.rows(),
                    ruleset@,
                    state@,
                    next_state@,
                    rule_indices@,
                    old(rule_usage_counters)@,
                    rule_usage_counters@,
                    i as int,
                ),
            decreases num_cells - i,
        {
            proof {
                lemma_cell_in_grid(self.cols(), self.rows(), i as int);
            }
            let col: i32 = (i % cols) as i32;
            let row: i32 = (i / cols) as i32;
            let own: u8 = state[i];
            let mask: u8 = self.mask_of(state, col, row);
            let rule: u8 = (own << 6u8) | mask;
            proof {
                lemma_join_rule(own, mask);
            }
            next_state[i] = ruleset[rule as usize];
            rule_indices[i] = rule;
            rule_usage_counters[rule as usize] = rule_usage_counters[rule as usize].wrapping_add(1);
            i = i + 1;
        }
    }

    /// Advances the automaton by one step as [`World::run_tick`] does, after
    /// testing what that function asks of its caller. Where the grid or a
    /// buffer's length is not in order, nothing is written and the error
    /// says which: the dimensions are tested first.
    pub fn try_run_tick(
        &self,
        ruleset: &[u8],
        state: &[u8],
        next_state: &mut [u8],
        rule_indices: &mut [u8],
        rule_usage_counters: &mut [u32],
    ) -> (outcome: Result<(), TickError>)
        ensures
            outcome.is_ok() <==> self.wf() && self.buffers_fit(
                ruleset@,
                state@,
                old(next_state)@,
                old(rule_indices)@,
                old(rule_usage_counters)@,
            ),
            outcome == Err::<(), TickError>(TickError::InvalidDimensions) <==> !self.wf(),
            outcome == Err::<(), TickError>(TickError::InvalidBufferLength) <==> self.wf()
                && !self.buffers_fit(
                ruleset@,
                state@,
                old(next_state)@,
                old(rule_indices)@,
                old(rule_usage_counters)@,
            ),
            outcome.is_ok() ==> tick_result(
                self.cols(),
                self.rows(),
                ruleset@,
                state@,
                final(next_state)@,
                final(rule_indices)@,
                old(rule_usage_counters)@,
                final(rule_usage_counters)@,
            ),
            outcome.is_err() ==> final(next_state)@ == old(next_state)@ && final(rule_indices)@
                == old(rule_indices)@ && final(rule_usage_counters)@ == old(
                rule_usage_counters,
            )@,
    {
        if self.grid_cols < 1 || self.grid_rows < 1 {
            return Err(TickError::InvalidDimensions);
        }
        assert(0 < self.grid_cols * self.grid_rows <= 0x4000_0000_0000_0000) by (nonlinear_arith)
            requires
                1 <= self.grid_cols <= 0x7fff_ffff,
                1 <= self.grid_rows <= 0x7fff_ffff,
        ;
        let cells: u64 = (self.grid_cols as u64) * (self.grid_rows as u64);
        if ruleset.len() != RULE_COUNT || rule_usage_counters.len() != RULE_COUNT
            || state.len() as u64 != cells || next_state.len() as u64 != cells
            || rule_indices.len() as u64 != cells {
            return Err(TickError::InvalidBufferLength);
        }
        self.run_tick(ruleset, state, next_state, rule_indices, rule_usage_counters);
        Ok(())
    }

    /// The digest of `arr`; see [`checksum_of`]. It does not depend on the
    /// grid.
    pub fn calculate_checksum(&self, arr: &[u8]) -> (checksum: i32)
        ensures
            checksum as int == checksum_of(arr@),
            arr@.len() == 0 ==> checksum == 0,
    {
        let mut checksum: i32 = 0;
        let mut i: usize = 0;
        while i < arr.len()
            invariant
                i <= arr@.len(),
                checksum as int == checksum_of(arr@.take(i as int)),
            decreases arr@.len() - i,
        {
            proof {
                lemma_step_wrapping(checksum, arr@[i as int]);
                assert(arr@.take(i + 1).drop_last() =~= arr@.take(i as int));
            }
            checksum = checksum.wrapping_mul(31).wrapping_add(arr[i] as i32);
            i = i + 1;
        }
        proof {
            assert(arr@.take(i as int) =~= arr@);
        }
        checksum
    }
}

/// The `(column, row)` step of direction `dir`, from the table of the
/// column's parity.
fn step(odd: bool, dir: usize) -> (delta: (i64, i64))
    requires
        dir < 6,
    ensures
        (delta.0 as int, delta.1 as int) == offset(odd, dir as int),
{
    if odd {
        match dir {
            0 => (-1, 1),
            1 => (-1, 0),
            2 => (0, -1),
            3 => (1, 0),
            4 => (1, 1),
            _ => (0, 1),
        }
    } else {
        match dir {
            0 => (-1, 0),
            1 => (-1, -1),
            2 => (0, -1),
            3 => (1, -1),
            4 => (1, 0),
            _ => (0, 1),
        }
    }
}

} // verus!
