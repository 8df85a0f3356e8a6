//! What one step of the automaton computes, as mathematics: the neighbour
//! mask of a cell, the rule it selects, how often each rule fires, and the
//! relation between the buffers before and after a step.

use vstd::prelude::*;
use crate::topology::neighbor_index;

verus! {

/// The number of entries of a ruleset, and of a histogram of rule usage.
pub const RULE_COUNT: usize = 256;

/// Two to the power `dir`, the value of bit `dir` of a neighbour mask, for
/// the six directions and the first bit above them.
pub open spec fn bit_weight(dir: int) -> int {
    if dir == 0 {
        1
    } else if dir == 1 {
        2
    } else if dir == 2 {
        4
    } else if dir == 3 {
        8
    } else if dir == 4 {
        16
    } else if dir == 5 {
        32
    } else {
        64
    }
}

/// Whether neighbour `dir` of the cell at `(col, row)` holds exactly 1.
pub open spec fn neighbor_alive(
    cols: int,
    rows: int,
    state: Seq<u8>,
    col: int,
    row: int,
    dir: int,
) -> bool {
    state[neighbor_index(cols, rows, col, row, dir)] == 1
}

/// The bits of the neighbour mask that belong to the directions below `n`.
pub open spec fn mask_below(cols: int, rows: int, state: Seq<u8>, col: int, row: int, n: int) -> int
    decreases n,
{
    if n <= 0 {
        0
    } else {
        mask_below(cols, rows, state, col, row, n - 1) + if neighbor_alive(
            cols,
            rows,
            state,
            col,
            row,
            n - 1,
        ) {
            bit_weight(n - 1)
        } else {
            0
        }
    }
}

/// The neighbour mask of the cell at `(col, row)`: bit `dir` is set exactly
/// when neighbour `dir` holds 1.
pub open spec fn neighbor_mask(cols: int, rows: int, state: Seq<u8>, col: int, row: int) -> int {
    mask_below(cols, rows, state, col, row, 6)
}

/// The rule selected by a cell that holds `own` and has the neighbour mask
/// `mask`: the mask in the low six bits, the low two bits of `own` above
/// them. Higher bits of `own` fall off the byte and do not count.
pub open spec fn rule_index(own: u8, mask: int) -> int {
    (own as int % 4) * 64 + mask
}

/// The rule selected by cell `i` of a grid in state `state`.
pub open spec fn cell_rule(cols: int, rows: int, state: Seq<u8>, i: int) -> int {
    rule_index(state[i], neighbor_mask(cols, rows, state, i % cols, i / cols))
}

/// How many of the first `n` cells select `rule`.
pub open spec fn usage_count(cols: int, rows: int, state: Seq<u8>, rule: int, n: int) -> int
    decreases n,
{
    if n <= 0 {
        0
    } else {
        usage_count(cols, rows, state, rule, n - 1) + if cell_rule(cols, rows, state, n - 1)
            == rule {
            1int
        } else {
            0int
        }
    }
}

/// A counter that held `before` after `fired` increments, each of which
/// turns the largest value into zero.
pub open spec fn counter_after(before: u32, fired: int) -> int {
    (before as int + fired) % 0x1_0000_0000
}

/// The first `n` cells of a step: what `next` and `indices` hold for them,
/// and what `after` holds once their rules are counted on top of `before`.
pub open spec fn tick_prefix(
    cols: int,
    rows: int,
    ruleset: Seq<u8>,
    state: Seq<u8>,
    next: Seq<u8>,
    indices: Seq<u8>,
    before: Seq<u32>,
    after: Seq<u32>,
    n: int,
) -> bool {
    &&& next.len() == state.len()
    &&& indices.len() == state.len()
    &&& after.len() == before.len()
    &&& forall|i: int|
        0 <= i < n ==> #[trigger] indices[i] as int == cell_rule(cols, rows, state, i)
    &&& forall|i: int|
        0 <= i < n ==> #[trigger] next[i] == ruleset[cell_rule(cols, rows, state, i)]
    &&& forall|rule: int|
        0 <= rule < before.len() ==> #[trigger] after[rule] as int == counter_after(
            before[rule],
            usage_count(cols, rows, state, rule, n),
        )
}

/// One whole step on a grid of `cols` by `rows` cells: every cell of `next`
/// holds what `ruleset` gives for the rule the cell selects in `state`,
/// every cell of `indices` holds that rule, and each counter of `after` is
/// the one of `before` incremented once for every cell that selects its rule.
pub open spec fn tick_result(
    cols: int,
    rows: int,
    ruleset: Seq<u8>,
    state: Seq<u8>,
    next: Seq<u8>,
    indices: Seq<u8>,
    before: Seq<u32>,
    after: Seq<u32>,
) -> bool {
    tick_prefix(cols, rows, ruleset, state, next, indices, before, after, cols * rows)
}

/// The bits of the directions below `n` make a number below two to the
/// power `n`; so a neighbour mask has six bits.
pub proof fn lemma_mask_below_bound(
    cols: int,
    rows: int,
    state: Seq<u8>,
    col: int,
    row: int,
    n: int,
)
    requires
        0 <= n <= 6,
    ensures
        0 <= mask_below(cols, rows, state, col, row, n) < bit_weight(n),
    decreases n,
{
    if n > 0 {
        lemma_mask_below_bound(cols, rows, state, col, row, n - 1);
    }
}

/// Setting bit `dir` of a mask that has no bit from `dir` upwards adds the
/// bit's weight to it.
pub proof fn lemma_set_bit(mask: u8, dir: u8)
    requires
        dir < 6,
        bit_weight(dir as int) > mask,
    ensures
        (1u8 << dir) == bit_weight(dir as int),
        (mask | (1u8 << dir)) == mask + bit_weight(dir as int),
{
    if dir == 0 {
        assert(mask < 1 ==> (1u8 << 0u8) == 1 && (mask | (1u8 << 0u8)) == mask + 1)
            by (bit_vector);
    } else if dir == 1 {
        assert(mask < 2 ==> (1u8 << 1u8) == 2 && (mask | (1u8 << 1u8)) == mask + 2)
            by (bit_vector);
    } else if dir == 2 {
        assert(mask < 4 ==> (1u8 << 2u8) == 4 && (mask | (1u8 << 2u8)) == mask + 4)
            by (bit_vector);
    } else if dir == 3 {
        assert(mask < 8 ==> (1u8 << 3u8) == 8 && (mask | (1u8 << 3u8)) == mask + 8)
            by (bit_vector);
    } else if dir == 4 {
        assert(mask < 16 ==> (1u8 << 4u8) == 16 && (mask | (1u8 << 4u8)) == mask + 16)
            by (bit_vector);
    } else {
        assert(mask < 32 ==> (1u8 << 5u8) == 32 && (mask | (1u8 << 5u8)) == mask + 32)
            by (bit_vector);
    }
}

/// Shifting a cell's value past the six mask bits of a byte keeps its low
/// two bits, and joining it with a mask is adding the mask.
pub proof fn lemma_join_rule(own: u8, mask: u8)
    requires
        mask < 64,
    ensures
        ((own << 6u8) | mask) as int == rule_index(own, mask as int),
{
    assert(mask < 64 ==> ((own << 6u8) | mask) == (own % 4) * 64 + mask) by (bit_vector);
}

/// Every cell selects a rule that the ruleset and the histogram have: a
/// value from 0 to 255.
pub proof fn lemma_cell_rule_bound(cols: int, rows: int, state: Seq<u8>, i: int)
    ensures
        0 <= cell_rule(cols, rows, state, i) < 256,
{
    lemma_mask_below_bound(cols, rows, state, i % cols, i / cols, 6);
}

/// The sum of the first `n` counters of a histogram.
pub open spec fn histogram_below(counters: Seq<u32>, n: int) -> int
    decreases n,
{
    if n <= 0 {
        0
    } else {
        histogram_below(counters, n - 1) + counters[n - 1] as int
    }
}

/// The sum of all counters of a histogram.
pub open spec fn histogram_total(counters: Seq<u32>) -> int {
    histogram_below(counters, counters.len() as int)
}

/// How many times the first `n` cells select a rule below `rules`.
pub open spec fn usage_below(cols: int, rows: int, state: Seq<u8>, rules: int, n: int) -> int
    decreases rules,
{
    if rules <= 0 {
        0
    } else {
        usage_below(cols, rows, state, rules - 1, n) + usage_count(
            cols,
            rows,
            state,
            rules - 1,
            n,
        )
    }
}

/// A count of cells is not negative, and not more than the cells counted.
pub proof fn lemma_usage_count_bound(cols: int, rows: int, state: Seq<u8>, rule: int, n: int)
    requires
        0 <= n,
    ensures
        0 <= usage_count(cols, rows, state, rule, n) <= n,
    decreases n,
{
    if n > 0 {
        lemma_usage_count_bound(cols, rows, state, rule, n - 1);
    }
}

/// One more cell adds one to the usage of the rules below `rules` if its
/// rule is among them, and nothing if not.
pub proof fn lemma_usage_below_step(cols: int, rows: int, state: Seq<u8>, rules: int, n: int)
    requires
        0 <= n,
        0 <= rules,
    ensures
        usage_below(cols, rows, state, rules, n + 1) == usage_below(cols, rows, state, rules, n)
            + if 0 <= cell_rule(cols, rows, state, n) < rules {
            1int
        } else {
            0int
        },
    decreases rules,
{
    if rules > 0 {
        lemma_usage_below_step(cols, rows, state, rules - 1, n);
    }
}

/// Every cell selects exactly one rule: over all 256 rules, the first `n`
/// cells are counted `n` times.
pub proof fn lemma_usage_covers_cells(cols: int, rows: int, state: Seq<u8>, n: int)
    requires
        0 <= n,
    ensures
        usage_below(cols, rows, state, 256, n) == n,
    decreases n,
{
    if n > 0 {
        lemma_usage_covers_cells(cols, rows, state, n - 1);
        lemma_usage_below_step(cols, rows, state, 256, n - 1);
        lemma_cell_rule_bound(cols, rows, state, n - 1);
    } else {
        lemma_usage_below_zero(cols, rows, state, 256);
    }
}

/// No cells, no usage.
proof fn lemma_usage_below_zero(cols: int, rows: int, state: Seq<u8>, rules: int)
    ensures
        usage_below(cols, rows, state, rules, 0) == 0,
    decreases rules,
{
    if rules > 0 {
        lemma_usage_below_zero(cols, rows, state, rules - 1);
    }
}

/// Where every counter below `m` grew by the usage of its rule, their sum
/// grew by the usage of the rules below `m`.
proof fn lemma_histogram_growth(
    cols: int,
    rows: int,
    state: Seq<u8>,
    before: Seq<u32>,
    after: Seq<u32>,
    n: int,
    m: int,
)
    requires
        0 <= m <= before.len(),
        before.len() == after.len(),
        forall|rule: int|
            0 <= rule < m ==> #[trigger] after[rule] as int == before[rule] as int + usage_count(
                cols,
                rows,
                state,
                rule,
                n,
            ),
    ensures
        histogram_below(after, m) == histogram_below(before, m) + usage_below(
            cols,
            rows,
            state,
            m,
            n,
        ),
    decreases m,
{
    if m > 0 {
        lemma_histogram_growth(cols, rows, state, before, after, n, m - 1);
        assert(after[m - 1] as int == before[m - 1] as int + usage_count(
            cols,
            rows,
            state,
            m - 1,
            n,
        ));
    }
}

/// A step is a function of its inputs: two results of a step on the same
/// grid, ruleset, state and counters are the same next state, the same rule
/// trace and the same counters.
pub proof fn lemma_tick_deterministic(
    cols: int,
    rows: int,
    ruleset: Seq<u8>,
    state: Seq<u8>,
    before: Seq<u32>,
    next1: Seq<u8>,
    indices1: Seq<u8>,
    after1: Seq<u32>,
    next2: Seq<u8>,
    indices2: Seq<u8>,
    after2: Seq<u32>,
)
    requires
        state.len() == cols * rows,
        tick_result(cols, rows, ruleset, state, next1, indices1, before, after1),
        tick_result(cols, rows, ruleset, state, next2, indices2, before, after2),
    ensures
        next1 == next2,
        indices1 == indices2,
        after1 == after2,
{
    assert(next1 =~= next2);
    assert(indices1 =~= indices2);
    assert(after1 =~= after2);
}

/// A step adds one to the histogram for every cell: where no counter passes
/// its largest value, the sum of the counters grows by the number of cells.
pub proof fn lemma_histogram_conservation(
    cols: int,
    rows: int,
    ruleset: Seq<u8>,
    state: Seq<u8>,
    next: Seq<u8>,
    indices: Seq<u8>,
    before: Seq<u32>,
    after: Seq<u32>,
)
    requires
        cols >= 1,
        rows >= 1,
        state.len() == cols * rows,
        before.len() == RULE_COUNT,
        tick_result(cols, rows, ruleset, state, next, indices, before, after),
        forall|rule: int|
            0 <= rule < RULE_COUNT ==> before[rule] + usage_count(
                cols,
                rows,
                state,
                rule,
                cols * rows,
            ) <= u32::MAX,
    ensures
        histogram_total(after) - histogram_total(before) == cols * rows,
{
    let n = cols * rows;
    assert forall|rule: int| 0 <= rule < 256 implies #[trigger] after[rule] as int
        == before[rule] as int + usage_count(cols, rows, state, rule, n) by {
        lemma_usage_count_bound(cols, rows, state, rule, n);
    }
    lemma_histogram_growth(cols, rows, state, before, after, n, 256);
    lemma_usage_covers_cells(cols, rows, state, n);
}

/// The rule trace of a step holds values from 0 to 255 that are the rules
/// themselves: no rule is cut short to fit its byte.
pub proof fn lemma_rule_trace_bound(
    cols: int,
    rows: int,
    ruleset: Seq<u8>,
    state: Seq<u8>,
    next: Seq<u8>,
    indices: Seq<u8>,
    before: Seq<u32>,
    after: Seq<u32>,
    i: int,
)
    requires
        state.len() == cols * rows,
        tick_result(cols, rows, ruleset, state, next, indices, before, after),
        0 <= i < cols * rows,
    ensures
        0 <= indices[i] <= 255,
        indices[i] as int == cell_rule(cols, rows, state, i),
        0 <= cell_rule(cols, rows, state, i) <= 255,
{
    lemma_cell_rule_bound(cols, rows, state, i);
}

} // verus!
