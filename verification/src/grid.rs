//! Protoboard grids and board filling.
//!
//! A protoboard grid is a sequence of rows of 'X' (filled) and '.' (empty)
//! cells.  Filling assigns `2^e` to each filled cell, consuming one decoded
//! exponent per filled cell in row-major order; empty cells get 0.

use vstd::prelude::*;
use crate::text::{count_ch, lemma_count_ch_push, lemma_count_ch_prefix_le, row_of_line,
    lemma_row_keeps_filled_count};

verus! {

/// Number of filled ('X') cells in a whole grid.
pub open spec fn count_filled_grid(rows: Seq<Seq<char>>) -> nat
    decreases rows.len(),
{
    if rows.len() == 0 {
        0
    } else {
        count_filled_grid(rows.drop_last()) + count_ch(rows.last(), 'X')
    }
}

/// The filled-cell count of a prefix of the rows never exceeds the total.
pub proof fn lemma_count_grid_prefix_le(rows: Seq<Seq<char>>, i: int)
    requires
        0 <= i <= rows.len(),
    ensures
        count_filled_grid(rows.subrange(0, i)) <= count_filled_grid(rows),
    decreases rows.len() - i,
{
    if i == rows.len() {
        assert(rows.subrange(0, i) =~= rows);
    } else {
        lemma_count_grid_prefix_le(rows, i + 1);
        assert(rows.subrange(0, i + 1).drop_last() =~= rows.subrange(0, i));
        assert(rows.subrange(0, i + 1).last() == rows[i]);
    }
}

/// Counts the filled ('X') cells of a grid.
pub fn count_filled(board: &Vec<Vec<char>>) -> (count: usize)
    requires
        count_filled_grid(board.deep_view()) <= usize::MAX,
    ensures
        count == count_filled_grid(board.deep_view()),
{
    let ghost rows = board.deep_view();
    let mut count: usize = 0;
    let mut i: usize = 0;
    while i < board.len()
        invariant
            0 <= i <= board@.len(),
            rows == board.deep_view(),
            count_filled_grid(rows) <= usize::MAX,
            count == count_filled_grid(rows.subrange(0, i as int)),
        decreases board@.len() - i,
    {
        let row = &board[i];
        let ghost rowv = rows[i as int];
        proof {
            assert(rowv =~= row@);
        }
        let mut j: usize = 0;
        while j < row.len()
            invariant
                0 <= j <= row@.len(),
                rowv == row@,
                rows == board.deep_view(),
                0 <= i < rows.len(),
                rowv == rows[i as int],
                count_filled_grid(rows) <= usize::MAX,
                count == count_filled_grid(rows.subrange(0, i as int)) + count_ch(
                    rowv.subrange(0, j as int),
                    'X',
                ),
            decreases row@.len() - j,
        {
            if row[j] == 'X' {
                proof {
                    lemma_count_ch_push_prefix(rowv, j as int);
                    lemma_count_ch_prefix_le(rowv, j + 1, 'X');
                    lemma_count_grid_prefix_bound(rows, i as int);
                }
                count = count + 1;
            } else {
                proof {
                    lemma_count_ch_push_prefix(rowv, j as int);
                }
            }
            j = j + 1;
        }
        proof {
            assert(rowv.subrange(0, rowv.len() as int) =~= rowv);
            assert(rows.subrange(0, i + 1).drop_last() =~= rows.subrange(0, i as int));
            assert(rows.subrange(0, i + 1).last() == rows[i as int]);
        }
        i = i + 1;
    }
    proof {
        assert(rows.subrange(0, rows.len() as int) =~= rows);
    }
    count
}

/// One scan step: the count over `row[..j+1]` extends the count over
/// `row[..j]` by the cell at `j`.
proof fn lemma_count_ch_push_prefix(row: Seq<char>, j: int)
    requires
        0 <= j < row.len(),
    ensures
        count_ch(row.subrange(0, j + 1), 'X') == count_ch(row.subrange(0, j), 'X') + if row[j]
            == 'X' {
            1nat
        } else {
            0nat
        },
{
    assert(row.subrange(0, j + 1).drop_last() =~= row.subrange(0, j));
    assert(row.subrange(0, j + 1).last() == row[j]);
}

/// A partial scan of row `i` stays within the grid's total count.
proof fn lemma_count_grid_prefix_bound(rows: Seq<Seq<char>>, i: int)
    requires
        0 <= i < rows.len(),
    ensures
        count_filled_grid(rows.subrange(0, i)) + count_ch(rows[i], 'X') <= count_filled_grid(rows),
{
    assert(rows.subrange(0, i + 1).drop_last() =~= rows.subrange(0, i));
    assert(rows.subrange(0, i + 1).last() == rows[i]);
    lemma_count_grid_prefix_le(rows, i + 1);
}

/// `2^e`.
pub open spec fn pow2(e: nat) -> nat
    decreases e,
{
    if e == 0 {
        1
    } else {
        2 * pow2((e - 1) as nat)
    }
}

/// `pow2` is monotone.
pub proof fn lemma_pow2_le(a: nat, b: nat)
    requires
        a <= b,
    ensures
        pow2(a) <= pow2(b),
    decreases b,
{
    if a < b {
        lemma_pow2_le(a, (b - 1) as nat);
    }
}

/// Computes `2^e` for the exponents a base-11 digit can carry.
pub fn tile_value(e: u32) -> (r: u32)
    requires
        e <= 11,
    ensures
        r == pow2(e as nat),
{
    proof {
        reveal_with_fuel(pow2, 12);
        assert(pow2(10) == 1024);
    }
    let mut r: u32 = 1;
    let mut i: u32 = 0;
    while i < e
        invariant
            0 <= i <= e <= 11,
            r == pow2(i as nat),
        decreases e - i,
    {
        proof {
            reveal_with_fuel(pow2, 12);
            lemma_pow2_le(i as nat, 10);
            assert(r <= 1024);
        }
        r = r * 2;
        i = i + 1;
    }
    r
}

/// Number of filled cells strictly before cell `(i, j)` in row-major order.
pub open spec fn filled_before(rows: Seq<Seq<char>>, i: int, j: int) -> nat {
    count_filled_grid(rows.subrange(0, i)) + count_ch(rows[i].subrange(0, j), 'X')
}

/// The filled grid: cell `(i, j)` carries `2^e` where `e` is the decoded
/// exponent consumed by the `filled_before(rows, i, j)`-th filled cell, and
/// empty cells carry 0.  The result has the shape of `rows`.
pub open spec fn spec_fill(rows: Seq<Seq<char>>, tiles: Seq<u32>) -> Seq<Seq<u32>> {
    Seq::new(
        rows.len(),
        |i: int|
            Seq::new(
                rows[i].len(),
                |j: int|
                    if rows[i][j] == 'X' {
                        pow2(tiles[filled_before(rows, i, j) as int] as nat) as u32
                    } else {
                        0u32
                    },
            ),
    )
}

/// Fills a protoboard with tile values decoded from a base-11 digit string:
/// filled cells receive `2^e`, one exponent per filled cell in row-major
/// order, and empty cells receive 0.
pub fn fill_board(proto: &Vec<Vec<char>>, tiles: &Vec<u32>) -> (filled: Vec<Vec<u32>>)
    requires
        tiles@.len() == count_filled_grid(proto.deep_view()),
        forall|k: int| 0 <= k < tiles@.len() ==> 1 <= #[trigger] tiles@[k] <= 11,
    ensures
        filled.deep_view() == spec_fill(proto.deep_view(), tiles@),
{
    let ghost rows = proto.deep_view();
    let ghost target = spec_fill(rows, tiles@);
    let n_tiles = tiles.len();
    let mut filled: Vec<Vec<u32>> = Vec::new();
    let mut next: usize = 0;
    let mut i: usize = 0;
    while i < proto.len()
        invariant
            0 <= i <= proto@.len(),
            n_tiles == tiles@.len(),
            rows == proto.deep_view(),
            target == spec_fill(rows, tiles@),
            tiles@.len() == count_filled_grid(rows),
            forall|k: int| 0 <= k < tiles@.len() ==> 1 <= #[trigger] tiles@[k] <= 11,
            next == count_filled_grid(rows.subrange(0, i as int)),
            filled.deep_view().len() == i,
            forall|k: int| 0 <= k < i ==> filled.deep_view()[k] == target[k],
        decreases proto@.len() - i,
    {
        let row = &proto[i];
        let ghost rowv = rows[i as int];
        proof {
            assert(rowv =~= row@);
        }
        let mut out_row: Vec<u32> = Vec::new();
        let mut j: usize = 0;
        while j < row.len()
            invariant
                0 <= j <= row@.len(),
                rowv == row@,
                rows == proto.deep_view(),
                0 <= i < rows.len(),
                rowv == rows[i as int],
                n_tiles == tiles@.len(),
                target == spec_fill(rows, tiles@),
                tiles@.len() == count_filled_grid(rows),
                forall|k: int| 0 <= k < tiles@.len() ==> 1 <= #[trigger] tiles@[k] <= 11,
                next == filled_before(rows, i as int, j as int),
                out_row@.len() == j,
                forall|k: int| 0 <= k < j ==> out_row@[k] == target[i as int][k],
            decreases row@.len() - j,
        {
            proof {
                lemma_count_ch_push_prefix(rowv, j as int);
            }
            if row[j] == 'X' {
                proof {
                    lemma_count_ch_prefix_le(rowv, j + 1, 'X');
                    lemma_count_grid_prefix_bound(rows, i as int);
                }
                let e = tiles[next];
                out_row.push(tile_value(e));
                next = next + 1;
            } else {
                out_row.push(0);
            }
            j = j + 1;
        }
        proof {
            assert(rowv.subrange(0, rowv.len() as int) =~= rowv);
            assert(rows.subrange(0, i + 1).drop_last() =~= rows.subrange(0, i as int));
            assert(rows.subrange(0, i + 1).last() == rows[i as int]);
            assert(out_row.deep_view() =~= target[i as int]);
        }
        filled.push(out_row);
        i = i + 1;
    }
    proof {
        assert(rows.subrange(0, rows.len() as int) =~= rows);
        assert(filled.deep_view() =~= target);
    }
    filled
}

/// Total filled-cell count of the lines a board was read from.
pub open spec fn count_x_lines(lines: Seq<Seq<char>>) -> nat
    decreases lines.len(),
{
    if lines.len() == 0 {
        0
    } else {
        count_x_lines(lines.drop_last()) + count_ch(lines.last(), 'X')
    }
}

/// A board built by reading grid rows from text lines has exactly as many
/// filled cells as those lines held 'X' characters.
pub proof fn lemma_board_filled_count(lines: Seq<Seq<char>>)
    ensures
        count_filled_grid(lines.map_values(|l: Seq<char>| row_of_line(l))) == count_x_lines(lines),
    decreases lines.len(),
{
    let rows = lines.map_values(|l: Seq<char>| row_of_line(l));
    if lines.len() > 0 {
        lemma_board_filled_count(lines.drop_last());
        lemma_row_keeps_filled_count(lines.last());
        assert(rows.drop_last() =~= lines.drop_last().map_values(
            |l: Seq<char>| row_of_line(l),
        ));
        assert(rows.last() == row_of_line(lines.last()));
    }
}

} // verus!
