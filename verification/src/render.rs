//! Text rendering of boards: one line per row, each cell followed by a
//! single space.  A protoboard renders its cell characters; a filled board
//! renders each tile value in decimal, with '.' for empty cells.

use vstd::prelude::*;

verus! {

/// The character for one decimal digit.
pub open spec fn digit_char(d: int) -> char {
    if d == 0 {
        '0'
    } else if d == 1 {
        '1'
    } else if d == 2 {
        '2'
    } else if d == 3 {
        '3'
    } else if d == 4 {
        '4'
    } else if d == 5 {
        '5'
    } else if d == 6 {
        '6'
    } else if d == 7 {
        '7'
    } else if d == 8 {
        '8'
    } else {
        '9'
    }
}

/// The decimal numeral of a non-negative number, most significant digit
/// first, without leading zeros (except for 0 itself).
pub open spec fn dec_digits(n: int) -> Seq<char>
    decreases n,
{
    if n < 10 {
        seq![digit_char(n)]
    } else {
        dec_digits(n / 10).push(digit_char(n % 10))
    }
}

/// Writes `n` in decimal.
pub fn dec_chars(n: u32) -> (r: Vec<char>)
    ensures
        r@ == dec_digits(n as int),
    decreases n,
{
    if n < 10 {
        let mut v: Vec<char> = Vec::new();
        v.push(digit_char_of(n));
        proof {
            assert(v@ =~= seq![digit_char(n as int)]);
        }
        v
    } else {
        let mut v = dec_chars(n / 10);
        v.push(digit_char_of(n % 10));
        v
    }
}

/// The character for one decimal digit.
fn digit_char_of(d: u32) -> (c: char)
    requires
        d <= 9,
    ensures
        c == digit_char(d as int),
{
    if d == 0 {
        '0'
    } else if d == 1 {
        '1'
    } else if d == 2 {
        '2'
    } else if d == 3 {
        '3'
    } else if d == 4 {
        '4'
    } else if d == 5 {
        '5'
    } else if d == 6 {
        '6'
    } else if d == 7 {
        '7'
    } else if d == 8 {
        '8'
    } else {
        '9'
    }
}

/// One rendered protoboard row: each cell character followed by a space.
pub open spec fn proto_row_chars(row: Seq<char>) -> Seq<char>
    decreases row.len(),
{
    if row.len() == 0 {
        Seq::empty()
    } else {
        proto_row_chars(row.drop_last()) + seq![row.last(), ' ']
    }
}

/// The rendered protoboard: one line per row.
pub open spec fn spec_render_proto(rows: Seq<Seq<char>>) -> Seq<Seq<char>> {
    Seq::new(rows.len(), |i: int| proto_row_chars(rows[i]))
}

/// Renders a protoboard grid, one line per row, cells followed by spaces.
pub fn render_board(board: &Vec<Vec<char>>) -> (r: Vec<Vec<char>>)
    ensures
        r.deep_view() == spec_render_proto(board.deep_view()),
{
    let ghost rows = board.deep_view();
    let mut r: Vec<Vec<char>> = Vec::new();
    let mut i: usize = 0;
    while i < board.len()
        invariant
            0 <= i <= board@.len(),
            rows == board.deep_view(),
            r.deep_view().len() == i,
            forall|k: int| 0 <= k < i ==> r.deep_view()[k] == proto_row_chars(rows[k]),
        decreases board@.len() - i,
    {
        let row = &board[i];
        let ghost rowv = rows[i as int];
        proof {
            assert(rowv =~= row@);
        }
        let mut line: Vec<char> = Vec::new();
        let mut j: usize = 0;
        while j < row.len()
            invariant
                0 <= j <= row@.len(),
                rowv == row@,
                line@ == proto_row_chars(rowv.subrange(0, j as int)),
            decreases row@.len() - j,
        {
            line.push(row[j]);
            line.push(' ');
            proof {
                assert(rowv.subrange(0, j + 1).drop_last() =~= rowv.subrange(0, j as int));
                assert(rowv.subrange(0, j + 1).last() == rowv[j as int]);
                assert(line@ =~= proto_row_chars(rowv.subrange(0, j as int)) + seq![
                    rowv[j as int],
                    ' ',
                ]);
            }
            j = j + 1;
        }
        proof {
            assert(rowv.subrange(0, rowv.len() as int) =~= rowv);
            assert(line.deep_view() =~= line@);
        }
        let ghost prev = r.deep_view();
        let ghost linev = line@;
        r.push(line);
        proof {
            assert(r.deep_view() =~= prev.push(linev));
        }
        i = i + 1;
    }
    proof {
        assert(r.deep_view() =~= spec_render_proto(rows));
    }
    r
}

/// One rendered filled-board cell: the tile value in decimal, or '.' for
/// an empty cell, followed by a space.
pub open spec fn value_cell_chars(v: u32) -> Seq<char> {
    if v == 0 {
        seq!['.', ' ']
    } else {
        dec_digits(v as int) + seq![' ']
    }
}

/// One rendered filled-board row.
pub open spec fn value_row_chars(row: Seq<u32>) -> Seq<char>
    decreases row.len(),
{
    if row.len() == 0 {
        Seq::empty()
    } else {
        value_row_chars(row.drop_last()) + value_cell_chars(row.last())
    }
}

/// The rendered filled board: one line per row.
pub open spec fn spec_render_values(rows: Seq<Seq<u32>>) -> Seq<Seq<char>> {
    Seq::new(rows.len(), |i: int| value_row_chars(rows[i]))
}

/// Renders a filled board, one line per row: tile values in decimal, '.'
/// for empty cells, each followed by a space.
pub fn render_board_with_values(board: &Vec<Vec<u32>>) -> (r: Vec<Vec<char>>)
    ensures
        r.deep_view() == spec_render_values(board.deep_view()),
{
    let ghost rows = board.deep_view();
    let mut r: Vec<Vec<char>> = Vec::new();
    let mut i: usize = 0;
    while i < board.len()
        invariant
            0 <= i <= board@.len(),
            rows == board.deep_view(),
            r.deep_view().len() == i,
            forall|k: int| 0 <= k < i ==> r.deep_view()[k] == value_row_chars(rows[k]),
        decreases board@.len() - i,
    {
        let row = &board[i];
        let ghost rowv = rows[i as int];
        proof {
            assert(rowv =~= row@);
        }
        let mut line: Vec<char> = Vec::new();
        let mut j: usize = 0;
        while j < row.len()
            invariant
                0 <= j <= row@.len(),
                rowv == row@,
                line@ == value_row_chars(rowv.subrange(0, j as int)),
            decreases row@.len() - j,
        {
            let v = row[j];
            if v == 0 {
                line.push('.');
                line.push(' ');
            } else {
                let digits = dec_chars(v);
                let mut k: usize = 0;
                let dn = digits.len();
                proof {
                    assert(value_row_chars(rowv.subrange(0, j as int)) + digits@.subrange(0, 0)
                        =~= value_row_chars(rowv.subrange(0, j as int)));
                }
                while k < dn
                    invariant
                        0 <= k <= dn == digits@.len(),
                        line@ == value_row_chars(rowv.subrange(0, j as int)) + digits@.subrange(
                            0,
                            k as int,
                        ),
                    decreases dn - k,
                {
                    line.push(digits[k]);
                    proof {
                        assert(digits@.subrange(0, k + 1) =~= digits@.subrange(0, k as int).push(
                            digits@[k as int],
                        ));
                    }
                    k = k + 1;
                }
                proof {
                    assert(digits@.subrange(0, dn as int) =~= digits@);
                }
                line.push(' ');
            }
            proof {
                assert(rowv.subrange(0, j + 1).drop_last() =~= rowv.subrange(0, j as int));
                assert(rowv.subrange(0, j + 1).last() == rowv[j as int]);
                assert(line@ =~= value_row_chars(rowv.subrange(0, j as int)) + value_cell_chars(
                    rowv[j as int],
                ));
            }
            j = j + 1;
        }
        proof {
            assert(rowv.subrange(0, rowv.len() as int) =~= rowv);
            assert(line.deep_view() =~= line@);
        }
        let ghost prev = r.deep_view();
        let ghost linev = line@;
        r.push(line);
        proof {
            assert(r.deep_view() =~= prev.push(linev));
        }
        i = i + 1;
    }
    proof {
        assert(r.deep_view() =~= spec_render_values(rows));
    }
    r
}

} // verus!
