//! Text for styled output: the lines of a text, and lining up the cells of rows of text
//! into columns.

use vstd::prelude::*;
use vstd::string::*;
use crate::keymap::strings_view;
use crate::width::{display_width, str_width};
use crate::highlight::{lines_with_endings, split_lines_with_endings};
use crate::text::{from_chars, sub_chars, to_chars};

verus! {

broadcast use vstd::seq_lib::group_seq_properties;

/// Rows of cells as text.
pub open spec fn rows_view(rows: Seq<Vec<String>>) -> Seq<Seq<Seq<char>>> {
    rows.map_values(|r: Vec<String>| strings_view(r@))
}

/// The number of columns: the length of the longest row.
pub open spec fn column_count(rows: Seq<Seq<Seq<char>>>) -> nat
    decreases rows.len(),
{
    if rows.len() == 0 {
        0
    } else {
        let n = column_count(rows.drop_last());
        if rows.last().len() > n {
            rows.last().len()
        } else {
            n
        }
    }
}

/// The width of column `c`: the widest of its cells.
pub open spec fn column_width(rows: Seq<Seq<Seq<char>>>, c: int) -> nat
    decreases rows.len(),
{
    if rows.len() == 0 {
        0
    } else {
        let w = column_width(rows.drop_last(), c);
        let r = rows.last();
        if 0 <= c < r.len() && str_width(r[c]) > w {
            str_width(r[c])
        } else {
            w
        }
    }
}

/// `n` spaces.
pub open spec fn spaces(n: nat) -> Seq<char> {
    Seq::new(n, |i: int| ' ')
}

/// Cell `cell` of column `c`, padded with spaces to the column's width.
pub open spec fn aligned_cell(rows: Seq<Seq<Seq<char>>>, c: int, cell: Seq<char>) -> Seq<char> {
    if str_width(cell) < column_width(rows, c) {
        cell + spaces((column_width(rows, c) - str_width(cell)) as nat)
    } else {
        cell
    }
}

/// The rows with every cell aligned.
pub open spec fn aligned(rows: Seq<Seq<Seq<char>>>) -> Seq<Seq<Seq<char>>> {
    Seq::new(
        rows.len(),
        |i: int| Seq::new(rows[i].len(), |c: int| aligned_cell(rows, c, rows[i][c])),
    )
}

fn count_columns(rows: &Vec<Vec<String>>) -> (n: usize)
    ensures
        n == column_count(rows_view(rows@)),
{
    let ghost rv = rows_view(rows@);
    let mut n: usize = 0;
    let mut i: usize = 0;
    proof {
        assert(rv.take(0) =~= Seq::<Seq<Seq<char>>>::empty());
    }
    while i < rows.len()
        invariant
            i <= rows@.len(),
            rv == rows_view(rows@),
            n == column_count(rv.take(i as int)),
        decreases rows@.len() - i,
    {
        proof {
            assert(rv.take(i + 1).drop_last() =~= rv.take(i as int));
            assert(rv.take(i + 1).last() == strings_view(rows@[i as int]@));
        }
        if rows[i].len() > n {
            n = rows[i].len();
        }
        i += 1;
    }
    proof {
        assert(rv.take(i as int) =~= rv);
    }
    n
}

fn width_of_column(rows: &Vec<Vec<String>>, c: usize) -> (w: usize)
    ensures
        w == column_width(rows_view(rows@), c as int),
{
    let ghost rv = rows_view(rows@);
    let mut w: usize = 0;
    let mut i: usize = 0;
    proof {
        assert(rv.take(0) =~= Seq::<Seq<Seq<char>>>::empty());
    }
    while i < rows.len()
        invariant
            i <= rows@.len(),
            rv == rows_view(rows@),
            w == column_width(rv.take(i as int), c as int),
        decreases rows@.len() - i,
    {
        proof {
            assert(rv.take(i + 1).drop_last() =~= rv.take(i as int));
            assert(rv.take(i + 1).last() == strings_view(rows@[i as int]@));
        }
        if c < rows[i].len() {
            let cw = display_width(rows[i][c].as_str());
            if cw > w {
                w = cw;
            }
        }
        i += 1;
    }
    proof {
        assert(rv.take(i as int) =~= rv);
    }
    w
}

/// `s` followed by `n` spaces.
fn pad(s: &String, n: usize) -> (r: String)
    ensures
        r@ == s@ + spaces(n as nat),
{
    let mut r = s.clone();
    let mut k: usize = 0;
    proof {
        reveal_strlit(" ");
        assert(s@ + spaces(0) =~= s@);
    }
    while k < n
        invariant
            k <= n,
            r@ == s@ + spaces(k as nat),
            " "@ == seq![' '],
        decreases n - k,
    {
        r.append(" ");
        proof {
            assert(s@ + spaces((k + 1) as nat) =~= s@ + spaces(k as nat) + seq![' ']);
        }
        k += 1;
    }
    r
}

/// No row is longer than the number of columns.
proof fn lemma_row_len_le_count(rows: Seq<Seq<Seq<char>>>, i: int)
    requires
        0 <= i < rows.len(),
    ensures
        rows[i].len() <= column_count(rows),
    decreases rows.len(),
{
    if i < rows.len() - 1 {
        lemma_row_len_le_count(rows.drop_last(), i);
    }
}

/// Pads every cell with spaces to its column's width, the width of the column's widest cell.
pub fn align_columns(rows: &mut Vec<Vec<String>>)
    ensures
        rows_view(final(rows)@) == aligned(rows_view(old(rows)@)),
{
    let ghost rv = rows_view(rows@);
    let count = count_columns(rows);
    let mut widths: Vec<usize> = Vec::new();
    let mut c: usize = 0;
    while c < count
        invariant
            c <= count,
            count == column_count(rv),
            rv == rows_view(rows@),
            widths@.len() == c,
            forall|k: int| 0 <= k < c ==> #[trigger] widths@[k] == column_width(rv, k),
        decreases count - c,
    {
        widths.push(width_of_column(rows, c));
        c += 1;
    }
    let mut out: Vec<Vec<String>> = Vec::new();
    let mut i: usize = 0;
    while i < rows.len()
        invariant
            i <= rows@.len(),
            rv == rows_view(rows@),
            count == column_count(rv),
            widths@.len() == count,
            forall|k: int| 0 <= k < count ==> #[trigger] widths@[k] == column_width(rv, k),
            out@.len() == i,
            forall|j: int| 0 <= j < i ==> #[trigger] strings_view(out@[j]@) == aligned(rv)[j],
        decreases rows@.len() - i,
    {
        let row = &rows[i];
        let mut cells: Vec<String> = Vec::new();
        let mut k: usize = 0;
        while k < row.len()
            invariant
                k <= row@.len(),
                *row == rows@[i as int],
                rv == rows_view(rows@),
                i < rows@.len(),
                count == column_count(rv),
                widths@.len() == count,
                forall|q: int| 0 <= q < count ==> #[trigger] widths@[q] == column_width(rv, q),
                cells@.len() == k,
                forall|q: int|
                    0 <= q < k ==> #[trigger] cells@[q]@ == aligned_cell(rv, q, rows@[i as int]@[q]@),
            decreases row@.len() - k,
        {
            let cell = &row[k];
            proof {
                assert(rv[i as int] == strings_view(rows@[i as int]@));
                lemma_row_len_le_count(rv, i as int);
                assert(widths@[k as int] == column_width(rv, k as int));
            }
            let cw = display_width(cell.as_str());
            let padded = if cw < widths[k] {
                pad(cell, widths[k] - cw)
            } else {
                cell.clone()
            };
            cells.push(padded);
            k += 1;
        }
        proof {
            assert(strings_view(cells@) =~= aligned(rv)[i as int]);
        }
        out.push(cells);
        i += 1;
    }
    proof {
        assert(rows_view(out@) =~= aligned(rv));
    }
    *rows = out;
}

/// A line without its line ending: `\r\n` or `\n`.
pub open spec fn without_ending(line: Seq<char>) -> Seq<char> {
    if line.len() >= 2 && line[line.len() - 2] == '\r' && line.last() == '\n' {
        line.take(line.len() - 2)
    } else if line.len() >= 1 && line.last() == '\n' {
        line.take(line.len() - 1)
    } else {
        line
    }
}

/// The lines of a text piece: one blank line for an empty piece, else its lines without
/// their endings (`\n` or `\r\n`; the last line needs none).
pub open spec fn piece_lines(s: Seq<char>) -> Seq<Seq<char>> {
    if s.len() == 0 {
        seq![Seq::<char>::empty()]
    } else {
        lines_with_endings(s).map_values(|l: Seq<char>| without_ending(l))
    }
}

pub(crate) fn strip_ending(line: &str) -> (r: String)
    ensures
        r@ == without_ending(line@),
{
    let c = to_chars(line);
    let n = c.len();
    let keep = if n >= 2 && c[n - 2] == '\r' && c[n - 1] == '\n' {
        n - 2
    } else if n >= 1 && c[n - 1] == '\n' {
        n - 1
    } else {
        n
    };
    let kept = sub_chars(&c, 0, keep);
    assert(kept@ =~= without_ending(c@));
    from_chars(kept.as_slice())
}

/// The lines that a text piece makes (see `piece_lines`).
pub fn text_lines(content: &str) -> (r: Vec<String>)
    ensures
        strings_view(r@) == piece_lines(content@),
{
    if content.unicode_len() == 0 {
        let mut r: Vec<String> = Vec::new();
        r.push(String::new());
        assert(strings_view(r@) =~= piece_lines(content@));
        return r;
    }
    let lines = split_lines_with_endings(content);
    let mut r: Vec<String> = Vec::new();
    let mut i: usize = 0;
    while i < lines.len()
        invariant
            i <= lines@.len(),
            lines@.len() == lines_with_endings(content@).len(),
            forall|k: int| 0 <= k < lines@.len() ==> #[trigger] lines@[k]@ == lines_with_endings(content@)[k],
            r@.len() == i,
            forall|k: int| 0 <= k < i ==> #[trigger] r@[k]@ == without_ending(lines_with_endings(content@)[k]),
        decreases lines@.len() - i,
    {
        r.push(strip_ending(lines[i].as_str()));
        i += 1;
    }
    assert(strings_view(r@) =~= piece_lines(content@));
    r
}

} // verus!
