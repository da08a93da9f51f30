//! The fixed keyboard layout.
//!
//! Four staggered rows of keys are written as rows of characters. A
//! character's column is its index within its row string, so the leading
//! spaces of a row shift its keys rightward, approximating the stagger of a
//! physical keyboard. Spaces are separators and are never assigned a
//! position. If a character occurred twice, the last occurrence would win;
//! the fixed layout has no duplicates.

use vstd::prelude::*;
use crate::point::Point;

verus! {

/// The digits row: `1  2  3  4  5  6  7  8  9  0  - `.
pub open spec fn row_digits() -> Seq<char> {
    seq![
        '1', ' ', ' ', '2', ' ', ' ', '3', ' ', ' ', '4', ' ', ' ', '5', ' ', ' ',
        '6', ' ', ' ', '7', ' ', ' ', '8', ' ', ' ', '9', ' ', ' ', '0', ' ', ' ',
        '-', ' ',
    ]
}

/// The top letter row: ` q  w  e  r  t  y  u  i  o  p `.
pub open spec fn row_top() -> Seq<char> {
    seq![
        ' ', 'q', ' ', ' ', 'w', ' ', ' ', 'e', ' ', ' ', 'r', ' ', ' ', 't', ' ',
        ' ', 'y', ' ', ' ', 'u', ' ', ' ', 'i', ' ', ' ', 'o', ' ', ' ', 'p', ' ',
    ]
}

/// The home row: `  a  s  d  f  g  h  j  k  l  ;  ' `.
pub open spec fn row_home() -> Seq<char> {
    seq![
        ' ', ' ', 'a', ' ', ' ', 's', ' ', ' ', 'd', ' ', ' ', 'f', ' ', ' ', 'g',
        ' ', ' ', 'h', ' ', ' ', 'j', ' ', ' ', 'k', ' ', ' ', 'l', ' ', ' ', ';',
        ' ', ' ', '\'', ' ',
    ]
}

/// The bottom letter row: `   z  x  c  v  b  n  m  ,  .  ? `.
pub open spec fn row_bottom() -> Seq<char> {
    seq![
        ' ', ' ', ' ', 'z', ' ', ' ', 'x', ' ', ' ', 'c', ' ', ' ', 'v', ' ', ' ',
        'b', ' ', ' ', 'n', ' ', ' ', 'm', ' ', ' ', ',', ' ', ' ', '.', ' ', ' ',
        '?', ' ',
    ]
}

/// The four rows of the layout, top to bottom.
pub open spec fn layout_rows() -> Seq<Seq<char>> {
    seq![row_digits(), row_top(), row_home(), row_bottom()]
}

/// The rows of the layout as executable vectors.
pub fn layout() -> (rows: Vec<Vec<char>>)
    ensures
        rows@.len() == layout_rows().len(),
        forall|r: int| 0 <= r < rows@.len() ==> rows@[r]@ == layout_rows()[r],
{
    let row0: Vec<char> = vec![
        '1', ' ', ' ', '2', ' ', ' ', '3', ' ', ' ', '4', ' ', ' ', '5', ' ', ' ',
        '6', ' ', ' ', '7', ' ', ' ', '8', ' ', ' ', '9', ' ', ' ', '0', ' ', ' ',
        '-', ' ',
    ];
    let row1: Vec<char> = vec![
        ' ', 'q', ' ', ' ', 'w', ' ', ' ', 'e', ' ', ' ', 'r', ' ', ' ', 't', ' ',
        ' ', 'y', ' ', ' ', 'u', ' ', ' ', 'i', ' ', ' ', 'o', ' ', ' ', 'p', ' ',
    ];
    let row2: Vec<char> = vec![
        ' ', ' ', 'a', ' ', ' ', 's', ' ', ' ', 'd', ' ', ' ', 'f', ' ', ' ', 'g',
        ' ', ' ', 'h', ' ', ' ', 'j', ' ', ' ', 'k', ' ', ' ', 'l', ' ', ' ', ';',
        ' ', ' ', '\'', ' ',
    ];
    let row3: Vec<char> = vec![
        ' ', ' ', ' ', 'z', ' ', ' ', 'x', ' ', ' ', 'c', ' ', ' ', 'v', ' ', ' ',
        'b', ' ', ' ', 'n', ' ', ' ', 'm', ' ', ' ', ',', ' ', ' ', '.', ' ', ' ',
        '?', ' ',
    ];
    proof {
        assert(row0@ =~= row_digits());
        assert(row1@ =~= row_top());
        assert(row2@ =~= row_home());
        assert(row3@ =~= row_bottom());
    }
    let mut rows: Vec<Vec<char>> = Vec::new();
    rows.push(row0);
    rows.push(row1);
    rows.push(row2);
    rows.push(row3);
    rows
}

/// The position map after recording the first `upto` characters of `row`
/// (row number `row_idx`) on top of `m`: spaces are skipped, every other
/// character is mapped to its (column, row) position, overwriting any
/// earlier entry.
pub open spec fn positions_in_row(
    m: Map<char, Point>,
    row: Seq<char>,
    row_idx: int,
    upto: int,
) -> Map<char, Point>
    decreases upto,
{
    if upto <= 0 {
        m
    } else {
        let prev = positions_in_row(m, row, row_idx, upto - 1);
        if row[upto - 1] == ' ' {
            prev
        } else {
            prev.insert(row[upto - 1], Point { x: (upto - 1) as i64, y: row_idx as i64 })
        }
    }
}

/// The position map after recording the first `upto` rows of `rows`.
pub open spec fn positions_upto(rows: Seq<Seq<char>>, upto: int) -> Map<char, Point>
    decreases upto,
{
    if upto <= 0 {
        Map::empty()
    } else {
        positions_in_row(
            positions_upto(rows, upto - 1),
            rows[upto - 1],
            upto - 1,
            rows[upto - 1].len() as int,
        )
    }
}

/// The position of every key of the layout.
pub open spec fn key_positions() -> Map<char, Point> {
    positions_upto(layout_rows(), layout_rows().len() as int)
}

/// The non-space characters among the first `upto` characters of `row`.
pub open spec fn row_chars_upto(row: Seq<char>, upto: int) -> Set<char> {
    Set::new(|c: char| c != ' ' && exists|i: int| 0 <= i < upto && i < row.len() && row[i] == c)
}

/// The non-space characters of the first `upto` rows of `rows`.
pub open spec fn rows_char_set(rows: Seq<Seq<char>>, upto: int) -> Set<char> {
    Set::new(
        |c: char|
            c != ' ' && exists|r: int, i: int|
                0 <= r < upto && 0 <= i < rows[r].len() && rows[r][i] == c,
    )
}

/// The non-space characters of the whole layout.
pub open spec fn layout_char_set() -> Set<char> {
    rows_char_set(layout_rows(), layout_rows().len() as int)
}

/// Recording a row extends the map's domain by exactly the row's non-space
/// characters.
pub proof fn lemma_positions_in_row_dom(m: Map<char, Point>, row: Seq<char>, row_idx: int, upto: int)
    requires
        0 <= upto <= row.len(),
    ensures
        positions_in_row(m, row, row_idx, upto).dom() =~= m.dom() + row_chars_upto(row, upto),
    decreases upto,
{
    if upto > 0 {
        lemma_positions_in_row_dom(m, row, row_idx, upto - 1);
        assert forall|c: char| row_chars_upto(row, upto).contains(c) implies
            row_chars_upto(row, upto - 1).contains(c) || (c == row[upto - 1] && c != ' ') by {
            let i = choose|i: int| 0 <= i < upto && i < row.len() && row[i] == c;
            if i < upto - 1 {
                assert(row_chars_upto(row, upto - 1).contains(c));
            }
        }
        assert forall|c: char| row_chars_upto(row, upto - 1).contains(c) implies
            row_chars_upto(row, upto).contains(c) by {
            let i = choose|i: int| 0 <= i < upto - 1 && i < row.len() && row[i] == c;
            assert(0 <= i < upto && i < row.len() && row[i] == c);
        }
        if row[upto - 1] != ' ' {
            assert(row_chars_upto(row, upto).contains(row[upto - 1]));
        }
    }
}

/// Recording rows extends the map's domain by exactly their non-space
/// characters.
pub proof fn lemma_positions_upto_dom(rows: Seq<Seq<char>>, upto: int)
    requires
        0 <= upto <= rows.len(),
    ensures
        positions_upto(rows, upto).dom() =~= rows_char_set(rows, upto),
    decreases upto,
{
    if upto > 0 {
        lemma_positions_upto_dom(rows, upto - 1);
        let row = rows[upto - 1];
        lemma_positions_in_row_dom(positions_upto(rows, upto - 1), row, upto - 1, row.len() as int);
        assert forall|c: char| rows_char_set(rows, upto).contains(c) implies
            rows_char_set(rows, upto - 1).contains(c) || row_chars_upto(row, row.len() as int).contains(c) by {
            let (r, i) = choose|r: int, i: int|
                0 <= r < upto && 0 <= i < rows[r].len() && rows[r][i] == c;
            if r < upto - 1 {
                assert(rows_char_set(rows, upto - 1).contains(c));
            } else {
                assert(0 <= i < row.len() && row[i] == c);
            }
        }
        assert forall|c: char| rows_char_set(rows, upto - 1).contains(c) implies
            rows_char_set(rows, upto).contains(c) by {
            let (r, i) = choose|r: int, i: int|
                0 <= r < upto - 1 && 0 <= i < rows[r].len() && rows[r][i] == c;
            assert(0 <= r < upto && 0 <= i < rows[r].len() && rows[r][i] == c);
        }
        assert forall|c: char| row_chars_upto(row, row.len() as int).contains(c) implies
            rows_char_set(rows, upto).contains(c) by {
            let i = choose|i: int| 0 <= i < row.len() && i < row.len() && row[i] == c;
            assert(0 <= upto - 1 < upto && 0 <= i < rows[upto - 1].len() && rows[upto - 1][i] == c);
        }
    }
}

/// The layout's key set is exactly its set of non-space characters.
pub proof fn lemma_key_positions_complete()
    ensures
        key_positions().dom() =~= layout_char_set(),
{
    lemma_positions_upto_dom(layout_rows(), layout_rows().len() as int);
}

} // verus!
