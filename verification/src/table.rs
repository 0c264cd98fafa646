//! The widths of a table's columns, by the width at which text is displayed.

use crate::groups::{GroupModel, Groups};
use crate::status::StatusEntry;
use vstd::prelude::*;

verus! {

/// The number of terminal columns that a text takes when it is displayed.
/// Wide characters count twice and combining ones not at all, so this is
/// neither the number of bytes nor the number of characters.
pub uninterp spec fn display_width(text: Seq<char>) -> nat;

/// `unicode_width::UnicodeWidthStr::width`: the displayed width of `text`,
/// which depends on the text alone.
#[verifier::external_body]
pub(crate) fn width_of(text: &str) -> (width: usize)
    ensures
        width == display_width(text@),
{
    unicode_width::UnicodeWidthStr::width(text)
}

/// The larger of two numbers.
pub open spec fn larger(a: nat, b: nat) -> nat {
    if a >= b {
        a
    } else {
        b
    }
}

/// The number of columns of an entry.
pub open spec fn column_count(entry: StatusEntry) -> nat {
    match entry.cols {
        Some(cols) => cols@.len(),
        None => 0,
    }
}

/// The displayed width of an entry's cell in `column`: 0 where the entry has
/// no such cell.
pub open spec fn cell_width(entry: StatusEntry, column: int) -> nat {
    match entry.cols {
        Some(cols) => if 0 <= column < cols@.len() {
            display_width(cols@[column]@)
        } else {
            0
        },
        None => 0,
    }
}

/// The largest number of columns among the rows.
pub open spec fn rows_columns(rows: Seq<StatusEntry>) -> nat
    decreases rows.len(),
{
    if rows.len() == 0 {
        0
    } else {
        larger(rows_columns(rows.drop_last()), column_count(rows.last()))
    }
}

/// The largest displayed width among the rows' cells in `column`.
pub open spec fn rows_width(rows: Seq<StatusEntry>, column: int) -> nat
    decreases rows.len(),
{
    if rows.len() == 0 {
        0
    } else {
        larger(rows_width(rows.drop_last(), column), cell_width(rows.last(), column))
    }
}

/// The number of columns of the table: the largest number of columns of any
/// row of any group.
pub open spec fn table_columns(groups: Seq<GroupModel>) -> nat
    decreases groups.len(),
{
    if groups.len() == 0 {
        0
    } else {
        larger(table_columns(groups.drop_last()), rows_columns(groups.last().entries))
    }
}

/// The width of a column of the table: the largest displayed width among the
/// cells that the rows of all groups have in that column.
pub open spec fn table_width(groups: Seq<GroupModel>, column: int) -> nat
    decreases groups.len(),
{
    if groups.len() == 0 {
        0
    } else {
        larger(table_width(groups.drop_last(), column), rows_width(groups.last().entries, column))
    }
}

/// The widths of all columns of the table.
pub open spec fn widths_of(groups: Seq<GroupModel>) -> Seq<usize> {
    Seq::new(table_columns(groups), |column: int| table_width(groups, column) as usize)
}

/// The width at `column`, or 0 behind the end of `widths`.
pub open spec fn width_at(widths: Seq<usize>, column: int) -> nat {
    if 0 <= column < widths.len() {
        widths[column] as nat
    } else {
        0
    }
}

/// Behind the last column of the rows every width is 0.
pub proof fn rows_width_beyond(rows: Seq<StatusEntry>, column: int)
    requires
        column >= rows_columns(rows),
    ensures
        rows_width(rows, column) == 0,
    decreases rows.len(),
{
    if rows.len() > 0 {
        rows_width_beyond(rows.drop_last(), column);
    }
}

/// Behind the last column of the table every width is 0.
pub proof fn table_width_beyond(groups: Seq<GroupModel>, column: int)
    requires
        column >= table_columns(groups),
    ensures
        table_width(groups, column) == 0,
    decreases groups.len(),
{
    if groups.len() > 0 {
        table_width_beyond(groups.drop_last(), column);
        rows_width_beyond(groups.last().entries, column);
    }
}

/// Widens `widths` so that a cell of the displayed width `width` fits in
/// `column`. Columns that were missing up to there get the width 0.
pub fn widen(widths: &mut Vec<usize>, column: usize, width: usize)
    ensures
        final(widths)@.len() == larger(old(widths)@.len(), (column + 1) as nat),
        forall|c: int|
            0 <= c < final(widths)@.len() ==> #[trigger] final(widths)@[c] == (if c == column {
                larger(width_at(old(widths)@, c), width as nat)
            } else {
                width_at(old(widths)@, c)
            }),
{
    let ghost before = widths@;
    while widths.len() < column
        invariant
            widths@.len() == larger(before.len(), widths@.len()),
            widths@.len() <= larger(before.len(), column as nat),
            forall|c: int| 0 <= c < widths@.len() ==> #[trigger] widths@[c] == width_at(before, c),
        decreases column - widths.len(),
    {
        widths.push(0);
    }
    if column < widths.len() {
        if width > widths[column] {
            widths.set(column, width);
        }
    } else {
        widths.push(width);
    }
}

/// Widens `widths` so that the cells of `entry` fit.
fn absorb_entry(widths: &mut Vec<usize>, entry: &StatusEntry)
    ensures
        final(widths)@.len() == larger(old(widths)@.len(), column_count(*entry)),
        forall|column: int|
            0 <= column < final(widths)@.len() ==> #[trigger] final(widths)@[column] == larger(
                width_at(old(widths)@, column),
                cell_width(*entry, column),
            ),
{
    let ghost before = widths@;
    match &entry.cols {
        None => {},
        Some(cols) => {
            let mut i: usize = 0;
            while i < cols.len()
                invariant
                    entry.cols == Some(*cols),
                    i <= cols@.len(),
                    widths@.len() == larger(before.len(), i as nat),
                    forall|column: int|
                        0 <= column < widths@.len() ==> #[trigger] widths@[column] == (if column
                            < i {
                            larger(width_at(before, column), cell_width(*entry, column))
                        } else {
                            width_at(before, column)
                        }),
                decreases cols.len() - i,
            {
                let width = width_of(cols[i].as_str());
                widen(widths, i, width);
                i = i + 1;
            }
        },
    }
}

/// Widens `widths` so that the cells of all `rows` fit.
fn absorb_rows(widths: &mut Vec<usize>, rows: &Vec<StatusEntry>)
    ensures
        final(widths)@.len() == larger(old(widths)@.len(), rows_columns(rows@)),
        forall|column: int|
            0 <= column < final(widths)@.len() ==> #[trigger] final(widths)@[column] == larger(
                width_at(old(widths)@, column),
                rows_width(rows@, column),
            ),
{
    let ghost before = widths@;
    let mut r: usize = 0;
    while r < rows.len()
        invariant
            r <= rows@.len(),
            widths@.len() == larger(before.len(), rows_columns(rows@.take(r as int))),
            forall|column: int|
                0 <= column < widths@.len() ==> #[trigger] widths@[column] == larger(
                    width_at(before, column),
                    rows_width(rows@.take(r as int), column),
                ),
        decreases rows.len() - r,
    {
        proof {
            assert(rows@.take(r + 1).drop_last() =~= rows@.take(r as int));
            assert forall|column: int| column >= widths@.len() implies rows_width(
                rows@.take(r as int),
                column,
            ) == 0 by {
                rows_width_beyond(rows@.take(r as int), column);
            }
        }
        let ghost earlier = widths@;
        absorb_entry(widths, &rows[r]);
        proof {
            let next = rows@.take(r + 1);
            assert(next.last() == rows@[r as int]);
            assert(rows_columns(next) == larger(
                rows_columns(rows@.take(r as int)),
                column_count(rows@[r as int]),
            ));
            assert forall|column: int| 0 <= column < widths@.len() implies
                #[trigger] widths@[column] == larger(
                width_at(before, column),
                rows_width(next, column),
            ) by {
                assert(width_at(earlier, column) == larger(
                    width_at(before, column),
                    rows_width(rows@.take(r as int), column),
                ));
            }
        }
        r = r + 1;
    }
    proof {
        assert(rows@.take(rows@.len() as int) =~= rows@);
    }
}

/// The width of each column of the table: the largest displayed width among
/// the cells of that column, over the rows of all groups. There are as many
/// widths as the longest row has columns.
pub fn column_widths(groups: &Groups) -> (widths: Vec<usize>)
    ensures
        widths@ == widths_of(groups@),
        forall|column: int|
            0 <= column < widths@.len() ==> #[trigger] widths@[column] == table_width(
                groups@,
                column,
            ),
{
    let mut widths: Vec<usize> = Vec::new();
    let mut g: usize = 0;
    while g < groups.len()
        invariant
            g <= groups@.len(),
            widths@.len() == table_columns(groups@.take(g as int)),
            forall|column: int|
                0 <= column < widths@.len() ==> #[trigger] widths@[column] == table_width(
                    groups@.take(g as int),
                    column,
                ),
        decreases groups@.len() - g,
    {
        proof {
            assert(groups@.take(g + 1).drop_last() =~= groups@.take(g as int));
            assert forall|column: int| column >= widths@.len() implies table_width(
                groups@.take(g as int),
                column,
            ) == 0 by {
                table_width_beyond(groups@.take(g as int), column);
            }
        }
        let ghost before = widths@;
        match groups.get(g) {
            Some(group) => {
                absorb_rows(&mut widths, &group.entries);
                proof {
                    let next = groups@.take(g + 1);
                    assert(next.last() == group@);
                    assert(table_columns(next) == larger(
                        table_columns(groups@.take(g as int)),
                        rows_columns(group.entries@),
                    ));
                    assert forall|column: int| 0 <= column < widths@.len() implies
                        #[trigger] widths@[column] == table_width(next, column) by {
                        assert(width_at(before, column) == table_width(
                            groups@.take(g as int),
                            column,
                        ));
                    }
                }
            },
            None => {},
        }
        g = g + 1;
    }
    proof {
        assert(groups@.take(groups@.len() as int) =~= groups@);
        assert(widths@ =~= widths_of(groups@));
    }
    widths
}

/// No cell of the rows is wider than the rows' width in its column, and no
/// row has more columns than the rows have.
pub proof fn rows_width_covers(rows: Seq<StatusEntry>, column: int, j: int)
    requires
        0 <= j < rows.len(),
    ensures
        cell_width(rows[j], column) <= rows_width(rows, column),
        column_count(rows[j]) <= rows_columns(rows),
    decreases rows.len(),
{
    if j < rows.len() - 1 {
        rows_width_covers(rows.drop_last(), column, j);
    }
}

/// A column that the rows have is as wide as one of their cells in it.
pub proof fn rows_width_attained(rows: Seq<StatusEntry>, column: int)
    requires
        0 <= column < rows_columns(rows),
    ensures
        exists|j: int|
            0 <= j < rows.len() && column < column_count(#[trigger] rows[j]) && cell_width(
                rows[j],
                column,
            ) == rows_width(rows, column),
    decreases rows.len(),
{
    let rest = rows.drop_last();
    let last = rows.last();
    if column < column_count(last) && cell_width(last, column) >= rows_width(rest, column) {
        assert(rows[rows.len() - 1] == last);
    } else {
        if column >= rows_columns(rest) {
            rows_width_beyond(rest, column);
        }
        rows_width_attained(rest, column);
        let j = choose|j: int|
            0 <= j < rest.len() && column < column_count(#[trigger] rest[j]) && cell_width(
                rest[j],
                column,
            ) == rows_width(rest, column);
        assert(rows[j] == rest[j]);
    }
}

/// The width of a column covers every cell of that column: no cell of any
/// row of any group is displayed wider.
pub proof fn table_width_covers(groups: Seq<GroupModel>, column: int, i: int, j: int)
    requires
        0 <= i < groups.len(),
        0 <= j < groups[i].entries.len(),
    ensures
        cell_width(groups[i].entries[j], column) <= table_width(groups, column),
        column_count(groups[i].entries[j]) <= table_columns(groups),
    decreases groups.len(),
{
    if i < groups.len() - 1 {
        table_width_covers(groups.drop_last(), column, i, j);
    } else {
        rows_width_covers(groups[i].entries, column, j);
    }
}

/// The width of a column is the displayed width of one of its cells: the
/// widest one.
pub proof fn table_width_attained(groups: Seq<GroupModel>, column: int)
    requires
        0 <= column < table_columns(groups),
    ensures
        exists|i: int, j: int|
            0 <= i < groups.len() && 0 <= j < groups[i].entries.len() && column < column_count(
                #[trigger] groups[i].entries[j],
            ) && cell_width(groups[i].entries[j], column) == table_width(groups, column),
    decreases groups.len(),
{
    let rest = groups.drop_last();
    let last = groups.last();
    if column < rows_columns(last.entries) && rows_width(last.entries, column) >= table_width(
        rest,
        column,
    ) {
        rows_width_attained(last.entries, column);
        let j = choose|j: int|
            0 <= j < last.entries.len() && column < column_count(#[trigger] last.entries[j])
                && cell_width(last.entries[j], column) == rows_width(last.entries, column);
        let i = groups.len() - 1;
        assert(groups[i].entries[j] == last.entries[j]);
    } else {
        if column >= rows_columns(last.entries) {
            rows_width_beyond(last.entries, column);
        }
        if column >= table_columns(rest) {
            table_width_beyond(rest, column);
        }
        table_width_attained(rest, column);
        let (i, j) = choose|i: int, j: int|
            0 <= i < rest.len() && 0 <= j < rest[i].entries.len() && column < column_count(
                #[trigger] rest[i].entries[j],
            ) && cell_width(rest[i].entries[j], column) == table_width(rest, column);
        assert(groups[i].entries[j] == rest[i].entries[j]);
    }
}

} // verus!
