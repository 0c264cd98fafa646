//! The lines of a status table: one header for each group, its rows aligned
//! in columns, and an empty line behind them.

use crate::groups::{Group, GroupModel, Groups};
use crate::status::{hue, hue_of, severity_of, StatusEntry};
use crate::style::Tint;
use crate::table::{column_widths, display_width, width_at, width_of, widths_of};
use crate::text::{blanks, spaces};
use vstd::prelude::*;

verus! {

/// How a table is laid out.
#[derive(Clone, Copy, Debug, PartialEq, Eq)]
pub struct Layout {
    /// The number of spaces between two columns.
    pub column_spacing: usize,
    /// The number of spaces before each row.
    pub indent: usize,
    /// Whether the keys of the groups are shown in bold.
    pub bold_keys: bool,
    /// Whether the rows are shown as statuses: with one space before the
    /// first cell, and in the colour of their severity.
    pub status_rows: bool,
}

/// One line of the table: a body that takes the tint, between a lead and a
/// tail that stay plain.
#[derive(Clone, Debug, PartialEq, Eq)]
pub struct Line {
    pub lead: String,
    pub body: String,
    pub tint: Tint,
    pub tail: String,
}

/// The mathematical value of a [`Line`].
pub ghost struct LineModel {
    pub lead: Seq<char>,
    pub body: Seq<char>,
    pub tint: Tint,
    pub tail: Seq<char>,
}

impl View for Line {
    type V = LineModel;

    open spec fn view(&self) -> LineModel {
        LineModel { lead: self.lead@, body: self.body@, tint: self.tint, tail: self.tail@ }
    }
}

/// The values of the lines.
pub open spec fn models(lines: Seq<Line>) -> Seq<LineModel> {
    lines.map_values(|line: Line| line@)
}

/// A text of the displayed width `width`, filled up with spaces to the width
/// of its column. A text that is wider than the column stays as it is. With
/// `lead`, one space stands before the text.
pub open spec fn padded_text(text: Seq<char>, width: nat, column_width: nat, lead: bool) -> Seq<
    char,
> {
    let start = if lead {
        seq![' ']
    } else {
        Seq::empty()
    };
    let fill = if column_width > width {
        (column_width - width) as nat
    } else {
        0
    };
    start + text + blanks(fill)
}

/// A cell as it stands in its row: the text, filled up with spaces to the
/// width of the column by the width at which it is displayed. With `lead`,
/// one space stands before the first cell.
pub open spec fn cell_text(text: Seq<char>, widths: Seq<usize>, column: int, lead: bool) -> Seq<
    char,
> {
    padded_text(text, display_width(text), width_at(widths, column), lead && column == 0)
}

/// The first `n` cells of a row, each filled up to the width of its column,
/// with `spacing` spaces between two cells.
pub open spec fn cells_text(
    cols: Seq<String>,
    widths: Seq<usize>,
    spacing: nat,
    lead: bool,
    n: int,
) -> Seq<char>
    decreases n,
{
    if n <= 0 {
        Seq::empty()
    } else if n == 1 {
        cell_text(cols[0]@, widths, 0, lead)
    } else {
        cells_text(cols, widths, spacing, lead, n - 1) + blanks(spacing) + cell_text(
            cols[n - 1]@,
            widths,
            n - 1,
            lead,
        )
    }
}

/// The text of a row: all its cells. A row without columns has no text.
pub open spec fn row_text(entry: StatusEntry, widths: Seq<usize>, spacing: nat, lead: bool) -> Seq<
    char,
> {
    match entry.cols {
        Some(cols) => cells_text(cols@, widths, spacing, lead, cols@.len() as int),
        None => Seq::empty(),
    }
}

/// The line of a row: the indent, then the row's text, which takes the
/// colour of the row's severity where rows are shown as statuses.
pub open spec fn row_line(entry: StatusEntry, widths: Seq<usize>, layout: Layout) -> LineModel {
    LineModel {
        lead: blanks(layout.indent as nat),
        body: row_text(entry, widths, layout.column_spacing as nat, layout.status_rows),
        tint: if layout.status_rows {
            Tint::Colored(
                hue_of(severity_of(entry.is_tracked, entry.local_status, entry.remote_status)),
            )
        } else {
            Tint::Plain
        },
        tail: Seq::empty(),
    }
}

/// The header of a group: its key in brackets.
pub open spec fn header_line(key: Seq<char>, layout: Layout) -> LineModel {
    LineModel {
        lead: seq!['['],
        body: key,
        tint: if layout.bold_keys {
            Tint::Bold
        } else {
            Tint::Plain
        },
        tail: seq![']'],
    }
}

/// An empty line.
pub open spec fn blank_line() -> LineModel {
    LineModel { lead: Seq::empty(), body: Seq::empty(), tint: Tint::Plain, tail: Seq::empty() }
}

/// The lines of the first `n` rows.
pub open spec fn rows_lines(rows: Seq<StatusEntry>, widths: Seq<usize>, layout: Layout) -> Seq<
    LineModel,
> {
    Seq::new(rows.len(), |j: int| row_line(rows[j], widths, layout))
}

/// The lines of a group: its header, its rows in their order, and an empty
/// line.
pub open spec fn group_lines(group: GroupModel, widths: Seq<usize>, layout: Layout) -> Seq<
    LineModel,
> {
    seq![header_line(group.key, layout)] + rows_lines(group.entries, widths, layout) + seq![
        blank_line(),
    ]
}

/// The lines of a table: those of its groups, in the order of the groups.
pub open spec fn table_lines(groups: Seq<GroupModel>, widths: Seq<usize>, layout: Layout) -> Seq<
    LineModel,
>
    decreases groups.len(),
{
    if groups.len() == 0 {
        Seq::empty()
    } else {
        table_lines(groups.drop_last(), widths, layout) + group_lines(
            groups.last(),
            widths,
            layout,
        )
    }
}

/// Fills a text of the displayed width `width` up to the width of its
/// column, with one space before it if `lead`.
pub fn pad_cell(text: &str, width: usize, column_width: usize, lead: bool) -> (cell: String)
    ensures
        cell@ == padded_text(text@, width as nat, column_width as nat, lead),
{
    let mut cell = String::new();
    if lead {
        proof {
            reveal_strlit(" ");
        }
        cell.append(" ");
        assert(cell@ =~= seq![' ']);
    }
    cell.append(text);
    let fill = if column_width > width {
        column_width - width
    } else {
        0
    };
    let blank = spaces(fill);
    cell.append(blank.as_str());
    cell
}

/// The text of a cell in its row.
fn lay_cell(text: &str, widths: &Vec<usize>, column: usize, lead: bool) -> (cell: String)
    ensures
        cell@ == cell_text(text@, widths@, column as int, lead),
{
    let column_width = if column < widths.len() {
        widths[column]
    } else {
        0
    };
    pad_cell(text, width_of(text), column_width, lead && column == 0)
}

/// The text of a row.
fn lay_row(entry: &StatusEntry, widths: &Vec<usize>, spacing: usize, lead: bool) -> (text: String)
    ensures
        text@ == row_text(*entry, widths@, spacing as nat, lead),
{
    let mut text = String::new();
    match &entry.cols {
        None => {},
        Some(cols) => {
            let gap = spaces(spacing);
            let mut i: usize = 0;
            while i < cols.len()
                invariant
                    i <= cols@.len(),
                    gap@ == blanks(spacing as nat),
                    text@ == cells_text(cols@, widths@, spacing as nat, lead, i as int),
                decreases cols.len() - i,
            {
                let cell = lay_cell(cols[i].as_str(), widths, i, lead);
                if i > 0 {
                    text.append(gap.as_str());
                }
                text.append(cell.as_str());
                proof {
                    if i == 0 {
                        assert(text@ =~= cell@);
                    }
                }
                i = i + 1;
            }
        },
    }
    text
}

/// Adds the lines of `group` to `lines`.
fn lay_group(lines: &mut Vec<Line>, group: &Group, widths: &Vec<usize>, layout: &Layout)
    ensures
        models(final(lines)@) == models(old(lines)@) + group_lines(group@, widths@, *layout),
{
    let ghost before = models(lines@);
    proof {
        reveal_strlit("[");
        reveal_strlit("]");
    }
    let header = Line {
        lead: String::from_str("["),
        body: group.key.clone(),
        tint: if layout.bold_keys {
            Tint::Bold
        } else {
            Tint::Plain
        },
        tail: String::from_str("]"),
    };
    assert(header.lead@ =~= seq!['[']);
    assert(header.tail@ =~= seq![']']);
    assert(header@ == header_line(group@.key, *layout));
    lines.push(header);
    let ghost rows = rows_lines(group@.entries, widths@, *layout);
    let mut j: usize = 0;
    while j < group.entries.len()
        invariant
            j <= group.entries@.len(),
            rows == rows_lines(group@.entries, widths@, *layout),
            models(lines@) == before + seq![header_line(group@.key, *layout)] + rows.take(
                j as int,
            ),
        decreases group.entries.len() - j,
    {
        let entry = &group.entries[j];
        let line = Line {
            lead: spaces(layout.indent),
            body: lay_row(entry, widths, layout.column_spacing, layout.status_rows),
            tint: if layout.status_rows {
                Tint::Colored(hue(entry.severity()))
            } else {
                Tint::Plain
            },
            tail: String::new(),
        };
        assert(line@ == rows[j as int]);
        let ghost earlier = models(lines@);
        lines.push(line);
        proof {
            assert(models(lines@) =~= earlier.push(line@));
            assert(rows.take(j + 1) =~= rows.take(j as int).push(rows[j as int]));
        }
        j = j + 1;
    }
    let blank = Line {
        lead: String::new(),
        body: String::new(),
        tint: Tint::Plain,
        tail: String::new(),
    };
    let ghost earlier = models(lines@);
    lines.push(blank);
    proof {
        assert(rows.take(rows.len() as int) =~= rows);
        assert(models(lines@) =~= earlier.push(blank_line()));
        assert(models(lines@) =~= before + group_lines(group@, widths@, *layout));
    }
}

/// Lays the groups out as the lines of a table. Each column is as wide as
/// its widest cell is displayed, over all groups. The groups come in the
/// order of their keys and the rows of a group in their own order.
pub fn lay_out(groups: &Groups, layout: &Layout) -> (lines: Vec<Line>)
    ensures
        models(lines@) == table_lines(groups@, widths_of(groups@), *layout),
{
    let widths = column_widths(groups);
    let mut lines: Vec<Line> = Vec::new();
    let mut g: usize = 0;
    assert(models(lines@) =~= Seq::<LineModel>::empty());
    while g < groups.len()
        invariant
            g <= groups@.len(),
            widths@ == widths_of(groups@),
            models(lines@) == table_lines(groups@.take(g as int), widths@, *layout),
        decreases groups@.len() - g,
    {
        proof {
            assert(groups@.take(g + 1).drop_last() =~= groups@.take(g as int));
        }
        match groups.get(g) {
            Some(group) => {
                lay_group(&mut lines, group, &widths, layout);
            },
            None => {},
        }
        g = g + 1;
    }
    proof {
        assert(groups@.take(groups@.len() as int) =~= groups@);
    }
    lines
}

/// The number of rows of all groups together.
pub open spec fn row_count(groups: Seq<GroupModel>) -> nat
    decreases groups.len(),
{
    if groups.len() == 0 {
        0
    } else {
        row_count(groups.drop_last()) + groups.last().entries.len()
    }
}

/// A table has one line for each row, and a header and an empty line for
/// each group.
pub proof fn table_line_count(groups: Seq<GroupModel>, widths: Seq<usize>, layout: Layout)
    ensures
        table_lines(groups, widths, layout).len() == 2 * groups.len() + row_count(groups),
    decreases groups.len(),
{
    if groups.len() > 0 {
        table_line_count(groups.drop_last(), widths, layout);
    }
}

/// Without bold keys and status rows, every line of the table is plain.
pub proof fn plain_layout_has_plain_lines(
    groups: Seq<GroupModel>,
    widths: Seq<usize>,
    layout: Layout,
)
    requires
        !layout.bold_keys,
        !layout.status_rows,
    ensures
        forall|i: int|
            0 <= i < table_lines(groups, widths, layout).len() ==> (#[trigger] table_lines(
                groups,
                widths,
                layout,
            )[i]).tint == Tint::Plain,
    decreases groups.len(),
{
    if groups.len() > 0 {
        plain_layout_has_plain_lines(groups.drop_last(), widths, layout);
    }
}

} // verus!
