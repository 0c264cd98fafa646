//! The status report as the lines that are printed.

use crate::grouping::{grouping_of, organize_by_dir};
use crate::groups::{GroupModel, Groups};
use crate::remote::{merge_remote_names, merged, Remote, RemoteMap};
use crate::render::{lay_out, models, plain_layout_has_plain_lines, table_lines};
use crate::render::{Layout, Line, LineModel};
use crate::status::StatusEntry;
use crate::style::{apply, bold_text, colored_text, Tint};
use crate::table::widths_of;
use crate::text::{decimal, decimal_text};
use vstd::prelude::*;

verus! {

/// A line with `body` in the place of its own body.
pub open spec fn framed(line: LineModel, body: Seq<char>) -> Seq<char> {
    line.lead + body + line.tail
}

/// The text of a line without any styling.
pub open spec fn plain_text(line: LineModel) -> Seq<char> {
    framed(line, line.body)
}

/// What a line may be shown as: its plain text, or its text with the body
/// in the styling of its tint. The lead and the tail are never styled.
pub open spec fn line_shows(line: LineModel, shown: Seq<char>) -> bool {
    match line.tint {
        Tint::Plain => shown == plain_text(line),
        Tint::Bold => shown == plain_text(line) || shown == framed(line, bold_text(line.body)),
        Tint::Colored(hue) => shown == plain_text(line) || shown == framed(
            line,
            colored_text(hue, line.body),
        ),
    }
}

/// `shown` shows the lines, one text for each line.
pub open spec fn lines_show(lines: Seq<LineModel>, shown: Seq<String>) -> bool {
    &&& shown.len() == lines.len()
    &&& forall|i: int| 0 <= i < lines.len() ==> line_shows(lines[i], (#[trigger] shown[i])@)
}

/// The default number of spaces between two columns.
pub open spec fn default_spacing() -> usize {
    6
}

impl Line {
    /// The text of the line around a body that was styled elsewhere.
    pub fn compose(&self, body: &str) -> (text: String)
        ensures
            text@ == framed(self@, body@),
    {
        let mut text = self.lead.clone();
        text.append(body);
        text.append(self.tail.as_str());
        text
    }

    /// The text of the line, with its body styled for the terminal.
    pub fn show(&self) -> (text: String)
        ensures
            line_shows(self@, text@),
    {
        let body = apply(self.tint, self.body.as_str());
        self.compose(body.as_str())
    }
}

/// The texts of the lines, each styled for the terminal.
pub fn show_lines(lines: &Vec<Line>) -> (shown: Vec<String>)
    ensures
        lines_show(models(lines@), shown@),
{
    let mut shown: Vec<String> = Vec::new();
    let mut i: usize = 0;
    while i < lines.len()
        invariant
            i <= lines@.len(),
            shown@.len() == i,
            forall|k: int| 0 <= k < i ==> line_shows(lines@[k]@, (#[trigger] shown@[k])@),
        decreases lines.len() - i,
    {
        let text = lines[i].show();
        shown.push(text);
        i = i + 1;
    }
    shown
}

/// The table of the groups as the lines to print. Each column is as wide as
/// its widest cell is displayed, the cells are filled up with spaces and set
/// `column_spacing` spaces apart, and each row starts with `indent` spaces.
/// With `styled`, the keys are in bold, and each row has one space before
/// its first cell and the colour of its severity, over the whole row.
pub fn render(groups: &Groups, column_spacing: usize, indent: usize, styled: bool) -> (shown: Vec<
    String,
>)
    ensures
        lines_show(
            table_lines(
                groups@,
                widths_of(groups@),
                (Layout { column_spacing, indent, bold_keys: styled, status_rows: styled }),
            ),
            shown@,
        ),
{
    let layout = Layout { column_spacing, indent, bold_keys: styled, status_rows: styled };
    let lines = lay_out(groups, &layout);
    show_lines(&lines)
}

/// The plain table of the groups as the lines to print: the rows carry no
/// colour. Without a number, six spaces stand between two columns and none
/// before a row. With `color`, the keys are in bold.
pub fn print_fixed_width(
    rows: &Groups,
    nspaces: Option<usize>,
    indent: Option<usize>,
    color: bool,
) -> (shown: Vec<String>)
    ensures
        lines_show(
            table_lines(
                rows@,
                widths_of(rows@),
                (Layout {
                    column_spacing: nspaces.unwrap_or(default_spacing()),
                    indent: indent.unwrap_or(0),
                    bold_keys: color,
                    status_rows: false,
                }),
            ),
            shown@,
        ),
{
    let layout = Layout {
        column_spacing: nspaces.unwrap_or(6),
        indent: indent.unwrap_or(0),
        bold_keys: color,
        status_rows: false,
    };
    let lines = lay_out(rows, &layout);
    show_lines(&lines)
}

/// The status table of the groups as the lines to print: each row has one
/// space before its first cell and the colour of its severity. Without a
/// number, six spaces stand between two columns and none before a row. With
/// `color`, the keys are in bold.
pub fn print_fixed_width_status(
    rows: &Groups,
    nspaces: Option<usize>,
    indent: Option<usize>,
    color: bool,
) -> (shown: Vec<String>)
    ensures
        lines_show(
            table_lines(
                rows@,
                widths_of(rows@),
                (Layout {
                    column_spacing: nspaces.unwrap_or(default_spacing()),
                    indent: indent.unwrap_or(0),
                    bold_keys: color,
                    status_rows: true,
                }),
            ),
            shown@,
        ),
{
    let layout = Layout {
        column_spacing: nspaces.unwrap_or(6),
        indent: indent.unwrap_or(0),
        bold_keys: color,
        status_rows: true,
    };
    let lines = lay_out(rows, &layout);
    show_lines(&lines)
}

/// The title of the report.
pub open spec fn title_line() -> LineModel {
    LineModel {
        lead: Seq::empty(),
        body: "Project data status:"@,
        tint: Tint::Bold,
        tail: Seq::empty(),
    }
}

/// The line that counts the files of the report.
pub open spec fn count_text(n: nat) -> Seq<char> {
    decimal_text(n) + " data file"@ + (if n > 1 {
        "s"@
    } else {
        Seq::empty()
    }) + " registered."@
}

/// The layout of the status report.
pub open spec fn report_layout() -> Layout {
    Layout { column_spacing: 6, indent: 0, bold_keys: true, status_rows: true }
}

/// The remotes as a map, where they are given.
pub open spec fn remotes_of(remote: Option<&RemoteMap>) -> Option<Map<Seq<char>, Remote>> {
    match remote {
        Some(map) => Some(map@),
        None => None,
    }
}

/// The groups of the report: the rows by directory, with the names of the
/// remotes merged into the keys where remotes are given.
pub open spec fn report_groups(rows: Seq<StatusEntry>, remotes: Option<Map<Seq<char>, Remote>>) -> Seq<
    GroupModel,
> {
    match remotes {
        Some(map) => merged(grouping_of(rows), map),
        None => grouping_of(rows),
    }
}

/// The status report as the lines to print: the title, the number of files,
/// an empty line, and the status table of the rows by directory, the keys
/// with the names of their remotes.
pub fn print_status(rows: Vec<StatusEntry>, remote: Option<&RemoteMap>) -> (shown: Vec<String>)
    ensures
        shown@.len() >= 3,
        line_shows(title_line(), shown@[0]@),
        shown@[1]@ == count_text(rows@.len()),
        shown@[2]@ == Seq::<char>::empty(),
        lines_show(
            table_lines(
                report_groups(rows@, remotes_of(remote)),
                widths_of(report_groups(rows@, remotes_of(remote))),
                report_layout(),
            ),
            shown@.skip(3),
        ),
{
    let title = Line {
        lead: String::new(),
        body: String::from_str("Project data status:"),
        tint: Tint::Bold,
        tail: String::new(),
    };
    let mut shown: Vec<String> = Vec::new();
    shown.push(title.show());
    let n = rows.len();
    let mut count = decimal(n);
    count.append(" data file");
    if n > 1 {
        count.append("s");
    }
    count.append(" registered.");
    shown.push(count);
    shown.push(String::new());
    let by_directory = organize_by_dir(rows);
    let groups = merge_remote_names(by_directory, remote);
    let mut table = print_fixed_width_status(&groups, None, None, true);
    let ghost body = table@;
    shown.append(&mut table);
    proof {
        assert(shown@.skip(3) =~= body);
    }
    shown
}

/// A table without bold keys and status rows is shown as it is: every line
/// is the plain text of its line, whatever the terminal takes.
pub proof fn plain_table_is_exact(
    groups: Seq<GroupModel>,
    widths: Seq<usize>,
    layout: Layout,
    shown: Seq<String>,
)
    requires
        !layout.bold_keys,
        !layout.status_rows,
        lines_show(table_lines(groups, widths, layout), shown),
    ensures
        forall|i: int|
            0 <= i < shown.len() ==> (#[trigger] shown[i])@ == plain_text(
                table_lines(groups, widths, layout)[i],
            ),
{
    plain_layout_has_plain_lines(groups, widths, layout);
}

} // verus!
