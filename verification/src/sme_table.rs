//! A plain text table: which cells it has, how each is justified, and the
//! lines of the drawing.

use vstd::prelude::*;
use vstd::string::*;
use cli_table::format::{Border, HorizontalLine, Justify, Padding, Separator, VerticalLine};
use cli_table::{Cell, Table};
use termcolor::ColorChoice;

verus! {

/// One cell of a table: its text, and whether it is set to the left of its
/// column (else to the right).
#[derive(Debug)]
pub struct TableCell {
    pub text: String,
    pub left: bool,
}

/// The mark of a column that is set to the left: the one letter `l`.
pub open spec fn is_left_mark(mark: Seq<char>) -> bool {
    mark == seq!['l']
}

/// The texts that a sequence of strings holds.
pub open spec fn header_texts(header: Seq<String>) -> Seq<Seq<char>> {
    Seq::new(header.len(), |i: int| header[i]@)
}

/// What a table of cells holds: row by row, each cell's text and side.
pub open spec fn cells_of(rows: Seq<Vec<TableCell>>) -> Seq<Seq<(Seq<char>, bool)>> {
    Seq::new(rows.len(), |i: int| Seq::new(rows[i]@.len(), |j: int| (rows[i]@[j].text@, rows[i]@[j].left)))
}

/// The cells of a table whose columns carry the given marks: a row has a
/// cell for each of its texts that has a mark, in order.
pub open spec fn laid_out(marks: Seq<String>, data: Seq<Vec<String>>) -> Seq<Seq<(Seq<char>, bool)>> {
    Seq::new(
        data.len(),
        |i: int|
            Seq::new(
                if data[i]@.len() <= marks.len() {
                    data[i]@.len()
                } else {
                    marks.len()
                },
                |j: int| (data[i]@[j]@, is_left_mark(marks[j]@)),
            ),
    )
}

/// The drawing of a table with a title row and without a border: the
/// columns are parted by `gap`, and the title is parted from the rows by a
/// line of `rule`. `None` where it cannot be drawn.
pub uninterp spec fn table_text(header: Seq<Seq<char>>, cells: Seq<Seq<(Seq<char>, bool)>>, gap: char, rule: char) -> Option<Seq<char>>;

/// The lines of a text joined again, a line feed between each two.
pub open spec fn joined(lines: Seq<Seq<char>>) -> Seq<char>
    decreases lines.len(),
{
    if lines.len() == 0 {
        Seq::<char>::empty()
    } else if lines.len() == 1 {
        lines[0]
    } else {
        joined(lines.drop_last()) + seq!['\n'] + lines.last()
    }
}

/// Whether the lines are those of the text: none holds a line feed, and
/// joined they give the text.
pub open spec fn are_lines_of(lines: Seq<Seq<char>>, text: Seq<char>) -> bool {
    lines.len() >= 1 && joined(lines) == text && forall|i: int|
        0 <= i < lines.len() ==> !(#[trigger] lines[i]).contains('\n')
}

/// Trusted: `cli_table::Table::table` on rows of `cli_table::Cell::cell`
/// values, each justified by its side and without padding, then
/// `TableStruct::title`, `border`, `separator` and `display`, and
/// `to_string` on what is displayed. The separator has `gap` between the
/// columns and at the ends and crossings of the line under the title, which
/// is drawn with `rule`. The contract names the drawing, and `None` stands
/// for the error of `display`.
#[verifier::external_body]
fn draw_table(header: &Vec<String>, rows: &Vec<Vec<TableCell>>, gap: char, rule: char) -> (text: Option<String>)
    ensures
        text.is_some() == table_text(header_texts(header@), cells_of(rows@), gap, rule).is_some(),
        text.is_some() ==> table_text(header_texts(header@), cells_of(rows@), gap, rule) == Some(
            text.unwrap()@,
        ),
{
    let lines = Separator::builder().title(Some(HorizontalLine::new(gap, gap, gap, rule))).column(Some(VerticalLine::new(gap))).build();
    let cell = |c: &TableCell| (&c.text).cell().justify(if c.left { Justify::Left } else { Justify::Right }).padding(Padding::builder().build());
    let cells: Vec<Vec<_>> = rows.iter().map(|r| r.iter().map(cell).collect()).collect();
    cells.table().color_choice(ColorChoice::Never).title(header).border(Border::builder().build()).separator(lines).display().ok().map(|shown| shown.to_string())
}

/// Trusted: `str::split` of std with a line feed as the pattern, each piece
/// copied into a string. By its documentation the pieces are what stands
/// between the line feeds, in order, the empty pieces included.
#[verifier::external_body]
fn split_lines(text: &str) -> (lines: Vec<String>)
    ensures
        are_lines_of(header_texts(lines@), text@),
{
    text.split("\n").map(|line| line.to_string()).collect()
}

/// Whether a column's mark is the one for the left side.
pub fn is_left(mark: &String) -> (left: bool)
    ensures
        left == is_left_mark(mark@),
{
    proof {
        reveal_strlit("l");
    }
    let l = String::from_str("l");
    let left = *mark == l;
    assert(l@ =~= seq!['l']);
    left
}

/// The cells of one row.
pub fn row_cells(data_align: &Vec<String>, row: &Vec<String>) -> (cells: Vec<TableCell>)
    ensures
        cells@.len() == if row@.len() <= data_align@.len() {
            row@.len()
        } else {
            data_align@.len()
        },
        forall|j: int|
            0 <= j < cells@.len() ==> (#[trigger] cells@[j]).text@ == row@[j]@ && cells@[j].left
                == is_left_mark(data_align@[j]@),
{
    let mut cells: Vec<TableCell> = Vec::new();
    let mut j: usize = 0;
    while j < row.len() && j < data_align.len()
        invariant
            j <= row@.len(),
            j <= data_align@.len(),
            cells@.len() == j,
            forall|k: int|
                0 <= k < j ==> (#[trigger] cells@[k]).text@ == row@[k]@ && cells@[k].left
                    == is_left_mark(data_align@[k]@),
        decreases row@.len() - j,
    {
        cells.push(TableCell { text: row[j].clone(), left: is_left(&data_align[j]) });
        j += 1;
    }
    cells
}

/// The cells of a table, row by row.
pub fn table_cells(data_align: &Vec<String>, data: &Vec<Vec<String>>) -> (rows: Vec<Vec<TableCell>>)
    ensures
        cells_of(rows@) == laid_out(data_align@, data@),
{
    let mut rows: Vec<Vec<TableCell>> = Vec::new();
    let mut i: usize = 0;
    while i < data.len()
        invariant
            i <= data@.len(),
            rows@.len() == i,
            forall|k: int|
                0 <= k < i ==> cells_of(rows@)[k] == #[trigger] laid_out(data_align@, data@)[k],
        decreases data@.len() - i,
    {
        let cells = row_cells(data_align, &data[i]);
        proof {
            let want = laid_out(data_align@, data@)[i as int];
            let have = Seq::new(cells@.len(), |j: int| (cells@[j].text@, cells@[j].left));
            assert(have =~= want);
        }
        let ghost before = rows@;
        rows.push(cells);
        proof {
            assert forall|k: int| 0 <= k < i + 1 implies cells_of(rows@)[k] == #[trigger] laid_out(
                data_align@,
                data@,
            )[k] by {
                if k < i {
                    assert(rows@[k] == before[k]);
                    assert(cells_of(rows@)[k] =~= cells_of(before)[k]);
                } else {
                    assert(rows@[k] == cells);
                }
            }
        }
        i += 1;
    }
    assert(cells_of(rows@) =~= laid_out(data_align@, data@));
    rows
}

/// What `sme_table_render` makes of a drawing: its lines, or no line where
/// there is no drawing.
pub fn drawing_lines(drawing: Option<String>) -> (lines: Vec<String>)
    ensures
        match drawing {
            Some(text) => are_lines_of(header_texts(lines@), text@),
            None => lines@.len() == 0,
        },
{
    match drawing {
        Some(text) => split_lines(text.as_str()),
        None => Vec::new(),
    }
}

/// Draws a table and returns its lines. A column is set to the left where
/// its mark is `l`, else to the right; cells without a mark are left out.
/// The columns are parted by a space and the title is underlined with
/// dashes. No lines where the table cannot be drawn.
pub fn sme_table_render(header: &Vec<String>, data_align: &Vec<String>, data: &Vec<Vec<String>>) -> (lines: Vec<String>)
    ensures
        match table_text(header_texts(header@), laid_out(data_align@, data@), ' ', '-') {
            Some(text) => are_lines_of(header_texts(lines@), text),
            None => lines@.len() == 0,
        },
{
    let rows = table_cells(data_align, data);
    drawing_lines(draw_table(header, &rows, ' ', '-'))
}

} // verus!
