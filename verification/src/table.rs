//! Tables as plain text.
use crate::text::{lemma_find_from, lines_of, split_lines, views};
use std::io::Write;
use tabwriter::TabWriter;
use vstd::prelude::*;
use vstd::utf8::encode_utf8;

verus! {

/// The least number of spaces between two columns.
pub const COLUMN_GAP: usize = 2;

/// What an elastic tab writer with the given padding makes of `text`.
pub uninterp spec fn tab_aligned(text: Seq<char>, padding: usize) -> Seq<char>;

pub open spec fn all_spaces(s: Seq<char>) -> bool {
    forall|i: int| 0 <= i < s.len() ==> s[i] == ' '
}

/// `out` is `text` with every tab replaced by spaces, each by at least `gap` of them.
pub open spec fn expands_tabs(text: Seq<char>, out: Seq<char>, gap: nat) -> bool
    decreases text.len(),
{
    if text.len() == 0 {
        out.len() == 0
    } else if text[0] == '\t' {
        exists|n: int|
            gap <= n <= out.len() && all_spaces(out.take(n)) && expands_tabs(
                text.skip(1),
                #[trigger] out.skip(n),
                gap,
            )
    } else {
        out.len() > 0 && out[0] == text[0] && expands_tabs(text.skip(1), out.skip(1), gap)
    }
}

/// The cells of a row, with a tab between two cells.
pub open spec fn tab_joined(cells: Seq<Seq<char>>) -> Seq<char>
    decreases cells.len(),
{
    if cells.len() == 0 {
        Seq::empty()
    } else if cells.len() == 1 {
        cells[0]
    } else {
        tab_joined(cells.drop_last()) + seq!['\t'] + cells.last()
    }
}

/// A row as it is written: its cells and a line feed.
pub open spec fn row_text(cells: Seq<Seq<char>>) -> Seq<char> {
    tab_joined(cells).push('\n')
}

/// Writes a row: its cells, separated by tabs, on a line of their own.
pub fn write_row(writer: &mut String, row: &Vec<String>)
    ensures
        final(writer)@ == old(writer)@ + row_text(views(row@)),
{
    let ghost start = writer@;
    let mut i: usize = 0;
    assert(views(row@).take(0) =~= Seq::empty());
    while i < row.len()
        invariant
            i <= row.len(),
            writer@ == start + tab_joined(views(row@).take(i as int)),
        decreases row.len() - i,
    {
        let ghost cells = views(row@).take(i + 1);
        assert(cells.drop_last() =~= views(row@).take(i as int));
        if i > 0 {
            writer.push('\t');
        }
        writer.append(row[i].as_str());
        assert(writer@ =~= start + tab_joined(cells));
        i += 1;
    }
    assert(views(row@).take(i as int) =~= views(row@));
    writer.push('\n');
    assert(writer@ =~= start + row_text(views(row@)));
}

/// The rows of a table as they are written, one after the other.
pub open spec fn rows_text(rows: Seq<Seq<Seq<char>>>) -> Seq<char>
    decreases rows.len(),
{
    if rows.len() == 0 {
        Seq::empty()
    } else {
        row_text(rows[0]) + rows_text(rows.skip(1))
    }
}

/// The cells of all rows.
pub open spec fn row_views(rows: Seq<Vec<String>>) -> Seq<Seq<Seq<char>>> {
    rows.map_values(|row: Vec<String>| views(row@))
}

/// The length in bytes of the longest line.
pub open spec fn longest_line(lines: Seq<Seq<char>>) -> nat
    decreases lines.len(),
{
    if lines.len() == 0 {
        0
    } else {
        let others = longest_line(lines.drop_last());
        let last = encode_utf8(lines.last()).len();
        if last > others {
            last
        } else {
            others
        }
    }
}

/// Every line with a line feed after it.
pub open spec fn lines_text(lines: Seq<Seq<char>>) -> Seq<char>
    decreases lines.len(),
{
    if lines.len() == 0 {
        Seq::empty()
    } else {
        lines_text(lines.drop_last()) + lines.last().push('\n')
    }
}

/// A horizontal line of `n` characters.
pub open spec fn rule(n: nat) -> Seq<char> {
    Seq::new(n, |i: int| '─')
}

/// A table made of aligned text: its first line, a horizontal line, and the other lines.
pub open spec fn framed(aligned: Seq<char>) -> Seq<char> {
    let lines = lines_of(aligned);
    lines[0] + seq!['\n'] + rule(longest_line(lines)) + seq!['\n'] + lines_text(lines.skip(1))
}

/// Puts a horizontal line below the first line of aligned text, as long as its longest line has
/// bytes.
pub fn frame_table(aligned: &str) -> (table: String)
    requires
        aligned@.len() > 0,
    ensures
        table@ == framed(aligned@),
{
    let lines = split_lines(aligned);
    let ghost all = lines_of(aligned@);
    assert(views(lines@).len() == lines@.len());
    let mut body = String::new();
    let mut longest: usize = lines[0].as_str().as_bytes().len();
    let mut i: usize = 1;
    proof {
        assert(all.take(1).drop_last() =~= Seq::empty());
        assert(all.take(1).last() == all[0]);
        reveal_with_fuel(longest_line, 2);
        assert(all.skip(1).take(0) =~= Seq::empty());
    }
    while i < lines.len()
        invariant
            1 <= i <= lines.len(),
            views(lines@) == all,
            longest == longest_line(all.take(i as int)),
            body@ == lines_text(all.skip(1).take(i - 1)),
        decreases lines.len() - i,
    {
        assert(lines@[i as int]@ == all[i as int]);
        proof {
            assert(all.take(i + 1).drop_last() =~= all.take(i as int));
            assert(all.skip(1).take(i as int).drop_last() =~= all.skip(1).take(i - 1));
            assert(all.skip(1).take(i as int).last() == all[i as int]);
        }
        let length: usize = lines[i].as_str().as_bytes().len();
        if length > longest {
            longest = length;
        }
        let ghost before = body@;
        body.append(lines[i].as_str());
        body.push('\n');
        assert(body@ =~= before + all[i as int].push('\n'));
        i += 1;
    }
    assert(all.take(i as int) =~= all);
    assert(all.skip(1).take(i - 1) =~= all.skip(1));
    let mut table = lines[0].clone();
    table.push('\n');
    let ghost head = table@;
    let mut drawn: usize = 0;
    while drawn < longest
        invariant
            drawn <= longest,
            table@ == head + rule(drawn as nat),
        decreases longest - drawn,
    {
        table.push('─');
        drawn += 1;
        assert(table@ =~= head + rule(drawn as nat));
    }
    table.push('\n');
    table.append(body.as_str());
    assert(table@ =~= framed(aligned@));
    table
}

/// A character that takes one column on the screen.
pub open spec fn is_printable(c: char) -> bool {
    ' ' <= c <= '~'
}

pub open spec fn all_printable(s: Seq<char>) -> bool {
    forall|i: int| 0 <= i < s.len() ==> is_printable(#[trigger] s[i])
}

/// Rows of equal length, at least one cell long, whose cells are printable ASCII.
pub open spec fn is_plain_grid(rows: Seq<Seq<Seq<char>>>) -> bool {
    &&& rows.len() > 0
    &&& rows[0].len() > 0
    &&& forall|i: int| 0 <= i < rows.len() ==> (#[trigger] rows[i]).len() == rows[0].len()
    &&& forall|i: int, j: int|
        0 <= i < rows.len() && 0 <= j < rows[0].len() ==> all_printable(#[trigger] rows[i][j])
}

/// The width of column `j`: that of its widest cell, and at least two.
pub open spec fn column_width(rows: Seq<Seq<Seq<char>>>, j: int) -> nat
    decreases rows.len(),
{
    if rows.len() == 0 {
        2
    } else {
        let above = column_width(rows.drop_last(), j);
        if rows.last()[j].len() > above {
            rows.last()[j].len()
        } else {
            above
        }
    }
}

pub open spec fn spaces(n: int) -> Seq<char> {
    Seq::new(n as nat, |i: int| ' ')
}

/// The first `j` cells of a row, each filled up to the width of its column and followed by
/// `gap` spaces.
pub open spec fn grid_cells(
    rows: Seq<Seq<Seq<char>>>,
    row: Seq<Seq<char>>,
    gap: nat,
    j: nat,
) -> Seq<char>
    decreases j,
{
    if j == 0 {
        Seq::empty()
    } else {
        let cell = row[j - 1];
        grid_cells(rows, row, gap, (j - 1) as nat) + cell + spaces(
            column_width(rows, j - 1) - cell.len() + gap,
        )
    }
}

/// A line of a grid; the last cell is not filled up.
pub open spec fn grid_line(rows: Seq<Seq<Seq<char>>>, row: Seq<Seq<char>>, gap: nat) -> Seq<char> {
    grid_cells(rows, row, gap, (row.len() - 1) as nat) + row.last()
}

/// The lines of the first `i` rows of a grid, each with its line feed.
pub open spec fn grid_text(rows: Seq<Seq<Seq<char>>>, gap: nat, i: nat) -> Seq<char>
    decreases i,
{
    if i == 0 {
        Seq::empty()
    } else {
        grid_text(rows, gap, (i - 1) as nat) + grid_line(rows, rows[i - 1], gap).push('\n')
    }
}

/// `tabwriter::TabWriter` over a `Vec<u8>`: writes `text`, flushes, and takes the output.
///
/// The output depends on the text and the padding alone.  It is the text with every tab
/// replaced by spaces: the cell before the tab is filled up to the width of its column, which
/// is at least its own width, and the padding follows.  Where the text is a grid of printable
/// ASCII, a column is as wide as its widest cell, and two at the least.  How wide other text is
/// on the screen is left to the name of the result.  Writing to a `Vec<u8>` does not fail, and
/// a text that is cut at tabs and line feeds stays UTF-8.  The padding is added to the width of
/// a column, and is bounded so that the sum is a number.
#[verifier::external_body]
fn align_tabs(text: &str, padding: usize) -> (aligned: String)
    requires
        text@.len() > 0,
        text@.last() == '\n',
        padding <= 1000,
    ensures
        aligned@ == tab_aligned(text@, padding),
        expands_tabs(text@, aligned@, padding as nat),
        forall|rows: Seq<Seq<Seq<char>>>|
            is_plain_grid(rows) && #[trigger] rows_text(rows) == text@ ==> aligned@ == grid_text(
                rows,
                padding as nat,
                rows.len(),
            ),
{
    let mut writer = TabWriter::new(vec![]).padding(padding);
    writer.write_all(text.as_bytes()).expect("write to memory");
    writer.flush().expect("write to memory");
    let written = writer.into_inner().expect("write to memory");
    String::from_utf8(written).expect("cells and spaces are text")
}

/// A header and the rows below it, as they are written.
pub open spec fn table_text(headers: Seq<Seq<char>>, rows: Seq<Seq<Seq<char>>>) -> Seq<char> {
    row_text(headers) + rows_text(rows)
}

/// A table: its text, with the columns aligned, and a horizontal line below the header.
pub open spec fn table_of(headers: Seq<Seq<char>>, rows: Seq<Seq<Seq<char>>>) -> Seq<char> {
    framed(tab_aligned(table_text(headers, rows), COLUMN_GAP))
}

/// The aligned text of a table of printable ASCII whose rows are as long as its header.
pub open spec fn plain_table_text(headers: Seq<Seq<char>>, rows: Seq<Seq<Seq<char>>>) -> Seq<char> {
    let all = seq![headers] + rows;
    grid_text(all, COLUMN_GAP as nat, all.len())
}

/// Aligning the columns of a table only replaces its tabs by spaces, and where the table is
/// printable ASCII, the columns are as wide as their cells ask for.
pub open spec fn is_aligned(headers: Seq<Seq<char>>, rows: Seq<Seq<Seq<char>>>) -> bool {
    let text = table_text(headers, rows);
    let aligned = tab_aligned(text, COLUMN_GAP);
    &&& expands_tabs(text, aligned, COLUMN_GAP as nat)
    &&& is_plain_grid(seq![headers] + rows) ==> aligned == plain_table_text(headers, rows)
}

proof fn lemma_rows_text_push(rows: Seq<Seq<Seq<char>>>, row: Seq<Seq<char>>)
    ensures
        rows_text(rows.push(row)) == rows_text(rows) + row_text(row),
    decreases rows.len(),
{
    if rows.len() == 0 {
        assert(rows.push(row).skip(1) =~= Seq::empty());
        reveal_with_fuel(rows_text, 2);
        assert(rows_text(rows.push(row)) =~= row_text(row));
    } else {
        assert(rows.push(row).skip(1) =~= rows.skip(1).push(row));
        lemma_rows_text_push(rows.skip(1), row);
        assert(rows_text(rows.push(row)) =~= rows_text(rows) + row_text(row));
    }
}

/// Replacing tabs keeps a last character that is no tab, and makes a last tab a space.
proof fn lemma_expands_last(text: Seq<char>, out: Seq<char>, gap: nat)
    requires
        expands_tabs(text, out, gap),
        text.len() > 0,
        gap > 0,
    ensures
        out.len() > 0,
        out.last() == if text.last() == '\t' {
            ' '
        } else {
            text.last()
        },
    decreases text.len(),
{
    let n = if text[0] == '\t' {
        choose|n: int|
            gap <= n <= out.len() && all_spaces(out.take(n)) && expands_tabs(
                text.skip(1),
                #[trigger] out.skip(n),
                gap,
            )
    } else {
        1
    };
    if text.len() > 1 {
        lemma_expands_last(text.skip(1), out.skip(n), gap);
    } else {
        assert(expands_tabs(text.skip(1), out.skip(n), gap));
        assert(out.skip(n).len() == 0);
        assert(text[0] == '\t' ==> out.take(n)[n - 1] == ' ');
    }
}

/// A table with a header: its columns are aligned and a horizontal line is drawn below the
/// header.
pub fn make_table(headers: &Vec<String>, rows: &Vec<Vec<String>>) -> (table: String)
    ensures
        table@ == table_of(views(headers@), row_views(rows@)),
        is_aligned(views(headers@), row_views(rows@)),
{
    let mut text = String::new();
    write_row(&mut text, headers);
    let ghost head = row_text(views(headers@));
    assert(text@ =~= head);
    assert(row_views(rows@).take(0) =~= Seq::empty());
    assert(text@ =~= head + rows_text(row_views(rows@).take(0)));
    let mut i: usize = 0;
    while i < rows.len()
        invariant
            i <= rows.len(),
            text@ == head + rows_text(row_views(rows@).take(i as int)),
            head.len() > 0,
            text@.last() == '\n',
        decreases rows.len() - i,
    {
        let ghost done = row_views(rows@).take(i as int);
        let ghost row = views(rows@[i as int]@);
        write_row(&mut text, &rows[i]);
        proof {
            lemma_rows_text_push(done, row);
            assert(row_views(rows@).take(i + 1) =~= done.push(row));
            assert(text@ =~= head + rows_text(row_views(rows@).take(i + 1)));
        }
        i += 1;
    }
    assert(row_views(rows@).take(i as int) =~= row_views(rows@));
    let aligned = align_tabs(text.as_str(), COLUMN_GAP);
    proof {
        let all = seq![views(headers@)] + row_views(rows@);
        assert(all.skip(1) =~= row_views(rows@));
        assert(rows_text(all) == text@);
        lemma_expands_last(text@, aligned@, COLUMN_GAP as nat);
    }
    frame_table(aligned.as_str())
}

/// Replacing tabs brings in no character but spaces.
proof fn lemma_expands_chars(text: Seq<char>, out: Seq<char>, gap: nat, c: char)
    requires
        expands_tabs(text, out, gap),
        c != ' ',
        !text.contains(c),
    ensures
        !out.contains(c),
    decreases text.len(),
{
    if text.len() > 0 {
        let n = if text[0] == '\t' {
            choose|n: int|
                gap <= n <= out.len() && all_spaces(out.take(n)) && expands_tabs(
                    text.skip(1),
                    #[trigger] out.skip(n),
                    gap,
                )
        } else {
            1
        };
        assert forall|i: int| 0 <= i < text.skip(1).len() implies text.skip(1)[i] != c by {
            assert(text[i + 1] != c);
        }
        lemma_expands_chars(text.skip(1), out.skip(n), gap, c);
        assert forall|i: int| 0 <= i < out.len() implies out[i] != c by {
            if i < n {
                if text[0] == '\t' {
                    assert(out.take(n)[i] == ' ');
                } else {
                    assert(text.contains(text[0]));
                }
            } else {
                assert(out.skip(n)[i - n] == out[i]);
                assert(out.skip(n).contains(out.skip(n)[i - n]));
            }
        }
    }
}

/// Where the first line of a text ends after its tabs are replaced.
proof fn lemma_expands_line(line: Seq<char>, rest: Seq<char>, out: Seq<char>, gap: nat) -> (end: int)
    requires
        expands_tabs(line.push('\n') + rest, out, gap),
        !line.contains('\n'),
    ensures
        0 <= end < out.len(),
        out[end] == '\n',
        expands_tabs(line, out.take(end), gap),
        expands_tabs(rest, out.skip(end + 1), gap),
    decreases line.len(),
{
    let text = line.push('\n') + rest;
    if line.len() == 0 {
        assert(text.skip(1) =~= rest);
        assert(out.take(0).len() == 0);
        0
    } else {
        let n = if text[0] == '\t' {
            choose|n: int|
                gap <= n <= out.len() && all_spaces(out.take(n)) && expands_tabs(
                    text.skip(1),
                    #[trigger] out.skip(n),
                    gap,
                )
        } else {
            1
        };
        assert(text.skip(1) =~= line.skip(1).push('\n') + rest);
        assert forall|i: int| 0 <= i < line.skip(1).len() implies line.skip(1)[i] != '\n' by {
            assert(line[i + 1] != '\n');
        }
        let later = lemma_expands_line(line.skip(1), rest, out.skip(n), gap);
        let end = later + n;
        assert(out.take(end).skip(n) =~= out.skip(n).take(later));
        assert(out.take(end).take(n) =~= out.take(n));
        assert(out.skip(end + 1) =~= out.skip(n).skip(later + 1));
        assert(text[0] == line[0]);
        end
    }
}

pub open spec fn ends_in_cr(s: Seq<char>) -> bool {
    s.len() > 0 && s.last() == '\r'
}

/// A text that is a line as it stands.
pub open spec fn is_one_line(s: Seq<char>) -> bool {
    !s.contains('\n') && !ends_in_cr(s)
}

/// A row that keeps to its line: no cell breaks it, and the last cell does not end in what
/// would belong to the line ending.
pub open spec fn is_one_line_row(cells: Seq<Seq<char>>) -> bool {
    &&& forall|i: int| 0 <= i < cells.len() ==> !(#[trigger] cells[i]).contains('\n')
    &&& cells.len() > 0 ==> !ends_in_cr(cells.last())
}

proof fn lemma_tab_joined_has_no_line_feed(cells: Seq<Seq<char>>)
    requires
        forall|i: int| 0 <= i < cells.len() ==> !(#[trigger] cells[i]).contains('\n'),
    ensures
        !tab_joined(cells).contains('\n'),
    decreases cells.len(),
{
    if cells.len() == 1 {
        assert(!cells[0].contains('\n'));
    } else if cells.len() > 1 {
        lemma_tab_joined_has_no_line_feed(cells.drop_last());
        let front = tab_joined(cells.drop_last());
        let all = tab_joined(cells);
        assert(!cells.last().contains('\n'));
        assert forall|i: int| 0 <= i < all.len() implies all[i] != '\n' by {
            if i < front.len() {
                assert(front.contains(all[i]));
            } else if i > front.len() {
                assert(all[i] == cells.last()[i - front.len() - 1]);
                assert(cells.last().contains(all[i]));
            }
        }
    }
}

proof fn lemma_tab_joined_is_one_line(cells: Seq<Seq<char>>)
    requires
        is_one_line_row(cells),
    ensures
        is_one_line(tab_joined(cells)),
{
    lemma_tab_joined_has_no_line_feed(cells);
    if cells.len() > 1 {
        let front = tab_joined(cells.drop_last()) + seq!['\t'];
        if cells.last().len() > 0 {
            assert(tab_joined(cells).last() == cells.last().last());
        } else {
            assert(tab_joined(cells) =~= front);
        }
    }
}

/// A line of its own at the start of a text.
proof fn lemma_first_line(line: Seq<char>, rest: Seq<char>)
    requires
        is_one_line(line),
    ensures
        lines_of(line.push('\n') + rest) == seq![line] + lines_of(rest),
{
    let text = line.push('\n') + rest;
    assert forall|i: int| 0 <= i < line.len() implies text[i] != '\n' by {
        assert(line.contains(line[i]));
    }
    lemma_find_from(text, '\n', 0, line.len() as int);
    assert(text.take(line.len() as int) =~= line);
    assert(text.skip(line.len() as int + 1) =~= rest);
}

/// Aligned text has one line for each row, and each line shows the cells of its row in order,
/// with at least `gap` spaces between two cells.
pub proof fn law_lines_show_rows(rows: Seq<Seq<Seq<char>>>, aligned: Seq<char>, gap: nat)
    requires
        forall|i: int| 0 <= i < rows.len() ==> is_one_line_row(#[trigger] rows[i]),
        expands_tabs(rows_text(rows), aligned, gap),
        gap > 0,
    ensures
        lines_of(aligned).len() == rows.len(),
        forall|i: int|
            0 <= i < rows.len() ==> {
                &&& is_one_line(#[trigger] lines_of(aligned)[i])
                &&& expands_tabs(tab_joined(rows[i]), lines_of(aligned)[i], gap)
            },
    decreases rows.len(),
{
    if rows.len() > 0 {
        let line = tab_joined(rows[0]);
        let rest = rows_text(rows.skip(1));
        assert(is_one_line_row(rows[0]));
        lemma_tab_joined_is_one_line(rows[0]);
        let end = lemma_expands_line(line, rest, aligned, gap);
        let shown = aligned.take(end);
        let below = aligned.skip(end + 1);
        lemma_expands_chars(line, shown, gap, '\n');
        if line.len() > 0 {
            lemma_expands_last(line, shown, gap);
        }
        assert(aligned =~= shown.push('\n') + below);
        lemma_first_line(shown, below);
        assert forall|i: int| 0 <= i < rows.skip(1).len() implies is_one_line_row(
            #[trigger] rows.skip(1)[i],
        ) by {
            assert(is_one_line_row(rows[i + 1]));
        }
        law_lines_show_rows(rows.skip(1), below, gap);
        assert forall|i: int| 0 <= i < rows.len() implies {
            &&& is_one_line(#[trigger] lines_of(aligned)[i])
            &&& expands_tabs(tab_joined(rows[i]), lines_of(aligned)[i], gap)
        } by {
            if i > 0 {
                assert(lines_of(aligned)[i] == lines_of(below)[i - 1]);
                assert(rows.skip(1)[i - 1] == rows[i]);
            }
        }
    }
}

proof fn lemma_lines_text(lines: Seq<Seq<char>>)
    requires
        forall|i: int| 0 <= i < lines.len() ==> is_one_line(#[trigger] lines[i]),
    ensures
        lines_of(lines_text(lines)) == lines,
    decreases lines.len(),
{
    if lines.len() > 0 {
        lemma_lines_text_front(lines);
        assert(is_one_line(lines[0]));
        lemma_first_line(lines[0], lines_text(lines.skip(1)));
        assert forall|i: int| 0 <= i < lines.skip(1).len() implies is_one_line(
            #[trigger] lines.skip(1)[i],
        ) by {
            assert(is_one_line(lines[i + 1]));
        }
        lemma_lines_text(lines.skip(1));
        assert(seq![lines[0]] + lines.skip(1) =~= lines);
    }
}

proof fn lemma_lines_text_front(lines: Seq<Seq<char>>)
    requires
        lines.len() > 0,
    ensures
        lines_text(lines) == lines[0].push('\n') + lines_text(lines.skip(1)),
    decreases lines.len(),
{
    if lines.len() == 1 {
        assert(lines.drop_last() =~= Seq::empty());
        assert(lines.skip(1) =~= Seq::empty());
        reveal_with_fuel(lines_text, 2);
        assert(lines_text(lines) =~= lines[0].push('\n') + lines_text(lines.skip(1)));
    } else {
        lemma_lines_text_front(lines.drop_last());
        assert(lines.drop_last().skip(1) =~= lines.skip(1).drop_last());
        assert(lines.skip(1).last() == lines.last());
        assert(lines_text(lines) =~= lines[0].push('\n') + lines_text(lines.skip(1)));
    }
}

/// A table shows its header, a horizontal line as long as the longest other line has bytes, and
/// then one line for each row, with at least the column gap between two cells of a line.
pub proof fn law_table_shows_rows(headers: Seq<Seq<char>>, rows: Seq<Seq<Seq<char>>>)
    requires
        is_one_line_row(headers),
        forall|i: int| 0 <= i < rows.len() ==> is_one_line_row(#[trigger] rows[i]),
        is_aligned(headers, rows),
    ensures
        ({
            let lines = lines_of(table_of(headers, rows));
            let shown = seq![lines[0]] + lines.skip(2);
            &&& lines.len() == rows.len() + 2
            &&& expands_tabs(tab_joined(headers), lines[0], COLUMN_GAP as nat)
            &&& lines[1] == rule(longest_line(shown))
            &&& forall|i: int|
                0 <= i < rows.len() ==> expands_tabs(
                    tab_joined(#[trigger] rows[i]),
                    lines[i + 2],
                    COLUMN_GAP as nat,
                )
        }),
{
    let aligned = tab_aligned(table_text(headers, rows), COLUMN_GAP);
    let gap = COLUMN_GAP as nat;
    let all = seq![headers] + rows;
    assert(all.skip(1) =~= rows);
    assert(rows_text(all) == table_text(headers, rows));
    assert forall|i: int| 0 <= i < all.len() implies is_one_line_row(#[trigger] all[i]) by {
        if i > 0 {
            assert(is_one_line_row(rows[i - 1]));
        }
    }
    law_lines_show_rows(all, aligned, gap);
    let shown = lines_of(aligned);
    let line = rule(longest_line(shown));
    let below = lines_text(shown.skip(1));
    assert(is_one_line(shown[0]));
    assert(framed(aligned) =~= shown[0].push('\n') + (line.push('\n') + below));
    lemma_first_line(shown[0], line.push('\n') + below);
    lemma_first_line(line, below);
    assert forall|i: int| 0 <= i < shown.skip(1).len() implies is_one_line(
        #[trigger] shown.skip(1)[i],
    ) by {
        assert(is_one_line(shown[i + 1]));
    }
    lemma_lines_text(shown.skip(1));
    let lines = lines_of(framed(aligned));
    assert(lines =~= seq![shown[0], line] + shown.skip(1));
    assert(seq![lines[0]] + lines.skip(2) =~= shown);
    assert forall|i: int| 0 <= i < rows.len() implies expands_tabs(
        tab_joined(#[trigger] rows[i]),
        lines[i + 2],
        gap,
    ) by {
        assert(lines[i + 2] == shown[i + 1]);
        assert(all[i + 1] == rows[i]);
    }
}

/// Where column `j` of a grid starts in every line.
pub open spec fn column_start(rows: Seq<Seq<Seq<char>>>, gap: nat, j: nat) -> nat
    decreases j,
{
    if j == 0 {
        0
    } else {
        column_start(rows, gap, (j - 1) as nat) + column_width(rows, j - 1) + gap
    }
}

/// The columns of a grid line up: the cells of a column start at the same place in every line.
pub proof fn law_columns_line_up(rows: Seq<Seq<Seq<char>>>, gap: nat, i: int, j: int)
    requires
        is_plain_grid(rows),
        0 <= i < rows.len(),
        0 <= j < rows[0].len(),
    ensures
        ({
            let line = grid_line(rows, rows[i], gap);
            let start = column_start(rows, gap, j as nat) as int;
            &&& start + rows[i][j].len() <= line.len()
            &&& line.subrange(start, start + rows[i][j].len()) == rows[i][j]
        }),
{
    let row = rows[i];
    assert(row.len() == rows[0].len());
    let last = (row.len() - 1) as nat;
    lemma_grid_cells(rows, i, gap, j as nat);
    lemma_grid_cells_grow(rows, row, gap, j as nat, last);
    let front = grid_cells(rows, row, gap, j as nat);
    let start = front.len() as int;
    let line = grid_line(rows, row, gap);
    if j < last {
        lemma_grid_cells_grow(rows, row, gap, (j + 1) as nat, last);
        let more = grid_cells(rows, row, gap, (j + 1) as nat);
        assert(more.subrange(start, start + row[j].len()) =~= row[j]);
        assert(line.subrange(start, start + row[j].len()) =~= more.subrange(
            start,
            start + row[j].len(),
        ));
    } else {
        assert(line.subrange(start, start + row[j].len()) =~= row[j]);
    }
}

proof fn lemma_column_width(rows: Seq<Seq<Seq<char>>>, i: int, j: int)
    requires
        0 <= i < rows.len(),
    ensures
        rows[i][j].len() <= column_width(rows, j),
    decreases rows.len(),
{
    if i < rows.len() - 1 {
        lemma_column_width(rows.drop_last(), i, j);
    }
}

proof fn lemma_grid_cells(rows: Seq<Seq<Seq<char>>>, i: int, gap: nat, j: nat)
    requires
        0 <= i < rows.len(),
        j <= rows[i].len(),
    ensures
        grid_cells(rows, rows[i], gap, j).len() == column_start(rows, gap, j),
    decreases j,
{
    if j > 0 {
        lemma_grid_cells(rows, i, gap, (j - 1) as nat);
        lemma_column_width(rows, i, j - 1);
    }
}

/// The first cells of a row are the start of what follows.
proof fn lemma_grid_cells_grow(
    rows: Seq<Seq<Seq<char>>>,
    row: Seq<Seq<char>>,
    gap: nat,
    j: nat,
    k: nat,
)
    requires
        j <= k,
    ensures
        ({
            let short = grid_cells(rows, row, gap, j);
            let long = grid_cells(rows, row, gap, k);
            short.len() <= long.len() && long.take(short.len() as int) == short
        }),
    decreases k,
{
    let short = grid_cells(rows, row, gap, j);
    let long = grid_cells(rows, row, gap, k);
    if j < k {
        lemma_grid_cells_grow(rows, row, gap, j, (k - 1) as nat);
        let before = grid_cells(rows, row, gap, (k - 1) as nat);
        assert(long.take(short.len() as int) =~= before.take(short.len() as int));
    } else {
        assert(long.take(short.len() as int) =~= short);
    }
}

/// The horizontal line is at least as long as every line of the table.
pub proof fn law_rule_spans_the_table(aligned: Seq<char>, i: int)
    requires
        0 <= i < lines_of(aligned).len(),
    ensures
        lines_of(aligned)[i].len() <= rule(longest_line(lines_of(aligned))).len(),
{
    lemma_longest_line(lines_of(aligned), i);
    lemma_bytes_of_chars(lines_of(aligned)[i]);
}

proof fn lemma_longest_line(lines: Seq<Seq<char>>, i: int)
    requires
        0 <= i < lines.len(),
    ensures
        encode_utf8(lines[i]).len() <= longest_line(lines),
    decreases lines.len(),
{
    if i < lines.len() - 1 {
        lemma_longest_line(lines.drop_last(), i);
    }
}

/// A text has at least as many bytes as characters.
proof fn lemma_bytes_of_chars(chars: Seq<char>)
    ensures
        chars.len() <= encode_utf8(chars).len(),
    decreases chars.len(),
{
    if chars.len() > 0 {
        lemma_bytes_of_chars(chars.drop_first());
    }
}

/// The cells of a row are written one after the other, with one tab before each but the first,
/// and a line feed ends the row.
pub proof fn law_cells_are_joined_by_tabs(cells: Seq<Seq<char>>, cell: Seq<char>)
    ensures
        row_text(Seq::empty()) == seq!['\n'],
        row_text(cells.push(cell)) == (if cells.len() == 0 {
            cell
        } else {
            row_text(cells).drop_last() + seq!['\t'] + cell
        }).push('\n'),
        row_text(cells) == tab_joined(cells) + seq!['\n'],
{
    assert(cells.push(cell).drop_last() =~= cells);
    assert(row_text(cells).drop_last() =~= tab_joined(cells));
    assert(row_text(cells) =~= tab_joined(cells) + seq!['\n']);
    assert(tab_joined(Seq::empty()) =~= Seq::empty());
    assert(row_text(Seq::empty()) =~= seq!['\n']);
}

/// Four cells as they are written.
pub proof fn lemma_four_cells(a: Seq<char>, b: Seq<char>, c: Seq<char>, d: Seq<char>)
    ensures
        row_text(seq![a, b, c, d]) == a + seq!['\t'] + b + seq!['\t'] + c + seq!['\t'] + d + seq![
            '\n',
        ],
{
    let cells = seq![a, b, c, d];
    law_cells_are_joined_by_tabs(cells, a);
    reveal_with_fuel(tab_joined, 4);
    assert(cells.drop_last() =~= seq![a, b, c]);
    assert(seq![a, b, c].drop_last() =~= seq![a, b]);
    assert(seq![a, b].drop_last() =~= seq![a]);
}

/// The text of rows is the text of each, in order.
proof fn lemma_rows_text_flattens(rows: Seq<Seq<Seq<char>>>)
    ensures
        rows_text(rows) == rows.map_values(|row: Seq<Seq<char>>| row_text(row)).flatten(),
    decreases rows.len(),
{
    let texts = rows.map_values(|row: Seq<Seq<char>>| row_text(row));
    if rows.len() > 0 {
        lemma_rows_text_flattens(rows.skip(1));
        assert(texts.drop_first() =~= rows.skip(1).map_values(
            |row: Seq<Seq<char>>| row_text(row),
        ));
        assert(texts.first() == row_text(rows[0]));
    }
}

/// A table holds its header and every row, in order, each on a line of its own; two spaces at
/// least stand between two columns.
pub proof fn law_table_holds_every_row(headers: Seq<Seq<char>>, rows: Seq<Seq<Seq<char>>>)
    ensures
        ({
            let all = seq![headers] + rows;
            let text = all.map_values(|row: Seq<Seq<char>>| row_text(row)).flatten();
            &&& table_text(headers, rows) == text
            &&& table_of(headers, rows) == framed(tab_aligned(text, 2))
        }),
{
    let all = seq![headers] + rows;
    assert(all.skip(1) =~= rows);
    lemma_rows_text_flattens(all);
}

proof fn lemma_lines_text_flattens(lines: Seq<Seq<char>>)
    ensures
        lines_text(lines) == lines.map_values(|line: Seq<char>| line.push('\n')).flatten(),
    decreases lines.len(),
{
    let ended = lines.map_values(|line: Seq<char>| line.push('\n'));
    if lines.len() > 0 {
        lemma_lines_text_flattens(lines.drop_last());
        let front = lines.drop_last().map_values(|line: Seq<char>| line.push('\n'));
        front.lemma_flatten_push(lines.last().push('\n'));
        assert(ended =~= front.push(lines.last().push('\n')));
    }
}

/// A table is its first line, a horizontal line, and every other line in order.  The horizontal
/// line has as many characters as the longest of them has bytes, and no other line is longer.
pub proof fn law_frame_keeps_every_line(aligned: Seq<char>) -> (length: nat)
    requires
        aligned.len() > 0,
    ensures
        framed(aligned) == lines_of(aligned)[0] + seq!['\n'] + Seq::new(length, |i: int| '─')
            + seq!['\n'] + lines_of(aligned).skip(1).map_values(
            |line: Seq<char>| line.push('\n'),
        ).flatten(),
        forall|i: int|
            0 <= i < lines_of(aligned).len() ==> encode_utf8(#[trigger] lines_of(aligned)[i]).len()
                <= length,
        exists|i: int|
            0 <= i < lines_of(aligned).len() && encode_utf8(#[trigger] lines_of(aligned)[i]).len()
                == length,
{
    let lines = lines_of(aligned);
    assert(lines.len() > 0);
    lemma_lines_text_flattens(lines.skip(1));
    assert forall|i: int| 0 <= i < lines.len() implies encode_utf8(#[trigger] lines[i]).len()
        <= longest_line(lines) by {
        lemma_longest_line(lines, i);
    }
    let at = lemma_longest_is_a_line(lines);
    assert(encode_utf8(lines[at]).len() == longest_line(lines));
    longest_line(lines)
}

proof fn lemma_longest_is_a_line(lines: Seq<Seq<char>>) -> (at: int)
    requires
        lines.len() > 0,
    ensures
        0 <= at < lines.len(),
        encode_utf8(lines[at]).len() == longest_line(lines),
    decreases lines.len(),
{
    let others = lines.drop_last();
    if encode_utf8(lines.last()).len() > longest_line(others) || others.len() == 0 {
        lines.len() - 1
    } else {
        lemma_longest_is_a_line(others)
    }
}

/// Where the first cell of a line ends after its tabs are replaced, and where the next begins.
proof fn lemma_expands_cell(cell: Seq<char>, rest: Seq<char>, out: Seq<char>, gap: nat) -> (n: int)
    requires
        expands_tabs(cell + seq!['\t'] + rest, out, gap),
        !cell.contains('\t'),
    ensures
        gap <= n,
        cell.len() + n <= out.len(),
        out.take(cell.len() as int) == cell,
        all_spaces(out.subrange(cell.len() as int, cell.len() + n)),
        expands_tabs(rest, out.skip(cell.len() + n), gap),
    decreases cell.len(),
{
    let text = cell + seq!['\t'] + rest;
    if cell.len() == 0 {
        let n = choose|n: int|
            gap <= n <= out.len() && all_spaces(out.take(n)) && expands_tabs(
                text.skip(1),
                #[trigger] out.skip(n),
                gap,
            );
        assert(text.skip(1) =~= rest);
        assert(out.take(0) =~= cell);
        assert(out.subrange(0, n) =~= out.take(n));
        n
    } else {
        assert(cell.contains(cell[0]));
        assert(text[0] == cell[0]);
        assert(text.skip(1) =~= cell.skip(1) + seq!['\t'] + rest);
        assert forall|i: int| 0 <= i < cell.skip(1).len() implies cell.skip(1)[i] != '\t' by {
            assert(cell.contains(cell[i + 1]));
        }
        let n = lemma_expands_cell(cell.skip(1), rest, out.skip(1), gap);
        let later = out.skip(1);
        let end = cell.len() as int;
        assert(out.take(end) =~= seq![out[0]] + later.take(end - 1));
        assert(cell =~= seq![cell[0]] + cell.skip(1));
        assert(out.subrange(end, end + n) =~= later.subrange(end - 1, end - 1 + n));
        assert(out.skip(end + n) =~= later.skip(end - 1 + n));
        n
    }
}

proof fn lemma_expands_nothing(text: Seq<char>, out: Seq<char>, gap: nat)
    requires
        expands_tabs(text, out, gap),
        !text.contains('\t'),
    ensures
        out == text,
    decreases text.len(),
{
    if text.len() > 0 {
        assert(text.contains(text[0]));
        assert forall|i: int| 0 <= i < text.skip(1).len() implies text.skip(1)[i] != '\t' by {
            assert(text.contains(text[i + 1]));
        }
        lemma_expands_nothing(text.skip(1), out.skip(1), gap);
        assert(out =~= seq![out[0]] + out.skip(1));
        assert(text =~= seq![text[0]] + text.skip(1));
    } else {
        assert(out =~= text);
    }
}

/// A line of four columns shows its four cells in order, with nothing but spaces between them, at
/// least as many as the gap asks for.
pub proof fn law_line_shows_its_cells(cells: Seq<Seq<char>>, line: Seq<char>, gap: nat) -> (gaps: (
    nat,
    nat,
    nat,
))
    requires
        cells.len() == 4,
        forall|j: int| 0 <= j < 4 ==> !(#[trigger] cells[j]).contains('\t'),
        expands_tabs(tab_joined(cells), line, gap),
    ensures
        gaps.0 >= gap && gaps.1 >= gap && gaps.2 >= gap,
        line == cells[0] + Seq::new(gaps.0, |i: int| ' ') + cells[1] + Seq::new(
            gaps.1,
            |i: int| ' ',
        ) + cells[2] + Seq::new(gaps.2, |i: int| ' ') + cells[3],
{
    let tab = seq!['\t'];
    let rest2 = cells[2] + tab + cells[3];
    let rest1 = cells[1] + tab + rest2;
    let front = cells.drop_last();
    assert(front.drop_last().drop_last() =~= seq![cells[0]]);
    reveal_with_fuel(tab_joined, 4);
    assert(tab_joined(cells) =~= cells[0] + tab + rest1);
    let n0 = lemma_expands_cell(cells[0], rest1, line, gap);
    let line1 = line.skip(cells[0].len() + n0);
    let n1 = lemma_expands_cell(cells[1], rest2, line1, gap);
    let line2 = line1.skip(cells[1].len() + n1);
    let n2 = lemma_expands_cell(cells[2], cells[3], line2, gap);
    let line3 = line2.skip(cells[2].len() + n2);
    lemma_expands_nothing(cells[3], line3, gap);
    lemma_parts(line, cells[0], n0);
    lemma_parts(line1, cells[1], n1);
    lemma_parts(line2, cells[2], n2);
    let gaps = (n0 as nat, n1 as nat, n2 as nat);
    assert(line =~= cells[0] + Seq::new(gaps.0, |i: int| ' ') + cells[1] + Seq::new(
        gaps.1,
        |i: int| ' ',
    ) + cells[2] + Seq::new(gaps.2, |i: int| ' ') + cells[3]);
    gaps
}

/// A text that starts with a cell and spaces is these and what follows.
proof fn lemma_parts(line: Seq<char>, cell: Seq<char>, n: int)
    requires
        0 <= n,
        cell.len() + n <= line.len(),
        line.take(cell.len() as int) == cell,
        all_spaces(line.subrange(cell.len() as int, cell.len() + n)),
    ensures
        line == cell + Seq::new(n as nat, |i: int| ' ') + line.skip(cell.len() + n),
{
    let end = cell.len() as int;
    let whole = cell + Seq::new(n as nat, |i: int| ' ') + line.skip(end + n);
    assert forall|i: int| 0 <= i < line.len() implies line[i] == whole[i] by {
        if i < end {
            assert(line.take(end)[i] == line[i]);
        } else if i < end + n {
            assert(line.subrange(end, end + n)[i - end] == line[i]);
        }
    }
    assert(line =~= whole);
}

/// The views of rows hold every cell of every row, in order.
pub proof fn law_row_views_hold_every_cell(rows: Seq<Vec<String>>)
    ensures
        row_views(rows).len() == rows.len(),
        forall|i: int|
            0 <= i < rows.len() ==> (#[trigger] row_views(rows)[i]).len() == rows[i]@.len(),
        forall|i: int, j: int|
            0 <= i < rows.len() && 0 <= j < rows[i]@.len() ==> #[trigger] row_views(rows)[i][j]
                == rows[i]@[j]@,
{
}

/// Below the header and the horizontal line of a table stands one line for each row, in order.
/// Where the row has four cells without tabs, its line shows just them, with two or more spaces
/// between them.
pub proof fn law_table_line_shows_its_row(
    headers: Seq<Seq<char>>,
    rows: Seq<Seq<Seq<char>>>,
    i: int,
) -> (gaps: (nat, nat, nat))
    requires
        is_one_line_row(headers),
        forall|k: int| 0 <= k < rows.len() ==> is_one_line_row(#[trigger] rows[k]),
        is_aligned(headers, rows),
        0 <= i < rows.len(),
        rows[i].len() == 4,
        forall|j: int| 0 <= j < 4 ==> !(#[trigger] rows[i][j]).contains('\t'),
    ensures
        gaps.0 >= 2 && gaps.1 >= 2 && gaps.2 >= 2,
        lines_of(table_of(headers, rows)).len() == rows.len() + 2,
        lines_of(table_of(headers, rows))[i + 2] == rows[i][0] + Seq::new(gaps.0, |k: int| ' ')
            + rows[i][1] + Seq::new(gaps.1, |k: int| ' ') + rows[i][2] + Seq::new(
            gaps.2,
            |k: int| ' ',
        ) + rows[i][3],
{
    law_table_shows_rows(headers, rows);
    law_line_shows_its_cells(rows[i], lines_of(table_of(headers, rows))[i + 2], 2)
}

} // verus!
