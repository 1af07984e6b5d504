use riftbound_events::table::{frame_table, make_table, write_row};

fn row(cells: &[&str]) -> Vec<String> {
    cells.iter().map(|cell| cell.to_string()).collect()
}

#[test]
fn a_row_is_written_on_a_line() {
    let mut text = "above\n".to_string();
    write_row(&mut text, &row(&["a", "", "b c"]));
    assert_eq!(text, "above\na\t\tb c\n");
    write_row(&mut text, &row(&[]));
    write_row(&mut text, &row(&["x"]));
    assert_eq!(text, "above\na\t\tb c\n\nx\n");
}

#[test]
fn columns_line_up() {
    let table = make_table(
        &row(&["#", "Player", "Record"]),
        &vec![row(&["1", "Alexandra", "3-0"]), row(&["10", "Bo", "2-1"])],
    );
    assert_eq!(
        table,
        "#   Player     Record\n\
         ─────────────────────\n\
         1   Alexandra  3-0\n\
         10  Bo         2-1\n"
    );
}

#[test]
fn a_table_without_rows_is_a_header() {
    let table = make_table(&row(&["Round", "Record"]), &vec![]);
    assert_eq!(table, "Round  Record\n─────────────\n");
}

#[test]
fn the_line_counts_bytes() {
    let table = make_table(&row(&["a", "b"]), &vec![row(&["é", "─"])]);
    assert_eq!(table, "a   b\n────────\né   ─\n");
}

#[test]
fn aligned_text_gets_a_line_below_its_header() {
    assert_eq!(frame_table("head"), "head\n────\n");
    assert_eq!(frame_table("h\nlonger\r\nx\n"), "h\n──────\nlonger\nx\n");
    assert_eq!(frame_table("\n"), "\n\n");
}
