use quickcsv::report::{
    decimal_text, missing_count_text, preview_records, summary_records, ColumnTexts, QuartileTexts,
    DEFAULT_PREVIEW_ROWS,
};
use quickcsv::table::{data_table, stats_table};
use quickcsv::visible::{visible_cells, visible_text};

fn texts(cells: &[&str]) -> Vec<String> {
    cells.iter().map(|cell| cell.to_string()).collect()
}

fn table(rows: &[&[&str]]) -> Vec<Vec<String>> {
    rows.iter().map(|row| texts(row)).collect()
}

fn rendered(mean: &str, std: &str, quartiles: Option<[&str; 5]>) -> ColumnTexts {
    ColumnTexts {
        mean: mean.to_string(),
        std: std.to_string(),
        quartiles: quartiles.map(|q| QuartileTexts {
            min: q[0].to_string(),
            q1: q[1].to_string(),
            median: q[2].to_string(),
            q3: q[3].to_string(),
            max: q[4].to_string(),
        }),
    }
}

#[test]
fn decimal_numerals() {
    assert_eq!(decimal_text(0), "0");
    assert_eq!(decimal_text(7), "7");
    assert_eq!(decimal_text(10), "10");
    assert_eq!(decimal_text(1905), "1905");
    assert_eq!(decimal_text(1000000), "1000000");
    assert_eq!(decimal_text(usize::MAX), usize::MAX.to_string());
    for n in 0..2000 {
        assert_eq!(decimal_text(n), n.to_string());
    }
}

#[test]
fn zero_missing_values_show_as_nothing() {
    assert_eq!(missing_count_text(0), "");
    assert_eq!(missing_count_text(1), "1");
    assert_eq!(missing_count_text(250), "250");
}

#[test]
fn preview_labels_rows_with_their_position() {
    let headers = texts(&["a", "b"]);
    let rows = table(&[&["1", "x"], &["2", "y"], &["3", "z"]]);
    assert_eq!(
        preview_records(&headers, &rows, None),
        table(&[&["", "a", "b"], &["0", "1", "x"], &["1", "2", "y"], &["2", "3", "z"]])
    );
}

#[test]
fn preview_stops_at_the_limit() {
    let headers = texts(&["a"]);
    let rows = table(&[&["p"], &["q"], &["r"]]);
    assert_eq!(preview_records(&headers, &rows, Some(2)), table(&[&["", "a"], &["0", "p"], &["1", "q"]]));
    assert_eq!(preview_records(&headers, &rows, Some(0)), table(&[&["", "a"]]));
    assert_eq!(preview_records(&headers, &rows, Some(3)).len(), 4);
    assert_eq!(preview_records(&headers, &rows, Some(100)).len(), 4);
}

#[test]
fn preview_shows_ten_rows_by_default() {
    assert_eq!(DEFAULT_PREVIEW_ROWS, 10);
    let headers = texts(&["n"]);
    let rows: Vec<Vec<String>> = (0..25).map(|i| vec![format!("v{i}")]).collect();
    let records = preview_records(&headers, &rows, None);
    assert_eq!(records.len(), 11);
    assert_eq!(records[10], texts(&["9", "v9"]));
    let records = preview_records(&headers, &rows, Some(12));
    assert_eq!(records.len(), 13);
    assert_eq!(records[12], texts(&["11", "v11"]));
}

#[test]
fn preview_of_empty_table_is_the_header() {
    let rows: Vec<Vec<String>> = Vec::new();
    assert_eq!(preview_records(&texts(&["a", "b"]), &rows, None), table(&[&["", "a", "b"]]));
    assert_eq!(preview_records(&Vec::new(), &rows, None), table(&[&[""]]));
}

#[test]
fn summary_has_ten_labelled_records() {
    let headers = texts(&["x", "name"]);
    let rows = table(&[&["1", "ann"], &["2", "bob"], &["3", ""], &["oops", "dan"]]);
    let columns = vec![
        rendered("2.000", "1.000", Some(["1.000", "1.000", "2.000", "3.000", "3.000"])),
        rendered("0.000", "0.000", None),
    ];
    assert_eq!(
        summary_records(&headers, &rows, &columns),
        table(&[
            &["", "x", "name"],
            &["count", "4", "4"],
            &["NaN", "1", "4"],
            &["mean", "2.000", "0.000"],
            &["std", "1.000", "0.000"],
            &["min", "1.000", "N/A"],
            &["q1", "1.000", "N/A"],
            &["median", "2.000", "N/A"],
            &["q3", "3.000", "N/A"],
            &["max", "3.000", "N/A"],
        ])
    );
}

#[test]
fn summary_leaves_zero_missing_values_empty() {
    let headers = texts(&["x", "y"]);
    let rows = table(&[&["1", "2"], &["3", "4"]]);
    let records = summary_records(&headers, &rows, &Vec::new());
    assert_eq!(records[1], texts(&["count", "2", "2"]));
    assert_eq!(records[2], texts(&["NaN", "", ""]));
    assert_eq!(records[3], texts(&["mean"]));
    assert_eq!(records[9], texts(&["max"]));
    assert_eq!(records.len(), 10);
}

#[test]
fn summary_of_empty_table() {
    let rows: Vec<Vec<String>> = Vec::new();
    let records = summary_records(&texts(&["a"]), &rows, &vec![rendered("0.000", "0.000", None)]);
    assert_eq!(
        records,
        table(&[
            &["", "a"],
            &["count", "0"],
            &["NaN", ""],
            &["mean", "0.000"],
            &["std", "0.000"],
            &["min", "N/A"],
            &["q1", "N/A"],
            &["median", "N/A"],
            &["q3", "N/A"],
            &["max", "N/A"],
        ])
    );
}

/// A cell of the first record as it is drawn: black on blue.
fn head(text: &str) -> String {
    format!("\u{1b}[44m\u{1b}[30m{text}\u{1b}[49m\u{1b}[39m")
}

#[test]
fn data_table_is_drawn() {
    let headers = texts(&["a", "b"]);
    let rows = table(&[&["1", "x"], &["2", "y"]]);
    let expected = [
        "┌─Data──┬───┐".to_string(),
        format!("│ {}  │ {} │ {} │", head(""), head("a"), head("b")),
        "├───┼───┼───┤".to_string(),
        "│ 0 │ 1 │ x │".to_string(),
        "├───┼───┼───┤".to_string(),
        "│ 1 │ 2 │ y │".to_string(),
        "└───┴───┴───┘".to_string(),
    ];
    assert_eq!(data_table(&headers, &rows, None), expected.join("\n"));
}

#[test]
fn data_table_shows_no_more_rows_than_asked() {
    let headers = texts(&["a", "b"]);
    let rows = table(&[&["1", "x"], &["2", "y"]]);
    let expected = [
        "┌─Data──┬───┐".to_string(),
        format!("│ {}  │ {} │ {} │", head(""), head("a"), head("b")),
        "├───┼───┼───┤".to_string(),
        "│ 0 │ 1 │ x │".to_string(),
        "└───┴───┴───┘".to_string(),
    ];
    assert_eq!(data_table(&headers, &rows, Some(1)), expected.join("\n"));
}

#[test]
fn stats_table_is_drawn() {
    let headers = texts(&["x", "name"]);
    let rows = table(&[&["1", "ann"], &["2", "bob"], &["3", ""], &["oops", "dan"]]);
    let columns = vec![
        rendered("2.000", "1.000", Some(["1.000", "1.000", "2.000", "3.000", "3.000"])),
        rendered("0.000", "0.000", None),
    ];
    let expected = [
        "┌─Stats──┬───────┬───────┐".to_string(),
        format!("│ {}       │ {}     │ {}  │", head(""), head("x"), head("name")),
        "├────────┼───────┼───────┤".to_string(),
        "│ count  │ 4             │".to_string(),
        "├────────┼───────┼───────┤".to_string(),
        "│ NaN    │ 1     │ 4     │".to_string(),
        "├────────┼───────┼───────┤".to_string(),
        "│ mean   │ 2.000 │ 0.000 │".to_string(),
        "├────────┼───────┼───────┤".to_string(),
        "│ std    │ 1.000 │ 0.000 │".to_string(),
        "├────────┼───────┼───────┤".to_string(),
        "│ min    │ 1.000 │ N/A   │".to_string(),
        "├────────┼───────┼───────┤".to_string(),
        "│ q1     │ 1.000 │ N/A   │".to_string(),
        "├────────┼───────┼───────┤".to_string(),
        "│ median │ 2.000 │ N/A   │".to_string(),
        "├────────┼───────┼───────┤".to_string(),
        "│ q3     │ 3.000 │ N/A   │".to_string(),
        "├────────┼───────┼───────┤".to_string(),
        "│ max    │ 3.000 │ N/A   │".to_string(),
        "└────────┴───────┴───────┘".to_string(),
    ];
    assert_eq!(stats_table(&headers, &rows, &columns), expected.join("\n"));
}

#[test]
fn text_without_escape_is_shown_as_it_is() {
    for text in ["", "a", "plain text", "1.5", "héllo wörld", "日本語", "tab\tand\nnewline", "\u{9b}31m", "\u{0}\u{7}\u{7f}"] {
        assert_eq!(visible_text(text), text);
    }
}

#[test]
fn escape_is_shown_as_its_symbol() {
    assert_eq!(visible_text("\u{1b}"), "\u{241b}");
    assert_eq!(visible_text("\u{1b}\u{1b}"), "\u{241b}\u{241b}");
    assert_eq!(visible_text("a\u{1b}b"), "a\u{241b}b");
    assert_eq!(visible_text("\u{1b}[31mred\u{1b}[0m"), "\u{241b}[31mred\u{241b}[0m");
    assert_eq!(visible_text("é\u{1b}é\u{1b}"), "é\u{241b}é\u{241b}");
    assert_eq!(visible_text("\u{1b}[1<mééé\u{1b}"), "\u{241b}[1<mééé\u{241b}");
    assert_eq!(visible_text("日本\u{1b}語"), "日本\u{241b}語");
}

#[test]
fn cells_are_shown_one_by_one() {
    let records = table(&[&["a\u{1b}", "b"], &[], &["\u{1b}", "", "c\u{1b}d"]]);
    assert_eq!(
        visible_cells(&records),
        table(&[&["a\u{241b}", "b"], &[], &["\u{241b}", "", "c\u{241b}d"]])
    );
    let plain = table(&[&["x", "y"], &["1", "2"]]);
    assert_eq!(visible_cells(&plain), plain);
}

#[test]
fn data_table_with_escape_sequences_is_drawn() {
    let headers = texts(&["\u{1b}[1<mééé\u{1b}"]);
    let rows = table(&[&["\u{1b}[31mred\u{1b}[0m"], &["\u{1b}"], &["\u{1b}]0;title\u{7}"]]);
    let text = data_table(&headers, &rows, None);
    let cleaned_headers = texts(&["\u{241b}[1<mééé\u{241b}"]);
    let cleaned_rows = table(&[&["\u{241b}[31mred\u{241b}[0m"], &["\u{241b}"], &["\u{241b}]0;title\u{7}"]]);
    assert_eq!(text, data_table(&cleaned_headers, &cleaned_rows, None));
    let expected = [
        "┌─Data─────────────┐".to_string(),
        format!("│ {}  │ {}    │", head(""), head("␛[1<mééé␛")),
        "├───┼──────────────┤".to_string(),
        "│ 0 │ ␛[31mred␛[0m │".to_string(),
        "├───┼──────────────┤".to_string(),
        "│ 1 │ ␛            │".to_string(),
        "├───┼──────────────┤".to_string(),
        "│ 2 │ ␛]0;title\u{7}   │".to_string(),
        "└───┴──────────────┘".to_string(),
    ];
    assert_eq!(text, expected.join("\n"));
}

#[test]
fn stats_table_with_escape_sequences_is_drawn() {
    let headers = texts(&["\u{1b}[1<mééé\u{1b}", "b"]);
    let rows = table(&[&["1", "\u{1b}"], &["2", "x"]]);
    let columns = vec![
        rendered("1.500", "0.707", Some(["1.000", "1.000", "1.500", "2.000", "2.000"])),
        rendered("\u{1b}[2J", "0.000", None),
    ];
    let text = stats_table(&headers, &rows, &columns);
    assert!(text.contains("␛[1<mééé␛"));
    assert!(text.contains("␛[2J"));
    assert!(!text.contains("\u{1b}[2J"));
    assert!(!text.contains("\u{1b}[1<m"));
    let cleaned = vec![
        rendered("1.500", "0.707", Some(["1.000", "1.000", "1.500", "2.000", "2.000"])),
        rendered("\u{241b}[2J", "0.000", None),
    ];
    assert_eq!(text, stats_table(&texts(&["\u{241b}[1<mééé\u{241b}", "b"]), &rows, &cleaned));
}

#[test]
fn tables_with_control_characters_are_drawn() {
    let headers = texts(&["a\nb", "\u{9b}31m", "tab\t"]);
    let rows = table(&[&["\u{0}", "\u{7f}", "\u{85}"], &["line\r\nbreak", "é\u{301}", "\u{202e}rtl"]]);
    let text = data_table(&headers, &rows, None);
    assert!(text.starts_with("┌─Data"));
    let summary = stats_table(&headers, &rows, &Vec::new());
    assert!(summary.starts_with("┌─Stats"));
}
