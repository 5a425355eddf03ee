use quickcsv::column::{column_nas, column_numeric_rows, column_rows};
use quickcsv::literal::is_numeric_text;
use quickcsv::moments::{deviation_divisor, mean_divisor};

fn table(rows: &[&[&str]]) -> Vec<Vec<String>> {
    rows.iter()
        .map(|row| row.iter().map(|cell| cell.to_string()).collect())
        .collect()
}

fn column(cells: &[&str]) -> Vec<Vec<String>> {
    cells.iter().map(|cell| vec![cell.to_string()]).collect()
}

/// The numbers of a column's numeric series, parsed from the cells that the
/// library picked.
fn series(rows: &[Vec<String>], col: usize) -> Vec<f64> {
    column_numeric_rows(rows, col)
        .iter()
        .map(|&r| rows[r][col].parse::<f64>().unwrap())
        .collect()
}

fn mean(values: &[f64]) -> f64 {
    match mean_divisor(values.len()) {
        Some(n) => values.iter().sum::<f64>() / n as f64,
        None => 0.0,
    }
}

fn standard_deviation(values: &[f64]) -> f64 {
    let Some(freedom) = deviation_divisor(values.len()) else {
        return 0.0;
    };
    let m = mean(values);
    let variance = values.iter().map(|v| (m - v) * (m - v)).sum::<f64>() / freedom as f64;
    variance.sqrt()
}

#[test]
fn row_count_of_empty_table_is_zero() {
    let rows: Vec<Vec<String>> = Vec::new();
    assert_eq!(column_rows(&rows), 0);
}

#[test]
fn row_count_ignores_cell_content() {
    let rows = table(&[&["1", "x"], &[], &["", "", "3"], &["abc"]]);
    assert_eq!(column_rows(&rows), 4);
    assert_eq!(column_rows(&rows), rows.len());
}

#[test]
fn na_count_is_zero_when_every_cell_parses() {
    let rows = column(&["1", "-2.5", "3e4", ".5", "7.", "+0", "inf", "-Infinity", "1E-3"]);
    assert_eq!(column_nas(&rows, 0), 0);
    assert_eq!(column_numeric_rows(&rows, 0), vec![0, 1, 2, 3, 4, 5, 6, 7, 8]);
}

#[test]
fn na_count_counts_text_and_empty_cells() {
    let rows = column(&["1.5", "abc", "", "2.5"]);
    assert_eq!(column_nas(&rows, 0), 2);
}

#[test]
fn na_count_counts_rows_too_short_for_the_column() {
    let rows = table(&[&["1", "2"], &["3"], &[], &["4", "x"], &["5", "6"]]);
    assert_eq!(column_nas(&rows, 0), 1);
    assert_eq!(column_nas(&rows, 1), 3);
    assert_eq!(column_nas(&rows, 2), 5);
    assert_eq!(column_numeric_rows(&rows, 0), vec![0, 1, 3, 4]);
    assert_eq!(column_numeric_rows(&rows, 1), vec![0, 4]);
    assert_eq!(column_numeric_rows(&rows, 2), Vec::<usize>::new());
}

#[test]
fn na_count_of_empty_table_is_zero() {
    let rows: Vec<Vec<String>> = Vec::new();
    assert_eq!(column_nas(&rows, 0), 0);
    assert_eq!(column_numeric_rows(&rows, 3), Vec::<usize>::new());
}

#[test]
fn not_a_number_spelling_counts_as_missing() {
    let rows = column(&["nan", "NaN", "-nan", "+NAN", "1"]);
    assert_eq!(column_nas(&rows, 0), 4);
    assert_eq!(column_numeric_rows(&rows, 0), vec![4]);
}

#[test]
fn every_row_is_missing_or_in_the_series() {
    let rows = table(&[
        &["1", "a", "3"],
        &["x", "2"],
        &["", "", ""],
        &["4.5", "5e1", "six"],
        &[],
        &["7", "8", "9"],
    ]);
    for col in 0..5 {
        let missing = column_nas(&rows, col);
        let numeric = column_numeric_rows(&rows, col).len();
        assert_eq!(missing + numeric, column_rows(&rows));
    }
}

#[test]
fn numeric_series_round_trip() {
    let rows = column(&["1.5", "abc", "", "2.5"]);
    assert_eq!(column_nas(&rows, 0), 2);
    assert_eq!(column_numeric_rows(&rows, 0), vec![0, 3]);
    assert_eq!(series(&rows, 0), vec![1.5, 2.5]);
    assert_eq!(mean(&series(&rows, 0)), 2.0);
}

#[test]
fn mean_and_deviation_of_the_series() {
    let rows = column(&["1", "2", "3"]);
    let values = series(&rows, 0);
    assert_eq!(values, vec![1.0, 2.0, 3.0]);
    assert_eq!(mean(&values), 2.0);
    assert_eq!(standard_deviation(&values), 1.0);
}

#[test]
fn mean_and_deviation_without_numbers_are_zero() {
    let rows = column(&["a", "", "nan"]);
    let values = series(&rows, 0);
    assert!(values.is_empty());
    assert_eq!(mean(&values), 0.0);
    assert_eq!(standard_deviation(&values), 0.0);
    let one = series(&column(&["4"]), 0);
    assert_eq!(mean(&one), 4.0);
    assert_eq!(standard_deviation(&one), 0.0);
}

#[test]
fn mean_divides_by_the_number_of_members() {
    assert_eq!(mean_divisor(0), None);
    assert_eq!(mean_divisor(1), Some(1));
    assert_eq!(mean_divisor(3), Some(3));
    assert_eq!(mean_divisor(usize::MAX), Some(usize::MAX));
}

#[test]
fn deviation_divides_by_one_less_than_the_number_of_members() {
    assert_eq!(deviation_divisor(0), None);
    assert_eq!(deviation_divisor(1), None);
    assert_eq!(deviation_divisor(2), Some(1));
    assert_eq!(deviation_divisor(3), Some(2));
    assert_eq!(deviation_divisor(usize::MAX), Some(usize::MAX - 1));
}

#[test]
fn deviation_of_a_sample() {
    let rows = column(&["2", "4", "4", "4", "5", "5", "7", "9"]);
    let values = series(&rows, 0);
    assert_eq!(mean(&values), 5.0);
    assert_eq!(standard_deviation(&values), (32.0f64 / 7.0).sqrt());
    let two = series(&column(&["1", "3"]), 0);
    assert_eq!(standard_deviation(&two), 2.0f64.sqrt());
}

#[test]
fn statistics_are_repeatable() {
    let rows = table(&[&["1", "a"], &["x", "2"], &["3"], &["4", "5"]]);
    for col in 0..3 {
        assert_eq!(column_rows(&rows), column_rows(&rows));
        assert_eq!(column_nas(&rows, col), column_nas(&rows, col));
        assert_eq!(column_numeric_rows(&rows, col), column_numeric_rows(&rows, col));
    }
}

#[test]
fn literals_with_digits() {
    for text in ["0", "7", "42", "007", "1234567890", "123456789012345678901234567890"] {
        assert!(is_numeric_text(text), "{text}");
    }
}

#[test]
fn literals_with_a_point() {
    for text in ["1.5", "1.", ".5", "0.0", "10.25", "000.000"] {
        assert!(is_numeric_text(text), "{text}");
    }
    for text in [".", "1..5", "1.5.", "..5", "1.2.3", ". 5"] {
        assert!(!is_numeric_text(text), "{text}");
    }
}

#[test]
fn literals_with_a_sign() {
    for text in ["+1", "-1", "+.5", "-5.", "-0", "+1e5", "-inf", "+infinity"] {
        assert!(is_numeric_text(text), "{text}");
    }
    for text in ["+", "-", "+-1", "--1", "1-", "1+", "+.", "- 1", "+e5"] {
        assert!(!is_numeric_text(text), "{text}");
    }
}

#[test]
fn literals_with_an_exponent() {
    for text in ["1e5", "1E5", "1e+5", "1e-5", "1.e5", ".5e5", "1.5E-10", "2e0", "1e999", "1e-999"] {
        assert!(is_numeric_text(text), "{text}");
    }
    for text in ["e5", "1e", "1e+", "1e-", "1e5.", "1e5e5", "1e 5", ".e5", "1e+-5", "1e5x", "E", "1ee5"] {
        assert!(!is_numeric_text(text), "{text}");
    }
}

#[test]
fn literals_of_infinity() {
    for text in ["inf", "INF", "Inf", "iNf", "infinity", "INFINITY", "Infinity", "-inf", "+Infinity"] {
        assert!(is_numeric_text(text), "{text}");
    }
    for text in ["in", "infi", "infinit", "infinityy", "inf ", " inf", "i", "infinite", "1inf", "inf1"] {
        assert!(!is_numeric_text(text), "{text}");
    }
}

#[test]
fn texts_that_are_no_literals() {
    for text in [
        "", " ", "abc", "1 ", " 1", "1,5", "1_000", "0x10", "1f", "٣", "１", "1\u{e9}", "\u{e9}", "½",
        "1\n", "\t1", "$5", "5%", "true", "null", "N/A", "nan", "NaN", "-nan", "1e5\u{0}",
    ] {
        assert!(!is_numeric_text(text), "{text:?}");
    }
}

#[test]
fn literals_are_what_the_standard_parser_takes_as_numbers() {
    let pieces = ["", "+", "-", "1", "0", ".", "e", "E", "inf", "INFINITY", "nan", " ", "x", "9"];
    let mut texts: Vec<String> = Vec::new();
    for a in pieces {
        for b in pieces {
            for c in pieces {
                for d in pieces {
                    texts.push(format!("{a}{b}{c}{d}"));
                }
            }
        }
    }
    for text in &texts {
        let expected = match text.parse::<f64>() {
            Ok(value) => !value.is_nan(),
            Err(_) => false,
        };
        assert_eq!(is_numeric_text(text), expected, "{text:?}");
    }
}

#[test]
fn random_texts_are_classified_as_the_standard_parser_does() {
    let alphabet: Vec<char> = "0123456789+-..eEinfINFtyTYaAnN x".chars().collect();
    let mut x: u64 = 2024;
    let mut numeric = 0;
    for _ in 0..300000 {
        x = x.wrapping_mul(6364136223846793005).wrapping_add(1442695040888963407);
        let len = ((x >> 60) % 10) as usize;
        let mut text = String::new();
        let mut y = x;
        for _ in 0..len {
            y = y.wrapping_mul(6364136223846793005).wrapping_add(1442695040888963407);
            text.push(alphabet[((y >> 33) % alphabet.len() as u64) as usize]);
        }
        let expected = match text.parse::<f64>() {
            Ok(value) => !value.is_nan(),
            Err(_) => false,
        };
        assert_eq!(is_numeric_text(&text), expected, "{text:?}");
        if expected {
            numeric += 1;
        }
    }
    assert!(numeric > 1000);
}
