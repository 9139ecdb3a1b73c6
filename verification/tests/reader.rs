use ferromagnetic::igrf::coeffs::{Epoch, TableError};
use ferromagnetic::igrf::header::ShapeError;
use ferromagnetic::igrf::reader::{read_table, ReadError};
use ferromagnetic::igrf::text::Cell;

/// The text of a table with the given labels and number of coefficient
/// lines, whose cell for column `c` on coefficient line `r` holds `r.c`.
fn table_text(labels: &[&str], rows: usize) -> String {
    let mut text = String::from("# a table\nc/s deg ord");
    for _ in labels {
        text.push_str(" IGRF");
    }
    text.push_str("\ng/h n m");
    for label in labels {
        text.push(' ');
        text.push_str(label);
    }
    text.push('\n');
    for r in 0..rows {
        text.push_str("g 1 0");
        for c in 0..labels.len() {
            text.push_str(&format!("  {}.{}", r, c));
        }
        text.push_str("\r\n\n");
    }
    text
}

fn error_of(text: &str) -> Option<ReadError> {
    read_table(text.as_bytes()).err()
}

#[test]
fn reads_a_table() {
    let text = table_text(&["2015.0", "2020.0", "2025.0", "2025-30"], 195);
    let (model, lines) = read_table(text.as_bytes()).ok().unwrap();
    let table = model.coeffs();
    assert_eq!(table.len(), 4);
    assert_eq!(table.rows(), 195);
    assert_eq!(table.epoch(0), Epoch { year: 2015, nmax: 13 });
    assert_eq!(table.epoch(2), Epoch { year: 2025, nmax: 13 });
    assert_eq!(table.epoch(3), Epoch { year: 2030, nmax: 8 });
    assert_eq!(lines.len(), 197);
    assert_eq!(lines[0].len(), 7);
    let label = lines[1][6];
    assert_eq!(&text[label.start..label.end], "2025-30");
    let cell = lines[2 + 194][3 + 2];
    assert_eq!(&text[cell.start..cell.end], "194.2");
    assert_eq!(text[cell.start..cell.end].parse::<f64>(), Ok(194.2));
}

#[test]
fn reads_the_standard_columns() {
    let mut labels: Vec<String> = (1900..=2025).step_by(5).map(|y| format!("{}.0", y)).collect();
    labels.push(String::from("2025-30"));
    let labels: Vec<&str> = labels.iter().map(|s| s.as_str()).collect();
    let text = table_text(&labels, 195);
    let (model, _) = read_table(text.as_bytes()).ok().unwrap();
    let table = model.coeffs();
    assert_eq!(table.len(), 27);
    assert_eq!(table.epoch(0), Epoch { year: 1900, nmax: 10 });
    assert_eq!(table.epoch(26), Epoch { year: 2030, nmax: 8 });
    assert_eq!(table.synthesized_epoch(), (2025, 2030));
}

#[test]
fn text_without_header() {
    assert_eq!(error_of(""), Some(ReadError::Shape(ShapeError::MissingHeader)));
    assert_eq!(error_of("# only\n\n"), Some(ReadError::Shape(ShapeError::MissingHeader)));
    assert_eq!(error_of("g/h n m 2020.0"), Some(ReadError::Shape(ShapeError::MissingHeader)));
}

#[test]
fn text_with_a_short_line() {
    let text = "a b c X Y\ng/h n m 2020.0 2020-25\ng 1 0 1.0 2.0\ng 1 1 3.0\n";
    assert_eq!(error_of(text), Some(ReadError::Shape(ShapeError::ShortLine { line: 3 })));
}

#[test]
fn shape_is_checked_before_the_labels() {
    let text = "a b c X Y\ng/h n m twenty 2020-25\ng 1 0 1.0\n";
    assert_eq!(error_of(text), Some(ReadError::Shape(ShapeError::ShortLine { line: 2 })));
}

#[test]
fn label_that_names_no_epoch() {
    let text = table_text(&["2020.0", "SV"], 195);
    assert_eq!(error_of(&text), Some(ReadError::Label { column: 1 }));
    let text = table_text(&["x", "y"], 195);
    assert_eq!(error_of(&text), Some(ReadError::Label { column: 0 }));
    let text = table_text(&["2020.0", "40000"], 195);
    assert_eq!(error_of(&text), Some(ReadError::Label { column: 1 }));
}

#[test]
fn labels_are_checked_before_the_table() {
    let text = table_text(&["2020.0", "2021.0", "x"], 1);
    assert_eq!(error_of(&text), Some(ReadError::Label { column: 2 }));
}

#[test]
fn epochs_that_make_no_table() {
    let text = table_text(&["2020.0"], 195);
    assert_eq!(error_of(&text), Some(ReadError::Table(TableError::TooFewEpochs)));
    let text = "a b c\nd e f\n";
    assert_eq!(error_of(text), Some(ReadError::Table(TableError::TooFewEpochs)));
    let text = table_text(&["2020.0", "2020-26"], 195);
    assert_eq!(error_of(&text), Some(ReadError::Table(TableError::UnevenSpacing)));
    let text = table_text(&["2020.0", "2020-25"], 194);
    assert_eq!(error_of(&text), Some(ReadError::Table(TableError::TooFewRows)));
}

#[test]
fn header_lines_give_the_columns() {
    // three labels, but the first header line has two columns only
    let text = "a b c X Y\ng/h n m 2015.0 2020.0 2020-25\n".to_string()
        + &"g 1 0 1.0 2.0\n".repeat(195);
    let (model, lines) = read_table(text.as_bytes()).ok().unwrap();
    assert_eq!(model.coeffs().len(), 2);
    assert_eq!(model.coeffs().epoch(1), Epoch { year: 2020, nmax: 8 });
    assert_eq!(lines[2][3], Cell { start: 46, end: 49 });
}
