use ferromagnetic::igrf::text::{line_cells, space_at, table_cells, Cell};

/// The cells of each line that counts, as text.
fn cells(text: &str) -> Vec<Vec<&str>> {
    table_cells(text.as_bytes())
        .iter()
        .map(|line| line.iter().map(|cell| &text[cell.start..cell.end]).collect())
        .collect()
}

/// The same split by the string functions of the standard library.
fn split(text: &str) -> Vec<Vec<&str>> {
    text.split('\n')
        .filter(|s| !s.is_empty())
        .filter(|s| !s.starts_with('#'))
        .map(|s| s.split_whitespace().collect())
        .collect()
}

#[test]
fn cells_of_a_small_table() {
    let text = "# 14th generation\nc/s deg ord IGRF SV\ng/h n m 2025.0 2025-30\ng 1 0 -29350.0 12.6\n";
    assert_eq!(
        cells(text),
        vec![
            vec!["c/s", "deg", "ord", "IGRF", "SV"],
            vec!["g/h", "n", "m", "2025.0", "2025-30"],
            vec!["g", "1", "0", "-29350.0", "12.6"],
        ]
    );
}

#[test]
fn cells_are_byte_ranges() {
    assert_eq!(
        table_cells(b"ab  c\n\n d"),
        vec![
            vec![Cell { start: 0, end: 2 }, Cell { start: 4, end: 5 }],
            vec![Cell { start: 8, end: 9 }],
        ]
    );
    assert_eq!(
        line_cells(b"ab  c\n\n d", 1, 5),
        vec![Cell { start: 1, end: 2 }, Cell { start: 4, end: 5 }]
    );
    assert_eq!(line_cells(b"ab  c", 2, 4), vec![]);
    assert_eq!(line_cells(b"ab  c", 3, 3), vec![]);
}

#[test]
fn empty_lines_and_comments_are_skipped() {
    assert_eq!(cells(""), Vec::<Vec<&str>>::new());
    assert_eq!(cells("\n\n\n"), Vec::<Vec<&str>>::new());
    assert_eq!(cells("# a\n#b\n#"), Vec::<Vec<&str>>::new());
    assert_eq!(cells("a\n\n#x\nb"), vec![vec!["a"], vec!["b"]]);
}

#[test]
fn a_line_of_white_space_counts_and_has_no_cells() {
    assert_eq!(cells(" \n\t\t\nx"), vec![vec![], vec![], vec!["x"]]);
    assert_eq!(cells("a\r\n\r\nb\r\n"), vec![vec!["a"], vec![], vec!["b"]]);
}

#[test]
fn a_comment_sign_behind_white_space_is_a_cell() {
    assert_eq!(cells(" # a"), vec![vec!["#", "a"]]);
    assert_eq!(cells("a #b"), vec![vec!["a", "#b"]]);
}

#[test]
fn white_space_characters() {
    assert_eq!(space_at(b" ", 0), 1);
    assert_eq!(space_at(b"\t", 0), 1);
    assert_eq!(space_at(b"\n", 0), 1);
    assert_eq!(space_at(b"\x0b\x0c\r", 1), 1);
    assert_eq!(space_at(b"a ", 0), 0);
    assert_eq!(space_at(b"\x08", 0), 0);
    assert_eq!(space_at(b"\x0e", 0), 0);
    assert_eq!(space_at("\u{85}".as_bytes(), 0), 2);
    assert_eq!(space_at("\u{a0}".as_bytes(), 0), 2);
    assert_eq!(space_at("\u{a0}".as_bytes(), 1), 0);
    assert_eq!(space_at("\u{a1}".as_bytes(), 0), 0);
    assert_eq!(space_at("\u{1680}".as_bytes(), 0), 3);
    assert_eq!(space_at("\u{2000}".as_bytes(), 0), 3);
    assert_eq!(space_at("\u{200a}".as_bytes(), 0), 3);
    assert_eq!(space_at("\u{200b}".as_bytes(), 0), 0);
    assert_eq!(space_at("\u{2028}".as_bytes(), 0), 3);
    assert_eq!(space_at("\u{2029}".as_bytes(), 0), 3);
    assert_eq!(space_at("\u{202f}".as_bytes(), 0), 3);
    assert_eq!(space_at("\u{205f}".as_bytes(), 0), 3);
    assert_eq!(space_at("\u{3000}".as_bytes(), 0), 3);
    assert_eq!(space_at("\u{3001}".as_bytes(), 0), 0);
    assert_eq!(space_at(&[0xC2], 0), 0);
    assert_eq!(space_at(&[0xE2, 0x80], 0), 0);
}

#[test]
fn every_character_is_white_space_as_the_standard_library_has_it() {
    for code in 0u32..0x11000 {
        if let Some(c) = char::from_u32(code) {
            let mut buffer = [0u8; 4];
            let bytes = c.encode_utf8(&mut buffer).as_bytes();
            let expected = if c.is_whitespace() { bytes.len() } else { 0 };
            assert_eq!(space_at(bytes, 0), expected, "U+{:04X}", code);
        }
    }
}

#[test]
fn split_agrees_with_the_standard_library() {
    let samples = [
        "",
        "\n",
        "a",
        "a\n",
        "\na",
        "a b\tc\r\n d  e \n",
        "#c\n\n  \n1 2 3\n# x\n4\u{a0}5\u{2003}6\u{3000}\n\u{85}7",
        "x\u{200b}y z",
        "g 1 0 -31543 -31464\ng 1 1  -2298  -2298\r\nh 1 1   5922   5909",
        "é ü\u{1680}ß\n#é\n 😀 x",
        "a\n#\n##\n #\nb#",
        "\u{2028}a\u{2029}b\u{202f}c\u{205f}d",
    ];
    for text in samples {
        assert_eq!(cells(text), split(text), "{:?}", text);
    }
}
