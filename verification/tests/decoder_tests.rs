use xlsx_batch_reader::address::get_tuple_from_ord;
use xlsx_batch_reader::book::XlsxBook;
use xlsx_batch_reader::cell::CellValue;
use xlsx_batch_reader::sheet::{Step, XlsxSheet};
use xlsx_batch_reader::xml::XmlEvent;
use xlsx_batch_reader::{RowNum, XlsxError, MAX_COL_NUM};

fn start(name: &str, attrs: &[(&str, &str)]) -> XmlEvent {
    XmlEvent::Start {
        name: name.to_string(),
        attrs: attrs
            .iter()
            .map(|(k, v)| (k.to_string(), v.to_string()))
            .collect(),
    }
}

fn empty(name: &str, attrs: &[(&str, &str)]) -> XmlEvent {
    XmlEvent::Empty {
        name: name.to_string(),
        attrs: attrs
            .iter()
            .map(|(k, v)| (k.to_string(), v.to_string()))
            .collect(),
    }
}

fn text(t: &str) -> XmlEvent {
    XmlEvent::Text { text: t.to_string() }
}

fn end(name: &str) -> XmlEvent {
    XmlEvent::End { name: name.to_string() }
}

/// A book with one visible sheet named `s1`, empty styles and an empty
/// shared-string table.
fn test_book() -> XlsxBook {
    let rels = vec![
        empty(
            "Relationship",
            &[("Id", "rId1"), ("Target", "worksheets/sheet1.xml")],
        ),
        XmlEvent::Eof,
    ];
    let wb = vec![
        empty("sheet", &[("name", "s1"), ("r:id", "rId1")]),
        XmlEvent::Eof,
    ];
    let mut book = XlsxBook::new(&rels, &wb, None).unwrap();
    book.load_share_strings(&vec![XmlEvent::Eof]).unwrap();
    book
}

/// A cell carrying inline numeric content.
fn cell(addr: &str, value: &str) -> Vec<XmlEvent> {
    vec![
        start("c", &[("r", addr)]),
        start("v", &[]),
        text(value),
        end("v"),
        end("c"),
    ]
}

/// A cell carrying a formula-string value.
fn str_cell(addr: &str, value: &str) -> Vec<XmlEvent> {
    vec![
        start("c", &[("r", addr), ("t", "str")]),
        start("v", &[]),
        text(value),
        end("v"),
        end("c"),
    ]
}

fn row(n: u32, cells: Vec<Vec<XmlEvent>>) -> Vec<XmlEvent> {
    let mut evs = vec![start("row", &[("r", &n.to_string())])];
    for c in cells {
        evs.extend(c);
    }
    evs.push(end("row"));
    evs
}

/// Pump events until a row or the end comes out.
fn next_row(
    sheet: &mut XlsxSheet,
    book: &XlsxBook,
    evs: &[XmlEvent],
    pos: &mut usize,
) -> Option<(RowNum, Vec<CellValue>)> {
    while *pos < evs.len() {
        let ev = evs[*pos].clone();
        *pos += 1;
        match sheet.advance(book, &ev).unwrap() {
            Step::Row(n, d) => return Some((n, d)),
            Step::End => return None,
            Step::NeedMore => {},
        }
    }
    None
}

fn drain(
    sheet: &mut XlsxSheet,
    book: &XlsxBook,
    evs: &[XmlEvent],
    pos: &mut usize,
) -> Vec<(RowNum, Vec<CellValue>)> {
    let mut out = Vec::new();
    while let Some(r) = next_row(sheet, book, evs, pos) {
        out.push(r);
    }
    out
}

fn sheet_events(rows: Vec<Vec<XmlEvent>>) -> Vec<XmlEvent> {
    let mut evs = vec![start("sheetData", &[])];
    for r in rows {
        evs.extend(r);
    }
    evs.push(end("sheetData"));
    evs.push(XmlEvent::Eof);
    evs
}

#[test]
fn absent_rows_are_skipped_in_streaming() {
    let book = test_book();
    let (_path, mut sheet) = book
        .get_sheet_by_name(&"s1".to_string(), 10, 0, 1, MAX_COL_NUM, false)
        .unwrap();
    let evs = sheet_events(vec![
        row(1, vec![str_cell("A1", "a")]),
        row(2, vec![str_cell("A2", "b")]),
        // row 3 is entirely absent from the part
        row(4, vec![str_cell("A4", "d")]),
        row(5, vec![str_cell("A5", "e")]),
    ]);
    let mut pos = 0;
    let rows = drain(&mut sheet, &book, &evs, &mut pos);
    let nums: Vec<u32> = rows.iter().map(|r| r.0).collect();
    assert_eq!(nums, vec![1, 2, 4, 5]);
}

#[test]
fn cached_walk_keeps_empty_rows() {
    let book = test_book();
    let (_path, mut sheet) = book
        .get_sheet_by_name(&"s1".to_string(), 10, 0, 1, 1, false)
        .unwrap();
    let evs = sheet_events(vec![
        row(1, vec![str_cell("A1", "a")]),
        row(2, vec![str_cell("A2", "b")]),
        row(4, vec![str_cell("A4", "d")]),
        row(5, vec![str_cell("A5", "e")]),
    ]);
    let mut pos = 0;
    let rows = drain(&mut sheet, &book, &evs, &mut pos);
    let cached = sheet.into_cached(rows).unwrap().with_empty_rows(true);
    let mut cached = cached;
    let (nums, data) = cached.next_batch().unwrap();
    assert_eq!(nums, vec![1, 2, 3, 4, 5]);
    assert_eq!(data[2].len(), 0);
    assert_eq!(data[0].len(), 1);
    assert!(cached.next_batch().is_none());
}

#[test]
fn cached_point_lookup() {
    let book = test_book();
    let (_path, mut sheet) = book
        .get_sheet_by_name(&"s1".to_string(), 10, 0, 1, 2, false)
        .unwrap();
    let evs = sheet_events(vec![row(1, vec![str_cell("A1", "hi")])]);
    let mut pos = 0;
    let rows = drain(&mut sheet, &book, &evs, &mut pos);
    let cached = sheet.into_cached(rows).unwrap();
    match cached.get_cell_value("A1").unwrap() {
        CellValue::String(s) => assert_eq!(s, "hi"),
        other => panic!("unexpected cell {:?}", other),
    }
    // in range but absent reads as blank
    assert!(matches!(
        cached.get_cell_value("B1").unwrap(),
        CellValue::Blank
    ));
    // out of the recorded range is an error
    assert!(matches!(
        cached.get_cell_value("C9"),
        Err(XlsxError::InvalidAddress)
    ));
}

#[test]
fn skip_until_keeps_the_matching_row() {
    let book = test_book();
    let (_path, mut sheet) = book
        .get_sheet_by_name(&"s1".to_string(), 10, 0, 1, MAX_COL_NUM, false)
        .unwrap();
    sheet.with_skip_until(&vec![("A".to_string(), "col1".to_string())]);
    let evs = sheet_events(vec![
        row(1, vec![str_cell("A1", "junk")]),
        row(2, vec![str_cell("A2", "col1")]),
        row(3, vec![str_cell("A3", "data")]),
    ]);
    let mut pos = 0;
    let rows = drain(&mut sheet, &book, &evs, &mut pos);
    let nums: Vec<u32> = rows.iter().map(|r| r.0).collect();
    assert_eq!(nums, vec![2, 3]);
}

#[test]
fn read_before_stops_and_discards_the_match() {
    let book = test_book();
    let (_path, mut sheet) = book
        .get_sheet_by_name(&"s1".to_string(), 10, 0, 1, MAX_COL_NUM, false)
        .unwrap();
    sheet.with_read_before(&vec![("B".to_string(), "sum".to_string())]);
    let evs = sheet_events(vec![
        row(1, vec![str_cell("A1", "x"), str_cell("B1", "y")]),
        row(2, vec![str_cell("A2", "p"), str_cell("B2", "sum")]),
        row(3, vec![str_cell("A3", "never")]),
    ]);
    let mut pos = 0;
    let rows = drain(&mut sheet, &book, &evs, &mut pos);
    let nums: Vec<u32> = rows.iter().map(|r| r.0).collect();
    assert_eq!(nums, vec![1]);
    // nothing further comes even though the stream has more rows
    assert!(next_row(&mut sheet, &book, &evs, &mut pos).is_none());
}

#[test]
fn skip_matched_drops_rows() {
    let book = test_book();
    let (_path, mut sheet) = book
        .get_sheet_by_name(&"s1".to_string(), 10, 0, 1, MAX_COL_NUM, false)
        .unwrap();
    sheet.with_skip_matched(&vec![("A".to_string(), "drop|also".to_string())], true);
    let evs = sheet_events(vec![
        row(1, vec![str_cell("A1", "keep")]),
        row(2, vec![str_cell("A2", "drop")]),
        row(3, vec![str_cell("A3", "also")]),
        row(4, vec![str_cell("A4", "keep2")]),
    ]);
    let mut pos = 0;
    let rows = drain(&mut sheet, &book, &evs, &mut pos);
    let nums: Vec<u32> = rows.iter().map(|r| r.0).collect();
    assert_eq!(nums, vec![1, 4]);
}

#[test]
fn header_row_is_captured() {
    let book = test_book();
    let (_path, mut sheet) = book
        .get_sheet_by_name(&"s1".to_string(), 10, 0, 1, MAX_COL_NUM, true)
        .unwrap();
    let evs = sheet_events(vec![
        row(1, vec![str_cell("A1", "name"), str_cell("B1", "age")]),
        row(2, vec![str_cell("A2", "ada"), str_cell("B2", "36")]),
    ]);
    let mut pos = 0;
    let rows = drain(&mut sheet, &book, &evs, &mut pos);
    let nums: Vec<u32> = rows.iter().map(|r| r.0).collect();
    assert_eq!(nums, vec![2]);
    let (hn, hdr) = sheet.get_header_row().unwrap();
    assert_eq!(hn, 1);
    assert_eq!(hdr.len(), 2);
    match &hdr[0] {
        CellValue::String(s) => assert_eq!(s, "name"),
        other => panic!("unexpected cell {:?}", other),
    }
}

#[test]
fn header_check_failure_names_the_constraint() {
    let book = test_book();
    let (_path, mut sheet) = book
        .get_sheet_by_name(&"s1".to_string(), 10, 0, 1, MAX_COL_NUM, true)
        .unwrap();
    sheet.with_header_check(&vec![("B".to_string(), "want|also".to_string())]);
    let evs = sheet_events(vec![row(
        1,
        vec![str_cell("A1", "x"), str_cell("B1", "other")],
    )]);
    let mut pos = 0;
    let mut failed = false;
    while pos < evs.len() {
        let ev = evs[pos].clone();
        pos += 1;
        if sheet.advance(&book, &ev).is_err() {
            failed = true;
            break;
        }
    }
    assert!(failed);
    let fail = sheet.header_check_failure().as_ref().unwrap();
    // column B rebases to index 1 from the left bound
    assert_eq!(fail.0, 1);
    assert_eq!(fail.1, vec!["want".to_string(), "also".to_string()]);
}

#[test]
fn header_check_failure_is_an_error() {
    let book = test_book();
    let (_path, mut sheet) = book
        .get_sheet_by_name(&"s1".to_string(), 10, 0, 1, MAX_COL_NUM, true)
        .unwrap();
    sheet.with_header_check(&vec![("A".to_string(), "expected".to_string())]);
    let evs = sheet_events(vec![row(1, vec![str_cell("A1", "other")])]);
    let mut pos = 0;
    let mut saw_err = false;
    while pos < evs.len() {
        let ev = evs[pos].clone();
        pos += 1;
        match sheet.advance(&book, &ev) {
            Err(e) => {
                assert!(matches!(e, XlsxError::ConfigurationError));
                saw_err = true;
                break;
            },
            Ok(_) => {},
        }
    }
    assert!(saw_err);
}

#[test]
fn capture_vals_snapshot_addresses() {
    let book = test_book();
    let (_path, mut sheet) = book
        .get_sheet_by_name(&"s1".to_string(), 10, 0, 1, MAX_COL_NUM, true)
        .unwrap();
    sheet.with_capture_vals(vec!["B1".to_string()]);
    let evs = sheet_events(vec![
        row(1, vec![str_cell("A1", "h"), str_cell("B1", "v0")]),
        row(2, vec![str_cell("A2", "d")]),
    ]);
    let mut pos = 0;
    let _ = drain(&mut sheet, &book, &evs, &mut pos);
    let caps = sheet.get_captured_vals().unwrap();
    assert_eq!(caps.len(), 1);
    assert_eq!(caps[0].0, "B1");
    match &caps[0].1 {
        CellValue::String(s) => assert_eq!(s, "v0"),
        other => panic!("unexpected cell {:?}", other),
    }
}

#[test]
fn column_bounds_clip_and_pad() {
    let book = test_book();
    // columns B through C only
    let (_path, mut sheet) = book
        .get_sheet_by_name(&"s1".to_string(), 10, 0, 2, 3, false)
        .unwrap();
    let evs = sheet_events(vec![row(
        1,
        vec![str_cell("A1", "out"), str_cell("B1", "in")],
    )]);
    let mut pos = 0;
    let rows = drain(&mut sheet, &book, &evs, &mut pos);
    assert_eq!(rows.len(), 1);
    let cells = &rows[0].1;
    // B kept, C padded with a trailing blank; A clipped
    assert_eq!(cells.len(), 2);
    match &cells[0] {
        CellValue::String(s) => assert_eq!(s, "in"),
        other => panic!("unexpected cell {:?}", other),
    }
    assert!(matches!(cells[1], CellValue::Blank));
}

#[test]
fn merged_ranges_are_extracted() {
    let book = test_book();
    let (_path, mut sheet) = book
        .get_sheet_by_name(&"s1".to_string(), 10, 0, 1, MAX_COL_NUM, false)
        .unwrap();
    let evs = vec![
        start("mergeCells", &[("count", "2")]),
        empty("mergeCell", &[("ref", "A1:B2")]),
        empty("mergeCell", &[("ref", "C3:D4")]),
        end("mergeCells"),
        start("sheetData", &[]),
        end("sheetData"),
        XmlEvent::Eof,
    ];
    let mut pos = 0;
    let _ = drain(&mut sheet, &book, &evs, &mut pos);
    let ranges = sheet.get_merged_ranges().unwrap();
    assert_eq!(ranges, vec![((1, 1), (2, 2)), ((3, 3), (4, 4))]);
}

#[test]
fn merge_count_mismatch_is_an_error() {
    let book = test_book();
    let (_path, mut sheet) = book
        .get_sheet_by_name(&"s1".to_string(), 10, 0, 1, MAX_COL_NUM, false)
        .unwrap();
    let evs = vec![
        start("mergeCells", &[("count", "3")]),
        empty("mergeCell", &[("ref", "A1:B2")]),
        end("mergeCells"),
    ];
    let mut pos = 0;
    let mut got = None;
    while pos < evs.len() {
        let ev = evs[pos].clone();
        pos += 1;
        if let Err(e) = sheet.advance(&book, &ev) {
            got = Some(e);
            break;
        }
    }
    assert!(matches!(got, Some(XlsxError::MergeCountMismatch)));
}

#[test]
fn skip_rows_are_dropped() {
    let book = test_book();
    let (_path, mut sheet) = book
        .get_sheet_by_name(&"s1".to_string(), 10, 2, 1, MAX_COL_NUM, false)
        .unwrap();
    let evs = sheet_events(vec![
        row(1, vec![str_cell("A1", "a")]),
        row(2, vec![str_cell("A2", "b")]),
        row(3, vec![str_cell("A3", "c")]),
    ]);
    let mut pos = 0;
    let rows = drain(&mut sheet, &book, &evs, &mut pos);
    let nums: Vec<u32> = rows.iter().map(|r| r.0).collect();
    assert_eq!(nums, vec![3]);
}

#[test]
fn sheet_not_found() {
    let book = test_book();
    assert!(matches!(
        book.get_sheet_by_name(&"nope".to_string(), 10, 0, 1, MAX_COL_NUM, false),
        Err(XlsxError::SheetNotFound)
    ));
}

#[test]
fn is_empty_reports_after_reading() {
    let book = test_book();
    let (_path, mut sheet) = book
        .get_sheet_by_name(&"s1".to_string(), 10, 0, 1, MAX_COL_NUM, false)
        .unwrap();
    assert!(matches!(
        sheet.is_empty(),
        Err(XlsxError::ConfigurationError)
    ));
    let evs = sheet_events(vec![]);
    let mut pos = 0;
    let rows = drain(&mut sheet, &book, &evs, &mut pos);
    assert!(rows.is_empty());
    assert_eq!(sheet.is_empty().unwrap(), true);
}

#[test]
fn numeric_cells_with_date_style_decode_as_dates() {
    // styles: cell-format 0 maps to numeric format 14, a built-in date
    let rels = vec![
        empty(
            "Relationship",
            &[("Id", "rId1"), ("Target", "worksheets/sheet1.xml")],
        ),
        XmlEvent::Eof,
    ];
    let wb = vec![
        empty("sheet", &[("name", "s1"), ("r:id", "rId1")]),
        XmlEvent::Eof,
    ];
    let styles = vec![
        start("cellXfs", &[("count", "1")]),
        empty("xf", &[("numFmtId", "14")]),
        end("cellXfs"),
        XmlEvent::Eof,
    ];
    let mut book = XlsxBook::new(&rels, &wb, Some(&styles)).unwrap();
    book.load_share_strings(&vec![XmlEvent::Eof]).unwrap();
    let (_path, mut sheet) = book
        .get_sheet_by_name(&"s1".to_string(), 10, 0, 1, MAX_COL_NUM, false)
        .unwrap();
    let evs = sheet_events(vec![vec![
        start("row", &[("r", "1")]),
        start("c", &[("r", "A1"), ("s", "0")]),
        start("v", &[]),
        text("44197"),
        end("v"),
        end("c"),
        end("row"),
    ]]);
    let mut pos = 0;
    let rows = drain(&mut sheet, &book, &evs, &mut pos);
    assert_eq!(rows.len(), 1);
    let cell = &rows[0].1[0];
    assert!(matches!(cell, CellValue::Date(_)));
    assert_eq!(cell.get::<String>().unwrap().unwrap(), "2021-01-01");
}

#[test]
fn shared_strings_resolve_and_count_checks() {
    let rels = vec![
        empty(
            "Relationship",
            &[("Id", "rId1"), ("Target", "worksheets/sheet1.xml")],
        ),
        XmlEvent::Eof,
    ];
    let wb = vec![
        empty("sheet", &[("name", "s1"), ("r:id", "rId1")]),
        XmlEvent::Eof,
    ];
    let sst = vec![
        start("sst", &[("uniqueCount", "2")]),
        start("si", &[]),
        start("t", &[]),
        text("hello"),
        end("t"),
        end("si"),
        start("si", &[]),
        start("t", &[]),
        text("world"),
        end("t"),
        end("si"),
        end("sst"),
        XmlEvent::Eof,
    ];
    let mut book = XlsxBook::new(&rels, &wb, None).unwrap();
    book.load_share_strings(&sst).unwrap();
    let (_path, mut sheet) = book
        .get_sheet_by_name(&"s1".to_string(), 10, 0, 1, MAX_COL_NUM, false)
        .unwrap();
    let evs = sheet_events(vec![vec![
        start("row", &[("r", "1")]),
        start("c", &[("r", "A1"), ("t", "s")]),
        start("v", &[]),
        text("1"),
        end("v"),
        end("c"),
        end("row"),
    ]]);
    let mut pos = 0;
    let rows = drain(&mut sheet, &book, &evs, &mut pos);
    match &rows[0].1[0] {
        CellValue::Shared(s) => assert_eq!(s, "world"),
        other => panic!("unexpected cell {:?}", other),
    }

    // a table shorter than its declared count is rejected
    let bad = vec![
        start("sst", &[("uniqueCount", "3")]),
        start("si", &[]),
        start("t", &[]),
        text("only"),
        end("t"),
        end("si"),
        end("sst"),
        XmlEvent::Eof,
    ];
    let mut book2 = XlsxBook::new(&rels, &wb, None).unwrap();
    assert!(matches!(
        book2.load_share_strings(&bad),
        Err(XlsxError::SharedStringCountMismatch)
    ));
}

#[test]
fn book_tables_and_hidden_sheets() {
    let rels = vec![
        empty(
            "Relationship",
            &[("Id", "rId1"), ("Target", "worksheets/sheet1.xml")],
        ),
        empty(
            "Relationship",
            &[("Id", "rId2"), ("Target", "/xl/worksheets/sheet2.xml")],
        ),
        XmlEvent::Eof,
    ];
    let wb = vec![
        empty("sheet", &[("name", "v"), ("r:id", "rId1")]),
        empty("sheet", &[("name", "h"), ("r:id", "rId2"), ("state", "hidden")]),
        XmlEvent::Eof,
    ];
    let book = XlsxBook::new(&rels, &wb, None).unwrap();
    assert_eq!(book.get_visible_sheets(), &vec!["v".to_string()]);
    assert_eq!(book.get_hidden_sheets(), &vec!["h".to_string()]);
    let maps = book.get_sheets_maps();
    assert_eq!(maps[0].1, "xl/worksheets/sheet1.xml");
    assert_eq!(maps[1].1, "xl/worksheets/sheet2.xml");

    // a sheet pointing at an undefined relationship is an error
    let wb_bad = vec![
        empty("sheet", &[("name", "x"), ("r:id", "rId9")]),
        XmlEvent::Eof,
    ];
    assert!(matches!(
        XlsxBook::new(&rels, &wb_bad, None),
        Err(XlsxError::UnknownRelationship)
    ));
    // a sheet without a name is an error
    let wb_bad2 = vec![empty("sheet", &[("r:id", "rId1")]), XmlEvent::Eof];
    assert!(matches!(
        XlsxBook::new(&rels, &wb_bad2, None),
        Err(XlsxError::MissingAttribute)
    ));
}

#[test]
fn unparsable_serial_text_fails_fast() {
    // cell-format 0 maps to a date format, so the text must be a serial
    let rels = vec![
        empty(
            "Relationship",
            &[("Id", "rId1"), ("Target", "worksheets/sheet1.xml")],
        ),
        XmlEvent::Eof,
    ];
    let wb = vec![
        empty("sheet", &[("name", "s1"), ("r:id", "rId1")]),
        XmlEvent::Eof,
    ];
    let styles = vec![
        start("cellXfs", &[("count", "1")]),
        empty("xf", &[("numFmtId", "14")]),
        end("cellXfs"),
        XmlEvent::Eof,
    ];
    let mut book = XlsxBook::new(&rels, &wb, Some(&styles)).unwrap();
    book.load_share_strings(&vec![XmlEvent::Eof]).unwrap();
    let (_path, mut sheet) = book
        .get_sheet_by_name(&"s1".to_string(), 10, 0, 1, MAX_COL_NUM, false)
        .unwrap();
    let evs = sheet_events(vec![vec![
        start("row", &[("r", "1")]),
        start("c", &[("r", "A1"), ("s", "0")]),
        start("v", &[]),
        text("not-a-number"),
        end("v"),
        end("c"),
        end("row"),
    ]]);
    let mut pos = 0;
    let mut got = None;
    while pos < evs.len() {
        let ev = evs[pos].clone();
        pos += 1;
        if let Err(e) = sheet.advance(&book, &ev) {
            got = Some(e);
            break;
        }
    }
    assert!(matches!(got, Some(XlsxError::MalformedXml)));
}

#[test]
fn plain_numeric_cells_fail_fast_on_bad_text() {
    // a default-format numeric cell must still read as a number
    let book = test_book();
    let (_path, mut sheet) = book
        .get_sheet_by_name(&"s1".to_string(), 10, 0, 1, MAX_COL_NUM, false)
        .unwrap();
    let evs = sheet_events(vec![row(1, vec![cell("A1", "abc")])]);
    let mut pos = 0;
    let mut got = None;
    while pos < evs.len() {
        let ev = evs[pos].clone();
        pos += 1;
        if let Err(e) = sheet.advance(&book, &ev) {
            got = Some(e);
            break;
        }
    }
    assert!(matches!(got, Some(XlsxError::MalformedXml)));
}

#[test]
fn plain_numeric_cells_keep_their_raw_text() {
    let book = test_book();
    let (_path, mut sheet) = book
        .get_sheet_by_name(&"s1".to_string(), 10, 0, 1, MAX_COL_NUM, false)
        .unwrap();
    // exponent form and a millisecond timestamp pass through unparsed
    let evs = sheet_events(vec![row(
        1,
        vec![cell("A1", "1.5E-2"), cell("B1", "1700000000123")],
    )]);
    let mut pos = 0;
    let rows = drain(&mut sheet, &book, &evs, &mut pos);
    assert_eq!(rows.len(), 1);
    match &rows[0].1[0] {
        CellValue::Number(s) => assert_eq!(s, "1.5E-2"),
        other => panic!("unexpected cell {:?}", other),
    }
    match &rows[0].1[1] {
        CellValue::Number(s) => assert_eq!(s, "1700000000123"),
        other => panic!("unexpected cell {:?}", other),
    }
    assert_eq!(rows[0].1[1].get::<i64>().unwrap().unwrap(), 1700000000123);
}

#[test]
fn malformed_cell_addresses_are_hard_errors() {
    let book = test_book();
    let (_path, mut sheet) = book
        .get_sheet_by_name(&"s1".to_string(), 10, 0, 1, MAX_COL_NUM, false)
        .unwrap();
    // a cell address without column letters cannot be placed
    let evs = sheet_events(vec![vec![
        start("row", &[("r", "1")]),
        start("c", &[("r", "123")]),
        start("v", &[]),
        text("5"),
        end("v"),
        end("c"),
        end("row"),
    ]]);
    let mut pos = 0;
    let mut got = None;
    while pos < evs.len() {
        let ev = evs[pos].clone();
        pos += 1;
        if let Err(e) = sheet.advance(&book, &ev) {
            got = Some(e);
            break;
        }
    }
    assert!(matches!(got, Some(XlsxError::InvalidAddress)));
}

#[test]
fn zero_rows_are_rejected_addresses() {
    assert!(matches!(
        get_tuple_from_ord("A0".as_bytes()),
        Err(XlsxError::InvalidAddress)
    ));
}

#[test]
fn merged_ranges_after_the_data() {
    let book = test_book();
    let (_path, mut sheet) = book
        .get_sheet_by_name(&"s1".to_string(), 10, 0, 1, MAX_COL_NUM, false)
        .unwrap();
    // merge info sits after sheetData; it is scanned once the decode closed
    let evs = vec![
        start("sheetData", &[]),
        end("sheetData"),
        start("mergeCells", &[("count", "1")]),
        empty("mergeCell", &[("ref", "A1:B2")]),
        end("mergeCells"),
        XmlEvent::Eof,
    ];
    let mut pos = 0;
    let rows = drain(&mut sheet, &book, &evs, &mut pos);
    assert!(rows.is_empty());
    // keep feeding the remaining events, as a merge-range request does
    while pos < evs.len() {
        let ev = evs[pos].clone();
        pos += 1;
        sheet.advance(&book, &ev).unwrap();
    }
    let ranges = sheet.get_merged_ranges().unwrap();
    assert_eq!(ranges, vec![((1, 1), (2, 2))]);
}

#[test]
fn header_check_accepts_a_matching_header() {
    let book = test_book();
    let (_path, mut sheet) = book
        .get_sheet_by_name(&"s1".to_string(), 10, 0, 1, MAX_COL_NUM, true)
        .unwrap();
    sheet.with_header_check(&vec![("A".to_string(), "name|title".to_string())]);
    let evs = sheet_events(vec![
        row(1, vec![str_cell("A1", "title")]),
        row(2, vec![str_cell("A2", "data")]),
    ]);
    let mut pos = 0;
    let rows = drain(&mut sheet, &book, &evs, &mut pos);
    assert_eq!(rows.len(), 1);
    assert_eq!(sheet.get_header_row().unwrap().0, 1);
}

#[test]
fn captures_without_header_flag_are_an_error() {
    let book = test_book();
    let (_path, mut sheet) = book
        .get_sheet_by_name(&"s1".to_string(), 10, 0, 1, MAX_COL_NUM, false)
        .unwrap();
    sheet.with_capture_vals(vec!["A1".to_string()]);
    assert!(matches!(
        sheet.get_captured_vals(),
        Err(XlsxError::ConfigurationError)
    ));
}

#[test]
fn skip_matched_disjunctive_mode() {
    let book = test_book();
    let (_path, mut sheet) = book
        .get_sheet_by_name(&"s1".to_string(), 10, 0, 1, MAX_COL_NUM, false)
        .unwrap();
    // either column matching drops the row
    sheet.with_skip_matched(
        &vec![
            ("A".to_string(), "x".to_string()),
            ("B".to_string(), "y".to_string()),
        ],
        false,
    );
    let evs = sheet_events(vec![
        row(1, vec![str_cell("A1", "x"), str_cell("B1", "q")]),
        row(2, vec![str_cell("A2", "q"), str_cell("B2", "y")]),
        row(3, vec![str_cell("A3", "q"), str_cell("B3", "q")]),
    ]);
    let mut pos = 0;
    let rows = drain(&mut sheet, &book, &evs, &mut pos);
    let nums: Vec<u32> = rows.iter().map(|r| r.0).collect();
    assert_eq!(nums, vec![3]);
}

#[test]
fn cached_lookup_respects_the_left_bound() {
    let book = test_book();
    // columns C through E: a stored row's first cell is column C
    let (_path, mut sheet) = book
        .get_sheet_by_name(&"s1".to_string(), 10, 0, 3, 5, false)
        .unwrap();
    let evs = sheet_events(vec![row(
        1,
        vec![str_cell("C1", "cee"), str_cell("E1", "ee")],
    )]);
    let mut pos = 0;
    let rows = drain(&mut sheet, &book, &evs, &mut pos);
    let cached = sheet.into_cached(rows).unwrap();
    match cached.get_cell_value("C1").unwrap() {
        CellValue::String(s) => assert_eq!(s, "cee"),
        other => panic!("unexpected cell {:?}", other),
    }
    assert!(matches!(
        cached.get_cell_value("D1").unwrap(),
        CellValue::Blank
    ));
    match cached.get_cell_value("E1").unwrap() {
        CellValue::String(s) => assert_eq!(s, "ee"),
        other => panic!("unexpected cell {:?}", other),
    }
}

#[test]
fn cached_lookup_with_merge_info() {
    let book = test_book();
    let (_path, mut sheet) = book
        .get_sheet_by_name(&"s1".to_string(), 10, 0, 1, MAX_COL_NUM, false)
        .unwrap();
    let evs = vec![
        start("mergeCells", &[("count", "1")]),
        empty("mergeCell", &[("ref", "A1:B2")]),
        end("mergeCells"),
        start("sheetData", &[]),
        start("row", &[("r", "1")]),
        start("c", &[("r", "A1"), ("t", "str")]),
        start("v", &[]),
        text("top"),
        end("v"),
        end("c"),
        end("row"),
        end("sheetData"),
        XmlEvent::Eof,
    ];
    let mut pos = 0;
    let rows = drain(&mut sheet, &book, &evs, &mut pos);
    let cached = sheet.into_cached(rows).unwrap();
    let (v, mi) = cached.get_cell_value_with_merge_info("A1").unwrap();
    assert!(matches!(v, CellValue::String(_)));
    assert_eq!(mi, (true, Some((2, 2))));
    let (v2, mi2) = cached.get_cell_value_with_merge_info("B1").unwrap();
    assert!(matches!(v2, CellValue::Blank));
    assert_eq!(mi2, (true, None));
}
