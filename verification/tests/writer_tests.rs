use xlsx_batch_reader::batch::RowBatch;
use xlsx_batch_reader::book::{FMT_DATE, FMT_TIME};
use xlsx_batch_reader::cell::CellValue;
use xlsx_batch_reader::serial::Serial;
use xlsx_batch_reader::writer::{cell_to_out, OutCell, WriterState};
use xlsx_batch_reader::XlsxError;

#[test]
fn cells_map_onto_output_primitives() {
    assert!(matches!(cell_to_out(&CellValue::Blank), OutCell::Skip));
    assert!(matches!(
        cell_to_out(&CellValue::Error("#REF!".to_string())),
        OutCell::Skip
    ));
    assert!(matches!(
        cell_to_out(&CellValue::Bool(true)),
        OutCell::Boolean(true)
    ));
    match cell_to_out(&CellValue::Number("3.5".to_string())) {
        OutCell::NumberText(s) => assert_eq!(s, "3.5"),
        other => panic!("unexpected out cell {:?}", out_kind(&other)),
    }
    let se = Serial { neg: false, days: 44197, millis: 0 };
    match cell_to_out(&CellValue::Date(se)) {
        OutCell::SerialNumber(s2, k) => {
            assert_eq!(s2.days, 44197);
            assert_eq!(k, FMT_DATE);
        },
        other => panic!("unexpected out cell {:?}", out_kind(&other)),
    }
    match cell_to_out(&CellValue::Time(se)) {
        OutCell::SerialNumber(_, k) => assert_eq!(k, FMT_TIME),
        other => panic!("unexpected out cell {:?}", out_kind(&other)),
    }
    match cell_to_out(&CellValue::Shared("s".to_string())) {
        OutCell::Text(s) => assert_eq!(s, "s"),
        other => panic!("unexpected out cell {:?}", out_kind(&other)),
    }
}

fn out_kind(c: &OutCell) -> &'static str {
    match c {
        OutCell::Skip => "skip",
        OutCell::Boolean(_) => "boolean",
        OutCell::NumberText(_) => "number",
        OutCell::SerialNumber(_, _) => "serial",
        OutCell::Text(_) => "text",
    }
}

#[test]
fn writer_rows_advance_per_sheet() {
    let mut w = WriterState::new();
    let name = "data".to_string();
    assert!(!w.has_sheet(&name));
    let (row0, hdr) = w.begin_sheet(&name).unwrap();
    assert_eq!(row0, 0);
    assert!(hdr.is_none());
    assert!(w.has_sheet(&name));
    w.advance_rows(&name, 3).unwrap();
    let (row1, _) = w.begin_sheet(&name).unwrap();
    assert_eq!(row1, 3);
}

#[test]
fn writer_prepends_column_header() {
    let mut w = WriterState::new();
    let name = "named".to_string();
    w.with_columns(
        name.clone(),
        vec!["id".to_string(), "amount".to_string()],
        true,
    );
    let (row0, hdr) = w.begin_sheet(&name).unwrap();
    assert_eq!(row0, 1);
    let hdr = hdr.unwrap();
    assert_eq!(hdr.len(), 2);
    assert_eq!(hdr[0], ("id".to_string(), 0));
    assert_eq!(hdr[1], ("amount".to_string(), 1));
    assert_eq!(w.column_of(&name, &"amount".to_string()).unwrap(), 1);
    assert!(matches!(
        w.column_of(&name, &"nope".to_string()),
        Err(XlsxError::ConfigurationError)
    ));
}

#[test]
fn saved_writers_refuse_writes() {
    let mut w = WriterState::new();
    w.mark_saved().unwrap();
    assert!(matches!(
        w.begin_sheet(&"late".to_string()),
        Err(XlsxError::ConfigurationError)
    ));
    assert!(matches!(
        w.mark_saved(),
        Err(XlsxError::ConfigurationError)
    ));
}

#[test]
fn batches_fill_and_flush() {
    let mut b = RowBatch::new(2);
    assert!(b.take().is_none());
    assert!(!b.push(1, vec![]));
    assert!(b.push(2, vec![]));
    let (nums, rows) = b.take().unwrap();
    assert_eq!(nums, vec![1, 2]);
    assert_eq!(rows.len(), 2);
    // a final partial chunk comes out once, then nothing
    assert!(!b.push(3, vec![]));
    let (nums2, _) = b.take().unwrap();
    assert_eq!(nums2, vec![3]);
    assert!(b.take().is_none());
}
