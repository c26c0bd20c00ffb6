use xlsx_batch_reader::cell::{CellValue, IntoCellValue};
use xlsx_batch_reader::dates::{CivilDate, CivilDateTime, ClockTime};
use xlsx_batch_reader::serial::Serial;
use xlsx_batch_reader::{Timesecond, Timestamp, XlsxError};

fn serial(days: u64, millis: u32) -> Serial {
    Serial { neg: false, days, millis }
}

#[test]
fn blank_to_i64_is_none() {
    let v = CellValue::Blank;
    assert!(matches!(v.get::<i64>(), Ok(None)));
}

#[test]
fn blank_to_string_is_empty() {
    let v = CellValue::Blank;
    assert_eq!(v.get::<String>().unwrap().unwrap(), "");
}

#[test]
fn error_to_numbers_fails() {
    let v = CellValue::Error("#DIV/0!".to_string());
    assert!(matches!(v.get::<i64>(), Err(XlsxError::TypeCoercionError)));
    assert!(matches!(v.get::<bool>(), Err(XlsxError::TypeCoercionError)));
    assert!(matches!(
        v.get::<CivilDate>(),
        Err(XlsxError::TypeCoercionError)
    ));
    assert!(matches!(
        v.get::<Timestamp>(),
        Err(XlsxError::TypeCoercionError)
    ));
    // but the error text itself reads back as a string
    assert_eq!(v.get::<String>().unwrap().unwrap(), "#DIV/0!");
}

#[test]
fn date_serial_renders_as_calendar_date() {
    // serial 44197 from the 1899-12-30 epoch is 2021-01-01
    let v = CellValue::Date(serial(44197, 0));
    assert_eq!(v.get::<String>().unwrap().unwrap(), "2021-01-01");
    let d = v.get::<CivilDate>().unwrap().unwrap();
    assert_eq!((d.year, d.month, d.day), (2021, 1, 1));
}

#[test]
fn datetime_serial_renders_with_time() {
    // half a day is noon
    let v = CellValue::Datetime(serial(44197, 43_200_000));
    assert_eq!(v.get::<String>().unwrap().unwrap(), "2021-01-01 12:00:00");
    let dt = v.get::<CivilDateTime>().unwrap().unwrap();
    assert_eq!((dt.date.year, dt.date.month, dt.date.day), (2021, 1, 1));
    assert_eq!((dt.time.hour, dt.time.minute, dt.time.second), (12, 0, 0));
}

#[test]
fn time_serial_renders_as_clock() {
    let v = CellValue::Time(serial(0, 3_723_000));
    assert_eq!(v.get::<String>().unwrap().unwrap(), "01:02:03");
    let t = v.get::<ClockTime>().unwrap().unwrap();
    assert_eq!((t.hour, t.minute, t.second), (1, 2, 3));
}

#[test]
fn serial_truncates_to_i64() {
    let v = CellValue::Date(serial(44197, 43_200_000));
    assert_eq!(v.get::<i64>().unwrap().unwrap(), 44197);
    let n = CellValue::Number("3.99".to_string());
    assert_eq!(n.get::<i64>().unwrap().unwrap(), 3);
    let neg = CellValue::Number("-3.99".to_string());
    assert_eq!(neg.get::<i64>().unwrap().unwrap(), -3);
}

#[test]
fn strings_parse_as_integers() {
    let v = CellValue::String("1234".to_string());
    assert_eq!(v.get::<i64>().unwrap().unwrap(), 1234);
    let w = CellValue::Shared("-56".to_string());
    assert_eq!(w.get::<i64>().unwrap().unwrap(), -56);
    // thousands separators fall back to the comma-stripped parse
    let c = CellValue::String("1,234,567".to_string());
    assert_eq!(c.get::<i64>().unwrap().unwrap(), 1234567);
    let bad = CellValue::String("12x".to_string());
    assert!(matches!(bad.get::<i64>(), Err(XlsxError::TypeCoercionError)));
}

#[test]
fn null_sentinels_read_as_none() {
    for s in ["", "-", "--", "#N/A"] {
        let v = CellValue::String(s.to_string());
        assert!(matches!(v.get::<i64>(), Ok(None)), "sentinel {:?}", s);
        assert!(matches!(v.get::<bool>(), Ok(None)));
        assert!(matches!(v.get::<CivilDate>(), Ok(None)));
        assert!(matches!(v.get::<Timesecond>(), Ok(None)));
    }
}

#[test]
fn bool_reads() {
    assert_eq!(CellValue::Bool(true).get::<i64>().unwrap().unwrap(), 1);
    assert_eq!(CellValue::Bool(false).get::<i64>().unwrap().unwrap(), 0);
    assert_eq!(
        CellValue::String("true".to_string())
            .get::<bool>()
            .unwrap()
            .unwrap(),
        true
    );
    assert_eq!(
        CellValue::Bool(true).get::<String>().unwrap().unwrap(),
        "true"
    );
    // a number is true when it clears the small threshold
    assert_eq!(
        CellValue::Number("0.5".to_string())
            .get::<bool>()
            .unwrap()
            .unwrap(),
        true
    );
    assert_eq!(
        CellValue::Number("0.009".to_string())
            .get::<bool>()
            .unwrap()
            .unwrap(),
        false
    );
}

#[test]
fn date_strings_parse_with_both_delimiters() {
    let a = CellValue::String("2021-01-01".to_string());
    let d = a.get::<CivilDate>().unwrap().unwrap();
    assert_eq!((d.year, d.month, d.day), (2021, 1, 1));
    let b = CellValue::Shared("2021/02/03".to_string());
    let d2 = b.get::<CivilDate>().unwrap().unwrap();
    assert_eq!((d2.year, d2.month, d2.day), (2021, 2, 3));
    let bad = CellValue::String("2021-02-30".to_string());
    assert!(matches!(
        bad.get::<CivilDate>(),
        Err(XlsxError::TypeCoercionError)
    ));
}

#[test]
fn leap_years_are_respected() {
    let ok = CellValue::String("2020-02-29".to_string());
    assert!(ok.get::<CivilDate>().unwrap().is_some());
    let bad = CellValue::String("2021-02-29".to_string());
    assert!(matches!(
        bad.get::<CivilDate>(),
        Err(XlsxError::TypeCoercionError)
    ));
}

#[test]
fn date32_is_days_since_unix_epoch() {
    // 1970-01-01 has day-serial 25569
    let v = CellValue::Date(serial(25569, 0));
    assert_eq!(v.get::<i32>().unwrap().unwrap(), 0);
    let w = CellValue::Date(serial(44197, 0));
    assert_eq!(w.get::<i32>().unwrap().unwrap(), 44197 - 25569);
    let s = CellValue::String("1970-01-02".to_string());
    assert_eq!(s.get::<i32>().unwrap().unwrap(), 1);
}

#[test]
fn timestamp_scales_by_a_day_of_seconds() {
    let v = CellValue::Datetime(serial(25569, 43_200_000));
    assert_eq!(v.get::<Timestamp>().unwrap().unwrap().utc(), 43200);
    let s = CellValue::String("1970-01-01 00:01:40".to_string());
    assert_eq!(s.get::<Timestamp>().unwrap().unwrap().utc(), 100);
}

#[test]
fn timestamp_local_stays_within_a_day() {
    let t: Timestamp = 1_000_000i64.into();
    let local = t.local();
    assert!(local > 1_000_000 - 86_400 && local < 1_000_000 + 86_400);
}

#[test]
fn timesecond_is_the_fraction_in_seconds() {
    let v = CellValue::Time(serial(0, 3_723_500));
    assert_eq!(i32::from(v.get::<Timesecond>().unwrap().unwrap()), 3723);
    let s = CellValue::String("01:02:03".to_string());
    assert_eq!(i32::from(s.get::<Timesecond>().unwrap().unwrap()), 3723);
}

#[test]
fn typed_values_write_back_as_serials() {
    let d = CivilDate { year: 2021, month: 1, day: 1 };
    match d.try_into_cval().unwrap() {
        CellValue::Date(se) => {
            assert_eq!((se.neg, se.days, se.millis), (false, 44197, 0));
        },
        other => panic!("unexpected cell {:?}", other),
    }
    let t = ClockTime { hour: 12, minute: 0, second: 0 };
    match t.try_into_cval().unwrap() {
        CellValue::Time(se) => {
            assert_eq!((se.neg, se.days, se.millis), (false, 0, 43_200_000));
        },
        other => panic!("unexpected cell {:?}", other),
    }
    let ts: Timestamp = 43200i64.into();
    match ts.try_into_cval().unwrap() {
        CellValue::Datetime(se) => {
            assert_eq!((se.neg, se.days, se.millis), (false, 25569, 43_200_000));
        },
        other => panic!("unexpected cell {:?}", other),
    }
    let d32: i32 = 0;
    match IntoCellValue::try_into_cval(d32).unwrap() {
        CellValue::Date(se) => {
            assert_eq!((se.neg, se.days, se.millis), (false, 25569, 0));
        },
        other => panic!("unexpected cell {:?}", other),
    }
}

#[test]
fn integers_write_back_as_number_text() {
    let v: CellValue = 42i64.into();
    match v {
        CellValue::Number(ref s) => assert_eq!(s, "42"),
        ref other => panic!("unexpected cell {:?}", other),
    }
    assert_eq!(v.get::<i64>().unwrap().unwrap(), 42);
    let n: CellValue = (-7i64).into();
    assert_eq!(n.get::<i64>().unwrap().unwrap(), -7);
}

#[test]
fn exponent_number_text_coerces() {
    // exponent forms shift the decimal point exactly
    let v = CellValue::Number("1.5E2".to_string());
    assert_eq!(v.get::<i64>().unwrap().unwrap(), 150);
    let w = CellValue::Number("4.4197e4".to_string());
    assert_eq!(w.get::<i64>().unwrap().unwrap(), 44197);
    let tiny = CellValue::Number("1.5e-2".to_string());
    assert_eq!(tiny.get::<i64>().unwrap().unwrap(), 0);
    assert_eq!(
        i32::from(tiny.get::<Timesecond>().unwrap().unwrap()),
        1296
    );
    let b = CellValue::Number("0e10".to_string());
    assert_eq!(b.get::<bool>().unwrap().unwrap(), false);
}

#[test]
fn exponent_date_serials_decode() {
    // a date-formatted serial may arrive in exponent form
    let v = CellValue::Number("4.4197E4".to_string());
    let d = v.get::<CivilDate>().unwrap().unwrap();
    assert_eq!((d.year, d.month, d.day), (2021, 1, 1));
}
