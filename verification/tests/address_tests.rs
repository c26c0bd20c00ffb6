use xlsx_batch_reader::address::{
    get_num_from_ord, get_ord_from_num, get_ord_from_tuple, get_tuple_from_ord, is_merged_cell,
};
use xlsx_batch_reader::XlsxError;

#[test]
fn column_letters_examples() {
    assert_eq!(get_num_from_ord("B".as_bytes()).unwrap(), 2);
    assert_eq!(get_num_from_ord("Z".as_bytes()).unwrap(), 26);
    assert_eq!(get_num_from_ord("AB".as_bytes()).unwrap(), 28);
    assert_eq!(get_ord_from_num(1).unwrap(), "A");
    assert_eq!(get_ord_from_num(27).unwrap(), "AA");
    assert_eq!(get_ord_from_num(37).unwrap(), "AK");
    // exact multiples of 26 exercise the no-zero-digit arithmetic
    assert_eq!(get_ord_from_num(26).unwrap(), "Z");
    assert_eq!(get_ord_from_num(52).unwrap(), "AZ");
    assert_eq!(get_ord_from_num(702).unwrap(), "ZZ");
    assert_eq!(get_ord_from_num(703).unwrap(), "AAA");
    assert_eq!(get_num_from_ord("XFD".as_bytes()).unwrap(), 16384);
}

#[test]
fn column_round_trip_full_range() {
    for n in 1u16..=16384u16 {
        let letters = get_ord_from_num(n).unwrap();
        assert_eq!(get_num_from_ord(letters.as_bytes()).unwrap(), n);
    }
}

#[test]
fn lowercase_letters_accepted() {
    assert_eq!(get_num_from_ord("ab".as_bytes()).unwrap(), 28);
    assert_eq!(get_tuple_from_ord("d2".as_bytes()).unwrap(), (2, 4));
}

#[test]
fn address_tuples() {
    assert_eq!(get_tuple_from_ord("A1".as_bytes()).unwrap(), (1, 1));
    assert_eq!(get_tuple_from_ord("B3".as_bytes()).unwrap(), (3, 2));
    assert_eq!(get_tuple_from_ord("D2".as_bytes()).unwrap(), (2, 4));
    assert_eq!(get_ord_from_tuple(2, 4).unwrap(), "D2");
    assert_eq!(get_ord_from_tuple(3, 2).unwrap(), "B3");
}

#[test]
fn bad_addresses_are_rejected() {
    assert!(matches!(
        get_tuple_from_ord("123".as_bytes()),
        Err(XlsxError::InvalidAddress)
    ));
    assert!(matches!(
        get_tuple_from_ord("D".as_bytes()),
        Err(XlsxError::InvalidAddress)
    ));
    assert!(matches!(
        get_tuple_from_ord("".as_bytes()),
        Err(XlsxError::InvalidAddress)
    ));
    assert!(matches!(
        get_num_from_ord("ZZZZ".as_bytes()),
        Err(XlsxError::InvalidAddress)
    ));
    assert!(matches!(get_ord_from_num(0), Err(XlsxError::InvalidAddress)));
    assert!(matches!(
        get_ord_from_tuple(1, 0),
        Err(XlsxError::InvalidAddress)
    ));
}

#[test]
fn merged_cell_membership() {
    let ranges = vec![((2u32, 1u16), (3u32, 2u16))];
    assert_eq!(is_merged_cell(&ranges, 2, 1), (true, Some((2, 2))));
    assert_eq!(is_merged_cell(&ranges, 3, 2), (true, None));
    assert_eq!(is_merged_cell(&ranges, 1, 1), (false, None));
}

#[test]
fn merged_cell_first_match_wins() {
    let ranges = vec![
        ((1u32, 1u16), (2u32, 2u16)),
        ((1u32, 1u16), (5u32, 5u16)),
    ];
    // the first matching range decides the extent
    assert_eq!(is_merged_cell(&ranges, 1, 1), (true, Some((2, 2))));
    assert_eq!(is_merged_cell(&ranges, 4, 4), (true, None));
}
