use stemplayer::text::{pad_zeros, read_unsigned, write_decimal, write_radix, NumberError};

#[test]
fn numbers_are_written() {
    assert_eq!(write_decimal(0), "0");
    assert_eq!(write_decimal(18446744073709551615), "18446744073709551615");
    assert_eq!(write_radix(255, 16), "ff");
    assert_eq!(write_radix(5, 2), "101");
    assert_eq!(pad_zeros("ab", 4), "00ab");
    assert_eq!(pad_zeros("abcde", 4), "abcde");
}

#[test]
fn numbers_are_read_back() {
    for n in [0u32, 9, 10, 4294967295] {
        assert_eq!(read_unsigned(&write_decimal(n as u64), 10), Ok(n));
    }
}

#[test]
fn what_is_no_number_is_refused() {
    assert_eq!(read_unsigned("", 10), Err(NumberError::Empty));
    assert_eq!(read_unsigned("12a", 10), Err(NumberError::InvalidDigit));
    assert_eq!(read_unsigned("4294967296", 10), Err(NumberError::TooLarge));
}
