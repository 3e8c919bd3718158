use livephoto::number::{parse_unsigned, push_decimal, push_hex, push_padded_decimal};

fn read(s: &str) -> Option<u64> {
    let cs: Vec<char> = s.chars().collect();
    parse_unsigned(&cs)
}

fn written(n: u64) -> String {
    let mut out = String::new();
    push_decimal(&mut out, n);
    out
}

fn hex(n: u64) -> String {
    let mut out = String::new();
    push_hex(&mut out, n, 16);
    out
}

#[test]
fn numbers_are_read_as_the_standard_library_reads_them() {
    let texts = [
        "0", "7", "42", "00012", "+5", "++5", "+", "", "-1", "1.5", " 1", "1 ", "12a", "0x10",
        "18446744073709551615", "18446744073709551616", "99999999999999999999",
        "+18446744073709551615", "000000000000000000000000000001", "\u{663}",
    ];
    for s in texts {
        assert_eq!(read(s), s.parse::<u64>().ok(), "{s:?}");
    }
    assert_eq!(read("1234567"), Some(1234567));
}

#[test]
fn numbers_are_written_in_decimal() {
    assert_eq!(written(0), "0");
    assert_eq!(written(9), "9");
    assert_eq!(written(10), "10");
    assert_eq!(written(1048576), "1048576");
    assert_eq!(written(u64::MAX), "18446744073709551615");
}

#[test]
fn a_written_number_is_read_back() {
    for n in [0, 1, 9, 10, 99, 100, 65535, 1 << 40, u64::MAX - 1, u64::MAX] {
        assert_eq!(read(&written(n)), Some(n));
    }
}

#[test]
fn numbers_are_padded_with_zeros() {
    for (n, width, expected) in [
        (0, 5, "00000"),
        (7, 5, "00007"),
        (12345, 5, "12345"),
        (123456, 5, "123456"),
        (3, 0, "3"),
    ] {
        let mut out = String::from("f");
        push_padded_decimal(&mut out, n, width);
        assert_eq!(out, format!("f{expected}"));
    }
}

#[test]
fn numbers_are_written_in_hexadecimal() {
    assert_eq!(hex(0), "0000000000000000");
    assert_eq!(hex(0xdead_beef), "00000000deadbeef");
    assert_eq!(hex(u64::MAX), "ffffffffffffffff");
    assert_eq!(hex(0x0123_4567_89ab_cdef), "0123456789abcdef");
}

#[test]
fn different_numbers_have_different_digits() {
    assert_ne!(hex(1), hex(2));
    assert_ne!(hex(0x10), hex(0x100));
    assert_ne!(hex(u64::MAX), hex(u64::MAX >> 1));
}
