use mclient::bytes::append;
use mclient::bytes::find;
use mclient::bytes::u128_from_be;
use mclient::text::decimal_string;
use mclient::text::eq_ignore_ascii_case;
use mclient::text::to_lower;

#[test]
fn decimal_strings() {
    assert_eq!(decimal_string(0), "0");
    assert_eq!(decimal_string(7), "7");
    assert_eq!(decimal_string(10), "10");
    assert_eq!(decimal_string(255), "255");
    assert_eq!(decimal_string(1234567890), "1234567890");
    assert_eq!(decimal_string(usize::MAX), usize::MAX.to_string());
}

#[test]
fn comparing_without_case() {
    assert!(eq_ignore_ascii_case(b".list", b".LIST"));
    assert!(eq_ignore_ascii_case(b".LiSt", b".list"));
    assert!(eq_ignore_ascii_case(b"", b""));
    assert!(!eq_ignore_ascii_case(b".list", b".lists"));
    assert!(!eq_ignore_ascii_case(b".list", b".lisp"));
    assert!(!eq_ignore_ascii_case(b"@", b"`"));
    assert!(!eq_ignore_ascii_case(b"[", b"{"));
    assert_eq!(to_lower(b'A'), b'a');
    assert_eq!(to_lower(b'Z'), b'z');
    assert_eq!(to_lower(b'a'), b'a');
    assert_eq!(to_lower(b'@'), b'@');
    assert_eq!(to_lower(b'['), b'[');
    assert_eq!(to_lower(0xc4), 0xc4);
}

#[test]
fn appending_bytes() {
    let mut out = vec![1u8];
    append(&mut out, &[2, 3]);
    append(&mut out, &[]);
    assert_eq!(out, vec![1, 2, 3]);
}

#[test]
fn searching_bytes() {
    assert_eq!(find(b"a,b,c", b','), Some(1));
    assert_eq!(find(b",", b','), Some(0));
    assert_eq!(find(b"abc", b','), None);
    assert_eq!(find(b"", b','), None);
}

#[test]
fn sixteen_bytes_as_a_number() {
    assert_eq!(u128_from_be(&[0u8; 16]), 0);
    assert_eq!(u128_from_be(&[0xffu8; 16]), u128::MAX);
    let mut one = [0u8; 16];
    one[15] = 1;
    assert_eq!(u128_from_be(&one), 1);
    let mut high = [0u8; 16];
    high[0] = 0x80;
    assert_eq!(u128_from_be(&high), 1u128 << 127);
}
