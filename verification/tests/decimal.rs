use rusteze::decimal::push_decimal;

fn digits(n: usize) -> Vec<u8> {
    let mut v = Vec::new();
    push_decimal(&mut v, n);
    v
}

#[test]
fn decimal_of_small_numbers() {
    assert_eq!(digits(0), b"0".to_vec());
    assert_eq!(digits(7), b"7".to_vec());
    assert_eq!(digits(10), b"10".to_vec());
    assert_eq!(digits(12345), b"12345".to_vec());
}

#[test]
fn decimal_of_largest_usize() {
    assert_eq!(digits(usize::MAX), usize::MAX.to_string().into_bytes());
}

#[test]
fn decimal_appends() {
    let mut v = b"len=".to_vec();
    push_decimal(&mut v, 42);
    assert_eq!(v, b"len=42".to_vec());
}
