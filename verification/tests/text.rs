use traintables::text::{bytes_equal, chars_of, parse_u32, NumberError};

#[test]
fn parse_u32_like_std() {
    for s in ["0", "42", "+7", "0007", "4294967295", "4294967296", "", "+", "-", "-1", "1a", "99999999999", "١٢", " 1"] {
        let expected = s.parse::<u32>().map_err(|e| match e.kind() {
            std::num::IntErrorKind::Empty => NumberError::Empty,
            std::num::IntErrorKind::InvalidDigit => NumberError::InvalidDigit,
            _ => NumberError::PosOverflow,
        });
        assert_eq!(parse_u32(s), expected, "on {:?}", s);
    }
}

#[test]
fn chars_of_text() {
    assert_eq!(chars_of("gare é"), vec!['g', 'a', 'r', 'e', ' ', 'é']);
}

#[test]
fn bytes_equal_compares_contents() {
    assert!(bytes_equal(b"Route", b"Route"));
    assert!(!bytes_equal(b"Route", b"Routes"));
    assert!(!bytes_equal(b"Route", b"route"));
}
