use sqwok::net::registration::{check_screenname, extract_totp_secret, valid_email, valid_totp_code, ScreennameError};

#[test]
fn emails() {
    assert!(valid_email("a@b.c"));
    assert!(!valid_email("abc"));
    assert!(!valid_email(""));
    let long = format!("{}@x", "a".repeat(252));
    assert_eq!(long.len(), 254);
    assert!(valid_email(&long));
    let too_long = format!("{}@x", "a".repeat(253));
    assert!(!valid_email(&too_long));
}

#[test]
fn screennames() {
    assert_eq!(check_screenname("  bob  "), Ok("bob".to_string()));
    assert_eq!(check_screenname("   "), Err(ScreennameError::Empty));
    assert_eq!(check_screenname(""), Err(ScreennameError::Empty));
    assert_eq!(check_screenname(&"x".repeat(30)), Ok("x".repeat(30)));
    assert_eq!(check_screenname(&"x".repeat(31)), Err(ScreennameError::TooLong));
    assert_eq!(check_screenname(&"é".repeat(16)), Err(ScreennameError::TooLong));
    assert_eq!(check_screenname("a\u{7}b"), Err(ScreennameError::Control));
    assert_eq!(check_screenname(" two words "), Ok("two words".to_string()));
}

#[test]
fn totp_codes() {
    assert!(valid_totp_code("123456"));
    assert!(valid_totp_code("000000"));
    assert!(!valid_totp_code("12345"));
    assert!(!valid_totp_code("1234567"));
    assert!(!valid_totp_code("12345a"));
    assert!(!valid_totp_code("１２３４５６"));
}

#[test]
fn totp_secrets() {
    assert_eq!(
        extract_totp_secret("otpauth://totp/sqwok:me?secret=ABC234&issuer=sqwok"),
        Some("ABC234".to_string())
    );
    assert_eq!(extract_totp_secret("otpauth://totp/x?issuer=sqwok&secret=XYZ"), Some("XYZ".to_string()));
    assert_eq!(extract_totp_secret("otpauth://totp/x"), None);
    assert_eq!(extract_totp_secret("otpauth://totp/x?issuer=a&period=30"), None);
    assert_eq!(extract_totp_secret("x?secret=&a=1"), Some(String::new()));
    assert_eq!(extract_totp_secret("x?a=1?secret=NO"), None);
}
