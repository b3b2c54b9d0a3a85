use sqwok::crypto::identity::E2eIdentity;
use sqwok::crypto::{key_fingerprint, ChatCrypto};
use sqwok::text::push_decimal;
use sqwok::tui::app::AppState;

fn hex4(k: &[u8; 32]) -> String {
    k[..4].iter().map(|b| format!("{:02x}", b)).collect()
}

#[test]
fn fingerprint_of_known_keys() {
    let mut ed = [0u8; 32];
    ed[..4].copy_from_slice(&[0x0a, 0x1b, 0xc2, 0xff]);
    let mut x = [7u8; 32];
    x[..4].copy_from_slice(&[0x00, 0x10, 0x9e, 0x01]);
    assert_eq!(key_fingerprint(&ed, &x, Some(3)), "ed:0a1bc2ff x:00109e01 epoch:3");
    assert_eq!(key_fingerprint(&ed, &x, Some(4_000_000_000)), "ed:0a1bc2ff x:00109e01 epoch:4000000000");
    assert_eq!(key_fingerprint(&ed, &x, None), "ed:0a1bc2ff x:00109e01 epoch:none");
}

#[test]
fn decimal_digits() {
    for n in [0u32, 9, 10, 99, 100, 12345, u32::MAX] {
        let mut s = String::from("n=");
        push_decimal(&mut s, n);
        assert_eq!(s, format!("n={}", n));
    }
}

#[test]
fn fingerprint_without_crypto_is_none() {
    let app = AppState::new("me".to_string(), "Me".to_string());
    assert_eq!(app.my_key_fingerprint(None), "none");
}

#[test]
fn fingerprint_of_chat_crypto() {
    let id = E2eIdentity::from_key_bytes(&[5u8; 32], &[6u8; 32]).unwrap();
    let ed = id.verifying_key();
    let x = id.x25519_public();
    let app = AppState::new("me".to_string(), "Me".to_string());

    let fresh = ChatCrypto::create_new(id);
    let expected = format!("ed:{} x:{} epoch:0", hex4(&ed), hex4(&x));
    assert_eq!(app.my_key_fingerprint(Some(&fresh)), expected);

    let id2 = E2eIdentity::from_key_bytes(&[5u8; 32], &[6u8; 32]).unwrap();
    let empty = ChatCrypto::from_empty(id2);
    let expected = format!("ed:{} x:{} epoch:none", hex4(&ed), hex4(&x));
    assert_eq!(app.my_key_fingerprint(Some(&empty)), expected);
}
