use base64::Engine;
use sqwok::auth::token::{assemble_token, build_token, token_message, TokenError};

#[test]
fn token_has_three_parts() {
    let msg = token_message("2026-03-22T00:00:00+00:00", "https://sqwok.example");
    let token = assemble_token(msg.as_bytes(), &[1, 2, 3, 250, 251], b"-----BEGIN CERTIFICATE-----\n");
    let parts: Vec<&str> = token.split('.').collect();
    assert_eq!(parts.len(), 3);
    let b64 = base64::engine::general_purpose::URL_SAFE_NO_PAD;
    assert_eq!(b64.decode(parts[0]).unwrap(), msg.as_bytes());
    assert_eq!(b64.decode(parts[1]).unwrap(), vec![1, 2, 3, 250, 251]);
    assert_eq!(b64.decode(parts[2]).unwrap(), b"-----BEGIN CERTIFICATE-----\n".to_vec());
    assert!(!token.contains('='));
}

#[test]
fn token_message_contains_server_host() {
    let msg = token_message("T", "https://host.example");
    assert_eq!(msg, "T|https://host.example");
    assert!(msg.contains("host.example"));
}

#[test]
fn empty_parts_still_give_two_dots() {
    assert_eq!(assemble_token(&[], &[], &[]), "..");
}

/// The DER (PKCS#8) bytes of an RSA-2048 key made for these tests only.
const TEST_KEY_DER: [u8; 1217] = [
    48, 130, 4, 189, 2, 1, 0, 48, 13, 6, 9, 42, 134, 72, 134, 247, 13, 1, 1, 1, 5, 0, 4, 130,
    4, 167, 48, 130, 4, 163, 2, 1, 0, 2, 130, 1, 1, 0, 165, 173, 199, 124, 171, 24, 83, 110, 213, 129,
    5, 13, 230, 100, 153, 254, 180, 32, 224, 133, 211, 86, 195, 78, 234, 103, 108, 112, 51, 61, 218, 103, 144, 147,
    151, 106, 81, 44, 230, 39, 202, 30, 117, 186, 217, 219, 36, 246, 127, 201, 139, 21, 238, 234, 209, 66, 234, 36,
    198, 36, 224, 227, 122, 98, 41, 110, 241, 36, 175, 59, 22, 114, 2, 118, 67, 224, 214, 206, 39, 87, 61, 75,
    161, 207, 172, 71, 181, 147, 9, 178, 42, 55, 41, 117, 161, 154, 0, 228, 123, 45, 55, 125, 11, 67, 254, 213,
    122, 28, 220, 100, 190, 21, 99, 253, 128, 95, 93, 21, 75, 230, 150, 116, 207, 4, 56, 221, 249, 172, 51, 131,
    123, 190, 110, 245, 115, 29, 171, 4, 240, 10, 67, 97, 162, 166, 61, 206, 148, 18, 243, 38, 97, 111, 252, 248,
    180, 248, 171, 49, 232, 164, 210, 158, 206, 149, 79, 3, 61, 252, 58, 188, 59, 5, 3, 54, 53, 122, 165, 135,
    25, 58, 125, 228, 95, 238, 181, 240, 160, 43, 200, 181, 117, 65, 243, 185, 94, 197, 157, 233, 224, 11, 70, 132,
    187, 25, 82, 129, 184, 251, 102, 247, 233, 80, 7, 187, 124, 194, 228, 177, 199, 32, 214, 72, 167, 221, 157, 64,
    245, 184, 249, 158, 165, 81, 82, 45, 224, 73, 47, 234, 99, 21, 250, 161, 39, 35, 189, 239, 142, 254, 94, 240,
    29, 247, 224, 140, 171, 181, 2, 3, 1, 0, 1, 2, 130, 1, 0, 17, 58, 206, 205, 164, 191, 109, 97, 207,
    219, 80, 138, 191, 4, 132, 77, 76, 47, 69, 26, 53, 189, 198, 166, 236, 210, 159, 160, 213, 123, 95, 188, 184,
    120, 216, 220, 202, 31, 88, 186, 23, 151, 110, 87, 229, 179, 24, 23, 120, 119, 157, 186, 196, 179, 111, 218, 189,
    29, 224, 235, 81, 229, 230, 66, 210, 27, 67, 1, 181, 37, 120, 114, 151, 213, 243, 190, 44, 168, 152, 199, 198,
    76, 152, 193, 207, 161, 79, 125, 64, 155, 98, 47, 133, 100, 193, 207, 17, 187, 177, 33, 165, 45, 32, 96, 76,
    94, 168, 9, 219, 83, 176, 190, 233, 188, 161, 190, 137, 32, 31, 90, 22, 24, 132, 180, 228, 51, 21, 117, 75,
    183, 185, 8, 50, 20, 193, 56, 155, 168, 226, 141, 236, 211, 64, 113, 25, 142, 69, 67, 28, 137, 6, 175, 82,
    25, 105, 71, 198, 1, 129, 248, 37, 143, 98, 147, 227, 52, 105, 186, 204, 43, 200, 141, 139, 52, 151, 100, 240,
    25, 174, 228, 144, 8, 156, 237, 191, 18, 63, 113, 69, 55, 30, 3, 178, 58, 14, 18, 145, 188, 72, 84, 151,
    90, 37, 167, 119, 169, 33, 169, 10, 134, 149, 72, 46, 100, 0, 92, 226, 226, 197, 67, 71, 247, 67, 135, 216,
    10, 207, 216, 85, 164, 118, 183, 49, 120, 30, 151, 107, 99, 253, 219, 237, 42, 57, 47, 149, 171, 115, 213, 63,
    16, 48, 16, 101, 200, 224, 225, 2, 129, 129, 0, 210, 124, 134, 143, 35, 7, 0, 25, 235, 82, 114, 78, 72,
    4, 225, 246, 99, 21, 173, 202, 160, 116, 133, 241, 2, 212, 11, 69, 228, 181, 168, 93, 241, 32, 224, 127, 158,
    10, 240, 197, 210, 217, 26, 79, 148, 16, 51, 123, 141, 144, 89, 207, 114, 40, 92, 80, 207, 117, 191, 84, 250,
    116, 131, 56, 157, 88, 159, 14, 152, 163, 89, 153, 57, 170, 177, 22, 212, 27, 31, 79, 87, 146, 48, 35, 137,
    234, 108, 135, 39, 86, 170, 200, 189, 223, 223, 119, 196, 4, 64, 238, 129, 174, 14, 48, 187, 65, 70, 97, 119,
    24, 18, 242, 133, 176, 114, 69, 226, 148, 34, 67, 246, 42, 237, 18, 112, 7, 135, 101, 2, 129, 129, 0, 201,
    128, 237, 221, 3, 151, 8, 78, 200, 66, 241, 196, 203, 104, 147, 18, 250, 167, 131, 243, 122, 182, 23, 244, 247,
    57, 54, 168, 212, 95, 94, 5, 13, 164, 233, 226, 234, 152, 191, 109, 208, 10, 195, 245, 13, 181, 129, 237, 252,
    13, 24, 215, 187, 141, 141, 82, 131, 182, 96, 5, 125, 22, 111, 161, 82, 26, 242, 208, 6, 99, 157, 49, 150,
    129, 100, 212, 57, 154, 113, 25, 105, 205, 150, 131, 112, 145, 195, 74, 255, 194, 54, 23, 46, 59, 22, 229, 175,
    171, 103, 109, 119, 131, 242, 255, 39, 37, 254, 39, 186, 50, 36, 69, 18, 201, 93, 211, 64, 77, 86, 205, 184,
    64, 180, 255, 35, 34, 22, 17, 2, 129, 128, 29, 95, 215, 127, 126, 73, 233, 207, 180, 49, 139, 86, 53, 98,
    201, 14, 19, 129, 225, 1, 24, 39, 106, 209, 217, 173, 49, 237, 141, 31, 116, 225, 183, 86, 249, 61, 150, 22,
    188, 199, 62, 199, 161, 142, 93, 129, 109, 77, 222, 209, 184, 86, 228, 253, 144, 244, 142, 31, 70, 150, 91, 101,
    139, 50, 137, 114, 230, 175, 168, 201, 147, 37, 121, 16, 195, 42, 6, 107, 202, 144, 206, 13, 206, 190, 6, 239,
    58, 58, 26, 89, 83, 248, 51, 215, 92, 94, 96, 114, 159, 133, 41, 127, 218, 231, 30, 26, 219, 241, 154, 39,
    55, 237, 180, 142, 141, 68, 7, 124, 216, 211, 87, 53, 98, 100, 98, 82, 10, 169, 2, 129, 129, 0, 165, 159,
    86, 99, 97, 239, 3, 2, 22, 50, 136, 27, 244, 0, 217, 90, 49, 49, 253, 15, 228, 93, 197, 101, 48, 203,
    18, 245, 67, 209, 187, 42, 182, 35, 69, 166, 160, 162, 186, 61, 93, 81, 107, 237, 128, 190, 30, 180, 104, 134,
    175, 83, 170, 177, 215, 101, 234, 34, 189, 219, 229, 11, 202, 231, 50, 224, 57, 145, 232, 158, 121, 246, 231, 57,
    37, 146, 22, 98, 173, 241, 112, 120, 109, 237, 77, 90, 81, 197, 212, 96, 98, 43, 61, 113, 142, 9, 110, 17,
    153, 106, 109, 96, 196, 27, 26, 167, 108, 182, 100, 161, 144, 20, 66, 51, 198, 237, 187, 29, 150, 106, 114, 182,
    164, 206, 76, 167, 88, 177, 2, 129, 128, 78, 3, 145, 225, 108, 255, 146, 112, 68, 172, 206, 155, 16, 82, 107,
    202, 62, 106, 73, 10, 116, 145, 37, 87, 120, 167, 41, 212, 18, 91, 195, 255, 122, 110, 160, 124, 51, 87, 42,
    167, 51, 45, 37, 184, 233, 136, 219, 128, 196, 44, 64, 89, 114, 14, 62, 243, 58, 3, 222, 85, 19, 51, 189,
    151, 189, 254, 44, 162, 28, 238, 189, 140, 213, 248, 240, 90, 237, 188, 117, 10, 176, 48, 90, 27, 160, 228, 195,
    153, 140, 188, 63, 61, 89, 117, 202, 185, 84, 160, 196, 0, 104, 255, 201, 19, 219, 130, 28, 97, 247, 178, 233,
    220, 255, 221, 85, 193, 232, 77, 25, 225, 237, 182, 182, 77, 243, 94, 58, 29,
];

/// The test key in PEM form, wrapped at 64 columns.
fn test_key_pem() -> Vec<u8> {
    let b64 = base64::engine::general_purpose::STANDARD.encode(TEST_KEY_DER);
    let label = format!("{} {}", "PRIVATE", "KEY");
    let mut pem = format!("-----BEGIN {}-----\n", label);
    for chunk in b64.as_bytes().chunks(64) {
        pem.push_str(std::str::from_utf8(chunk).unwrap());
        pem.push('\n');
    }
    pem.push_str(&format!("-----END {}-----\n", label));
    pem.into_bytes()
}

const TEST_CERT_PEM: &str = "-----BEGIN CERTIFICATE-----\nZmFrZQ==\n-----END CERTIFICATE-----\n";

fn now() -> String {
    chrono::Utc::now().to_rfc3339()
}

#[test]
fn test_token_has_three_parts() {
    let token = build_token(&test_key_pem(), TEST_CERT_PEM.as_bytes(), &now(), "https://example.com").unwrap();
    assert_eq!(token.split('.').count(), 3);
}

#[test]
fn test_token_message_contains_server_host() {
    let server = "https://example.com";
    let token = build_token(&test_key_pem(), TEST_CERT_PEM.as_bytes(), &now(), server).unwrap();
    let b64 = base64::engine::general_purpose::URL_SAFE_NO_PAD;
    let message_part = token.split('.').next().unwrap();
    let message = String::from_utf8(b64.decode(message_part).unwrap()).unwrap();
    assert!(message.contains(server), "message should contain server host");
    assert!(message.contains('|'), "message should be timestamp|host");
}

#[test]
fn test_token_cert_matches_file() {
    let token = build_token(&test_key_pem(), TEST_CERT_PEM.as_bytes(), &now(), "https://example.com").unwrap();
    let b64 = base64::engine::general_purpose::URL_SAFE_NO_PAD;
    let cert_part = token.split('.').nth(2).unwrap();
    let decoded = String::from_utf8(b64.decode(cert_part).unwrap()).unwrap();
    assert_eq!(decoded, TEST_CERT_PEM);
}

#[test]
fn token_signature_verifies_under_the_key() {
    let token = build_token(&test_key_pem(), TEST_CERT_PEM.as_bytes(), "T0", "srv").unwrap();
    let b64 = base64::engine::general_purpose::URL_SAFE_NO_PAD;
    let parts: Vec<&str> = token.split('.').collect();
    assert_eq!(b64.decode(parts[0]).unwrap(), b"T0|srv".to_vec());
    let sig = b64.decode(parts[1]).unwrap();
    let kp = ring::signature::RsaKeyPair::from_pkcs8(&TEST_KEY_DER).unwrap();
    let public = ring::signature::UnparsedPublicKey::new(
        &ring::signature::RSA_PKCS1_2048_8192_SHA256,
        ring::signature::KeyPair::public_key(&kp).as_ref().to_vec(),
    );
    assert!(public.verify(b"T0|srv", &sig).is_ok());
    // PKCS#1 v1.5 is deterministic: the same message gives the same token.
    assert_eq!(build_token(&test_key_pem(), TEST_CERT_PEM.as_bytes(), "T0", "srv").unwrap(), token);
}

#[test]
fn token_errors() {
    assert_eq!(build_token(b"not pem", TEST_CERT_PEM.as_bytes(), "T", "s"), Err(TokenError::KeyPem));
    let not_a_key = format!("-----BEGIN {}-----\nAAAA\n-----END {}-----\n", "PRIVATE KEY", "PRIVATE KEY");
    assert_eq!(build_token(not_a_key.as_bytes(), TEST_CERT_PEM.as_bytes(), "T", "s"), Err(TokenError::Signing));
}

