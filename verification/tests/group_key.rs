use sqwok::crypto::group_key::{EpochKey, KeyChain, KeyChainError};

#[test]
fn test_generate_new_has_epoch_zero() {
    let kc = KeyChain::generate_new();
    assert_eq!(kc.current_epoch(), Some(0));
    assert!(kc.current_key().is_some());
}

#[test]
fn test_get_existing_epoch() {
    let kc = KeyChain::generate_new();
    let ek = kc.get(0);
    assert!(ek.is_some());
    assert_eq!(ek.unwrap().epoch, 0);
}

#[test]
fn test_get_missing_epoch_returns_none() {
    let kc = KeyChain::generate_new();
    assert!(kc.get(99).is_none());
}

#[test]
fn test_rotate_increments_epoch() {
    let mut kc = KeyChain::generate_new();
    kc.rotate();
    assert_eq!(kc.current_epoch(), Some(1));
    kc.rotate();
    assert_eq!(kc.current_epoch(), Some(2));
}

#[test]
fn test_rotate_changes_key_material() {
    let mut kc = KeyChain::generate_new();
    let key0 = kc.current_key().unwrap().key;
    kc.rotate();
    let key1 = kc.current_key().unwrap().key;
    assert_ne!(key0, key1, "rotated key should differ");
}

#[test]
fn test_old_epoch_still_accessible_after_rotate() {
    let mut kc = KeyChain::generate_new();
    let key0 = kc.current_key().unwrap().key;
    kc.rotate();
    assert_eq!(kc.get(0).unwrap().key, key0);
}

#[test]
fn test_add_epoch_deduplicates() {
    let mut kc = KeyChain::generate_new();
    kc.add_epoch(EpochKey { epoch: 0, key: [1u8; 32] });
    assert_eq!(kc.all_epochs().len(), 1);
}

#[test]
fn test_add_epoch_maintains_sort_order() {
    let mut kc = KeyChain::from_epochs(vec![]);
    kc.add_epoch(EpochKey { epoch: 2, key: [2u8; 32] });
    kc.add_epoch(EpochKey { epoch: 0, key: [0u8; 32] });
    kc.add_epoch(EpochKey { epoch: 1, key: [1u8; 32] });
    let epochs: Vec<u32> = kc.all_epochs().iter().map(|k| k.epoch).collect();
    assert_eq!(epochs, vec![0, 1, 2]);
}

#[test]
fn test_from_epochs_sorts_input() {
    let keys = vec![
        EpochKey { epoch: 3, key: [3u8; 32] },
        EpochKey { epoch: 1, key: [1u8; 32] },
        EpochKey { epoch: 2, key: [2u8; 32] },
    ];
    let kc = KeyChain::from_epochs(keys);
    assert_eq!(kc.current_epoch(), Some(3));
    assert_eq!(kc.all_epochs()[0].epoch, 1);
}

#[test]
fn test_empty_keychain_behavior() {
    let kc = KeyChain::from_epochs(vec![]);
    assert_eq!(kc.current_epoch(), None);
    assert!(kc.current_key().is_none());
    assert!(kc.get(0).is_none());
    assert!(kc.all_epochs().is_empty());
}

#[test]
fn test_add_epoch_with_gap() {
    let mut kc = KeyChain::generate_new();
    kc.add_epoch(EpochKey { epoch: 5, key: [5u8; 32] });
    let epochs: Vec<u32> = kc.all_epochs().iter().map(|k| k.epoch).collect();
    assert_eq!(epochs, vec![0, 5]);
    assert_eq!(kc.current_epoch(), Some(5));
    assert!(kc.get(3).is_none());
    assert_eq!(kc.get(5).unwrap().key, [5u8; 32]);
}

#[test]
fn keychain_bytes_roundtrip_preserves_keys() {
    let mut kc = KeyChain::generate_new();
    kc.rotate();
    kc.rotate();
    let bytes = kc.to_bytes();
    assert_eq!(bytes.len(), 3 * 36);
    let loaded = KeyChain::from_bytes(&bytes).unwrap();
    let a: Vec<(u32, [u8; 32])> = kc.all_epochs().iter().map(|k| (k.epoch, k.key)).collect();
    let b: Vec<(u32, [u8; 32])> = loaded.all_epochs().iter().map(|k| (k.epoch, k.key)).collect();
    assert_eq!(a, b);
}

#[test]
fn keychain_bytes_layout_is_epoch_le_then_key() {
    let kc = KeyChain::from_epochs(vec![EpochKey { epoch: 0x0102_0304, key: [9u8; 32] }]);
    let bytes = kc.to_bytes();
    assert_eq!(&bytes[0..4], &[4, 3, 2, 1]);
    assert_eq!(&bytes[4..36], &[9u8; 32]);
}

#[test]
fn keychain_from_bytes_rejects_partial_record() {
    assert!(matches!(KeyChain::from_bytes(&[0u8; 5]), Err(KeyChainError::Corrupted)));
    assert!(matches!(KeyChain::from_bytes(&[0u8; 37]), Err(KeyChainError::Corrupted)));
}

#[test]
fn keychain_from_empty_bytes_is_empty() {
    let kc = KeyChain::from_bytes(&[]).unwrap();
    assert!(kc.all_epochs().is_empty());
}

#[test]
fn add_epoch_keeps_existing_key() {
    let mut kc = KeyChain::from_epochs(vec![EpochKey { epoch: 1, key: [1u8; 32] }]);
    kc.add_epoch(EpochKey { epoch: 1, key: [7u8; 32] });
    assert_eq!(kc.get(1).unwrap().key, [1u8; 32]);
}

#[test]
fn adding_epochs_in_turn_keeps_them_sorted_and_complete() {
    let es: Vec<u32> = vec![5, 1, 9, 1, 3, 5, 0, 9, 2];
    let mut kc = KeyChain::from_epochs(vec![]);
    for e in &es {
        kc.add_epoch(EpochKey { epoch: *e, key: [*e as u8; 32] });
    }
    let got: Vec<u32> = kc.all_epochs().iter().map(|k| k.epoch).collect();
    assert!(got.windows(2).all(|w| w[0] < w[1]));
    let mut want = es.clone();
    want.sort();
    want.dedup();
    assert_eq!(got, want);
}

#[test]
fn persistent_records_are_in_chain_order() {
    let mut kc = KeyChain::from_epochs(vec![]);
    kc.add_epoch(EpochKey { epoch: 7, key: [7u8; 32] });
    kc.add_epoch(EpochKey { epoch: 300, key: [3u8; 32] });
    let d = kc.to_bytes();
    assert_eq!(d.len(), 72);
    assert_eq!(&d[0..4], &7u32.to_le_bytes());
    assert_eq!(&d[4..36], &[7u8; 32]);
    assert_eq!(&d[36..40], &300u32.to_le_bytes());
    assert_eq!(&d[40..72], &[3u8; 32]);
}

#[test]
fn test_save_and_load_roundtrip() {
    let mut kc = KeyChain::generate_new();
    kc.rotate();
    let saved = kc.to_bytes();
    let loaded = KeyChain::load(Some(&saved)).unwrap().expect("keychain must be present");
    assert_eq!(loaded.current_epoch(), Some(1));
    assert_eq!(loaded.get(0).unwrap().key, kc.get(0).unwrap().key);
    assert_eq!(loaded.get(1).unwrap().key, kc.get(1).unwrap().key);
}

#[test]
fn test_load_returns_none_when_no_file() {
    assert!(KeyChain::load(None).unwrap().is_none());
}

#[test]
fn test_load_rejects_corrupted_data() {
    // 5 bytes is not a multiple of 36
    assert!(KeyChain::load(Some(&[0u8; 5])).is_err());
}

#[test]
fn test_save_load_preserves_key_material_exactly() {
    let mut kc = KeyChain::generate_new();
    kc.rotate();
    kc.rotate();
    let original_keys: Vec<(u32, [u8; 32])> = kc.all_epochs().iter().map(|k| (k.epoch, k.key)).collect();
    let saved = kc.to_bytes();
    let loaded = KeyChain::load(Some(&saved)).unwrap().unwrap();
    let loaded_keys: Vec<(u32, [u8; 32])> = loaded.all_epochs().iter().map(|k| (k.epoch, k.key)).collect();
    assert_eq!(original_keys, loaded_keys);
}

#[test]
fn test_save_load_many_epochs() {
    let mut kc = KeyChain::generate_new();
    for _ in 0..99 {
        kc.rotate();
    }
    assert_eq!(kc.current_epoch(), Some(99));
    assert_eq!(kc.all_epochs().len(), 100);
    let saved = kc.to_bytes();
    let loaded = KeyChain::load(Some(&saved)).unwrap().unwrap();
    assert_eq!(loaded.current_epoch(), Some(99));
    assert_eq!(loaded.all_epochs().len(), 100);
}

#[test]
fn test_load_rejects_empty_file() {
    // Empty file is 0 bytes, 0 % 36 == 0, so it loads as an empty keychain
    let loaded = KeyChain::load(Some(&[])).unwrap().unwrap();
    assert!(loaded.all_epochs().is_empty());
}
