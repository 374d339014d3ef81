//! Metadata store: create/update/read/delete semantics, length bounds and
//! the created/updated notification distinction.

use revora::{Event, RevoraRevenueShare};

#[test]
fn set_then_get_returns_stored_uri() {
    let mut reg = RevoraRevenueShare::new();
    let issuer: u64 = 1;

    reg.set_metadata(issuer, b"off-1".to_vec(), b"ipfs://x".to_vec());
    assert_eq!(reg.get_metadata(issuer, &b"off-1".to_vec()), Some(b"ipfs://x".to_vec()));
}

#[test]
fn get_metadata_missing_returns_none() {
    let reg = RevoraRevenueShare::new();
    assert_eq!(reg.get_metadata(1, &b"off-1".to_vec()), None);
}

#[test]
fn first_set_emits_created_second_emits_updated() {
    let mut reg = RevoraRevenueShare::new();
    let issuer: u64 = 1;

    reg.set_metadata(issuer, b"off-1".to_vec(), b"ipfs://x".to_vec());
    reg.set_metadata(issuer, b"off-1".to_vec(), b"ipfs://y".to_vec());

    assert_eq!(
        reg.events,
        vec![
            Event::MetadataCreated {
                issuer,
                offering_id: b"off-1".to_vec(),
                uri: b"ipfs://x".to_vec(),
            },
            Event::MetadataUpdated {
                issuer,
                offering_id: b"off-1".to_vec(),
                uri: b"ipfs://y".to_vec(),
            },
        ]
    );
    assert_eq!(reg.get_metadata(issuer, &b"off-1".to_vec()), Some(b"ipfs://y".to_vec()));
}

#[test]
fn update_metadata_overwrites_existing_entry() {
    let mut reg = RevoraRevenueShare::new();
    let issuer: u64 = 1;

    reg.set_metadata(issuer, b"off-1".to_vec(), b"ipfs://x".to_vec());
    reg.update_metadata(issuer, b"off-1".to_vec(), b"https://example/meta.json".to_vec());

    assert_eq!(
        reg.get_metadata(issuer, &b"off-1".to_vec()),
        Some(b"https://example/meta.json".to_vec())
    );
    assert_eq!(
        reg.events[1],
        Event::MetadataUpdated {
            issuer,
            offering_id: b"off-1".to_vec(),
            uri: b"https://example/meta.json".to_vec(),
        }
    );
}

#[test]
fn delete_metadata_removes_entry_and_emits_event() {
    let mut reg = RevoraRevenueShare::new();
    let issuer: u64 = 1;

    reg.set_metadata(issuer, b"off-1".to_vec(), b"ipfs://x".to_vec());
    reg.delete_metadata(issuer, b"off-1".to_vec());

    assert_eq!(reg.get_metadata(issuer, &b"off-1".to_vec()), None);
    assert_eq!(
        reg.events[1],
        Event::MetadataDeleted { issuer, offering_id: b"off-1".to_vec() }
    );
}

#[test]
fn metadata_is_scoped_per_issuer_and_id() {
    let mut reg = RevoraRevenueShare::new();
    let issuer_a: u64 = 1;
    let issuer_b: u64 = 2;

    reg.set_metadata(issuer_a, b"off-1".to_vec(), b"ipfs://a1".to_vec());
    reg.set_metadata(issuer_a, b"off-2".to_vec(), b"ipfs://a2".to_vec());
    reg.set_metadata(issuer_b, b"off-1".to_vec(), b"ipfs://b1".to_vec());

    reg.delete_metadata(issuer_a, b"off-1".to_vec());

    assert_eq!(reg.get_metadata(issuer_a, &b"off-1".to_vec()), None);
    assert_eq!(reg.get_metadata(issuer_a, &b"off-2".to_vec()), Some(b"ipfs://a2".to_vec()));
    assert_eq!(reg.get_metadata(issuer_b, &b"off-1".to_vec()), Some(b"ipfs://b1".to_vec()));
}

#[test]
fn metadata_accepts_boundary_lengths() {
    let mut reg = RevoraRevenueShare::new();
    let issuer: u64 = 1;

    // Shortest accepted reference: one byte.
    reg.set_metadata(issuer, b"short".to_vec(), b"x".to_vec());
    assert_eq!(reg.get_metadata(issuer, &b"short".to_vec()), Some(b"x".to_vec()));

    // Longest accepted reference: exactly the cap.
    let long = vec![b'u'; revora::MAX_METADATA_LENGTH];
    reg.set_metadata(issuer, b"long".to_vec(), long.clone());
    assert_eq!(reg.get_metadata(issuer, &b"long".to_vec()), Some(long));
}
