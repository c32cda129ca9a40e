use security_framework::identity::SecIdentity;
use security_framework::store::ContainerEntry;
use security_framework::store::CredStore;
use security_framework::store::STATUS_DECODE_FAILED;
use security_framework::store::STATUS_PASSPHRASE_MISMATCH;

fn assert_send<T: Send>() {}

fn single_identity_fixture(store: &mut CredStore) -> Vec<u8> {
    let rec = store.install_identity();
    let der = vec![0x30, 0x82, 0x01, 0x00, 0x02, 0x01, 0x03];
    store.install_pkcs12(
        der.clone(),
        String::from("password123"),
        vec![ContainerEntry {
            identity: rec.identity,
        }],
    );
    der
}

#[test]
fn identity_has_send_bound() {
    assert_send::<SecIdentity>();
}

#[test]
fn sec_identity_from_pkcs12() {
    let mut store = CredStore::new();
    let der = single_identity_fixture(&mut store);
    let identities = SecIdentity::from_pkcs12(&mut store, &der, "password123").unwrap();
    assert_eq!(1, identities.len());
}

#[test]
fn wrong_passphrase_fails_with_nonzero_code() {
    let mut store = CredStore::new();
    let der = single_identity_fixture(&mut store);
    let err = SecIdentity::from_pkcs12(&mut store, &der, "letmein").unwrap_err();
    assert_eq!(err.code(), STATUS_PASSPHRASE_MISMATCH);
    assert_ne!(err.code(), 0);
    assert!(!err.description().is_empty());
}

#[test]
fn unknown_container_fails_to_decode() {
    let mut store = CredStore::new();
    let err = SecIdentity::from_pkcs12(&mut store, &[1, 2, 3], "password123").unwrap_err();
    assert_eq!(err.code(), STATUS_DECODE_FAILED);
    assert_ne!(err.code(), 0);
    assert!(!err.description().is_empty());
}

#[test]
fn entries_without_identity_are_filtered() {
    let mut store = CredStore::new();
    let rec = store.install_identity();
    let der = vec![9, 9, 9];
    store.install_pkcs12(
        der.clone(),
        String::from("pw"),
        vec![
            ContainerEntry { identity: 0 },
            ContainerEntry {
                identity: rec.identity,
            },
            ContainerEntry { identity: 0 },
        ],
    );
    let identities = SecIdentity::from_pkcs12(&mut store, &der, "pw").unwrap();
    assert_eq!(1, identities.len());
    assert_eq!(identities[0].as_ptr(), rec.identity);
}

#[test]
fn certificate_and_key_are_independent() {
    let mut store = CredStore::new();
    let der = single_identity_fixture(&mut store);
    let mut identities = SecIdentity::from_pkcs12(&mut store, &der, "password123").unwrap();
    let identity = identities.pop().unwrap();

    let cert = identity.certificate(&mut store).unwrap();
    let key = identity.private_key(&mut store).unwrap();
    assert_ne!(cert.as_ptr(), key.as_ptr());
    assert_ne!(cert.as_ptr(), identity.as_ptr());
    let key_ptr = key.as_ptr();

    // Releasing the certificate handle leaves the key handle untouched.
    cert.dispose(store.refs_mut());
    assert_eq!(store.ref_table().count(key_ptr), 1);

    // The accessors are independent and uncached: a fresh call still
    // succeeds after the certificate handle is gone.
    let key2 = identity.private_key(&mut store).unwrap();
    assert_eq!(key2.as_ptr(), key_ptr);
    assert_eq!(store.ref_table().count(key_ptr), 2);

    // Release everything: acquisitions and releases balance.
    key.dispose(store.refs_mut());
    key2.dispose(store.refs_mut());
    identity.dispose(store.refs_mut());
    assert_eq!(
        store.ref_table().total_acquired(),
        store.ref_table().total_released()
    );
}
