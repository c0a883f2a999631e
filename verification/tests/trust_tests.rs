use dioscuri::client::trust_gate;
use dioscuri::error::Error;
use dioscuri::store::TrustStore;
use dioscuri::verification::{create_fingerprint, State, TofuVerifier, Verifier};

#[test]
fn test_fingerprint_known_vectors() {
    assert_eq!(
        "e3b0c44298fc1c149afbf4c8996fb92427ae41e4649b934ca495991b7852b855",
        create_fingerprint(b"")
    );
    assert_eq!(
        "ba7816bf8f01cfea414140de5dae2223b00361a396177a9cb410ff61f20015ad",
        create_fingerprint(b"abc")
    );
}

#[test]
fn test_fingerprint_deterministic() {
    let der = b"the very same bytes";
    assert_eq!(create_fingerprint(der), create_fingerprint(der));
}

#[test]
fn test_store_first_contact_creates_one_record() {
    let mut store = TrustStore::new();
    assert_eq!(0, store.len());
    assert!(store.get_certificate("example.org").is_none());

    let record = store.insert_certificate("example.org", "aa11", 100);

    assert_eq!(1, store.len());
    assert_eq!("example.org", record.hostname);
    assert_eq!("aa11", record.fingerprint);
    assert_eq!(100, record.first_seen);
    assert_eq!(100, record.last_seen);

    let found = store.get_certificate("example.org").unwrap();
    assert_eq!("aa11", found.fingerprint);
    assert_eq!(100, found.first_seen);
    assert_eq!(100, found.last_seen);
}

#[test]
fn test_store_update_touches_only_last_seen() {
    let mut store = TrustStore::new();
    store.insert_certificate("example.org", "aa11", 100);
    store.insert_certificate("other.org", "bb22", 150);

    store.update_certificate_timestamp("example.org", 200);

    let updated = store.get_certificate("example.org").unwrap();
    assert_eq!("aa11", updated.fingerprint);
    assert_eq!(100, updated.first_seen);
    assert_eq!(200, updated.last_seen);

    let untouched = store.get_certificate("other.org").unwrap();
    assert_eq!(150, untouched.last_seen);
    assert_eq!(2, store.len());
}

#[test]
fn test_store_update_without_record_changes_nothing() {
    let mut store = TrustStore::new();
    store.insert_certificate("example.org", "aa11", 100);

    store.update_certificate_timestamp("unknown.org", 200);

    assert_eq!(1, store.len());
    assert_eq!(100, store.get_certificate("example.org").unwrap().last_seen);
}

#[test]
fn test_store_lookup_misses_other_hosts() {
    let mut store = TrustStore::new();
    store.insert_certificate("example.org", "aa11", 100);

    assert!(store.get_certificate("example.com").is_none());
}

#[test]
fn test_verify_without_certificate_is_an_error() {
    let mut verifier = TofuVerifier::new(TrustStore::new());

    let result = verifier.verify(None, "gemini://example.org", 1000);

    assert_eq!(Err(Error::NoPeerCertificate), result);
    assert_eq!(0, verifier.store().len());
}

#[test]
fn test_verify_rejects_bytes_that_are_no_certificate() {
    let mut verifier = TofuVerifier::new(TrustStore::new());
    let garbage = b"definitely not DER".to_vec();

    let result = verifier.verify(Some(&garbage), "gemini://example.org", 1000);

    assert_eq!(Err(Error::CertificateInvalid), result);
    assert_eq!(0, verifier.store().len());
}

#[test]
fn test_verify_needs_a_host_in_the_url() {
    let mut verifier = TofuVerifier::new(TrustStore::new());
    let garbage = b"bytes".to_vec();

    let result = verifier.verify(Some(&garbage), "not a url", 1000);

    assert_eq!(Err(Error::CertificateInvalid), result);
}

#[test]
fn test_trust_gate_blocks_only_conflicts() {
    assert_eq!(Ok(()), trust_gate(State::New));
    assert_eq!(Ok(()), trust_gate(State::Matched));
    assert_eq!(Err(Error::TrustConflict), trust_gate(State::Conflict));
}

#[test]
fn test_record_at_walks_the_store() {
    let mut store = TrustStore::new();
    store.insert_certificate("a.org", "a1", 1);
    store.insert_certificate("b.org", "b2", 2);

    assert_eq!("a.org", store.record_at(0).hostname);
    assert_eq!("b.org", store.record_at(1).hostname);
}

/// A self-signed end-entity certificate for `example.org`, valid from
/// late 2026 for a century.
fn example_org_cert() -> Vec<u8> {
    vec![
        48, 130, 1, 156, 48, 130, 1, 65, 160, 3, 2, 1, 2, 2, 20, 122, 54, 159, 167, 193, 9, 215,
        153, 241, 25, 127, 145, 19, 216, 239, 157, 73, 230, 238, 60, 48, 10, 6, 8, 42, 134, 72,
        206, 61, 4, 3, 2, 48, 22, 49, 20, 48, 18, 6, 3, 85, 4, 3, 12, 11, 101, 120, 97, 109,
        112, 108, 101, 46, 111, 114, 103, 48, 32, 23, 13, 50, 54, 49, 48, 49, 50, 48, 54, 52,
        51, 53, 56, 90, 24, 15, 50, 49, 50, 54, 48, 57, 49, 56, 48, 54, 52, 51, 53, 56, 90, 48,
        22, 49, 20, 48, 18, 6, 3, 85, 4, 3, 12, 11, 101, 120, 97, 109, 112, 108, 101, 46, 111,
        114, 103, 48, 89, 48, 19, 6, 7, 42, 134, 72, 206, 61, 2, 1, 6, 8, 42, 134, 72, 206, 61,
        3, 1, 7, 3, 66, 0, 4, 45, 64, 131, 246, 85, 67, 2, 203, 102, 132, 158, 218, 169, 14,
        124, 72, 205, 6, 31, 125, 251, 223, 195, 190, 117, 127, 150, 135, 116, 115, 37, 42, 39,
        208, 180, 165, 88, 50, 9, 26, 46, 59, 110, 70, 40, 207, 153, 68, 216, 9, 166, 154, 172,
        164, 118, 142, 110, 233, 53, 236, 108, 1, 220, 169, 163, 107, 48, 105, 48, 29, 6, 3, 85,
        29, 14, 4, 22, 4, 20, 84, 35, 188, 4, 105, 10, 57, 153, 83, 60, 20, 197, 86, 251, 190,
        62, 123, 83, 217, 136, 48, 31, 6, 3, 85, 29, 35, 4, 24, 48, 22, 128, 20, 84, 35, 188, 4,
        105, 10, 57, 153, 83, 60, 20, 197, 86, 251, 190, 62, 123, 83, 217, 136, 48, 15, 6, 3,
        85, 29, 19, 1, 1, 255, 4, 5, 48, 3, 1, 1, 255, 48, 22, 6, 3, 85, 29, 17, 4, 15, 48, 13,
        130, 11, 101, 120, 97, 109, 112, 108, 101, 46, 111, 114, 103, 48, 10, 6, 8, 42, 134, 72,
        206, 61, 4, 3, 2, 3, 73, 0, 48, 70, 2, 33, 0, 153, 8, 112, 219, 160, 181, 98, 79, 206,
        213, 26, 72, 154, 219, 85, 236, 59, 252, 107, 8, 220, 30, 52, 166, 129, 213, 83, 135,
        186, 130, 35, 20, 2, 33, 0, 204, 88, 196, 175, 169, 227, 66, 40, 194, 174, 5, 237, 41,
        55, 249, 187, 199, 11, 249, 186, 3, 139, 225, 48, 253, 233, 112, 4, 202, 20, 82, 62
    ]
}

/// A second, different certificate for the same hostname.
fn other_example_org_cert() -> Vec<u8> {
    vec![
        48, 130, 1, 155, 48, 130, 1, 65, 160, 3, 2, 1, 2, 2, 20, 89, 69, 231, 240, 69, 8, 219,
        255, 30, 41, 227, 137, 156, 182, 245, 134, 109, 76, 157, 43, 48, 10, 6, 8, 42, 134, 72,
        206, 61, 4, 3, 2, 48, 22, 49, 20, 48, 18, 6, 3, 85, 4, 3, 12, 11, 101, 120, 97, 109,
        112, 108, 101, 46, 111, 114, 103, 48, 32, 23, 13, 50, 54, 49, 48, 49, 50, 48, 54, 52,
        52, 49, 53, 90, 24, 15, 50, 49, 50, 54, 48, 57, 49, 56, 48, 54, 52, 52, 49, 53, 90, 48,
        22, 49, 20, 48, 18, 6, 3, 85, 4, 3, 12, 11, 101, 120, 97, 109, 112, 108, 101, 46, 111,
        114, 103, 48, 89, 48, 19, 6, 7, 42, 134, 72, 206, 61, 2, 1, 6, 8, 42, 134, 72, 206, 61,
        3, 1, 7, 3, 66, 0, 4, 102, 92, 74, 6, 175, 32, 152, 20, 179, 32, 35, 190, 206, 184, 235,
        59, 238, 130, 152, 254, 178, 214, 37, 67, 128, 54, 44, 141, 97, 237, 63, 46, 165, 6, 4,
        105, 213, 122, 56, 167, 31, 195, 69, 162, 155, 77, 68, 218, 189, 11, 153, 160, 24, 176,
        73, 244, 222, 192, 7, 225, 99, 25, 35, 211, 163, 107, 48, 105, 48, 29, 6, 3, 85, 29, 14,
        4, 22, 4, 20, 4, 5, 7, 227, 53, 0, 213, 37, 90, 75, 197, 73, 17, 21, 174, 252, 39, 233,
        223, 3, 48, 31, 6, 3, 85, 29, 35, 4, 24, 48, 22, 128, 20, 4, 5, 7, 227, 53, 0, 213, 37,
        90, 75, 197, 73, 17, 21, 174, 252, 39, 233, 223, 3, 48, 15, 6, 3, 85, 29, 19, 1, 1, 255,
        4, 5, 48, 3, 1, 1, 255, 48, 22, 6, 3, 85, 29, 17, 4, 15, 48, 13, 130, 11, 101, 120, 97,
        109, 112, 108, 101, 46, 111, 114, 103, 48, 10, 6, 8, 42, 134, 72, 206, 61, 4, 3, 2, 3,
        72, 0, 48, 69, 2, 32, 118, 64, 78, 34, 22, 151, 81, 132, 40, 35, 201, 192, 132, 221,
        153, 213, 144, 211, 178, 56, 113, 93, 198, 190, 135, 40, 234, 81, 218, 145, 184, 190, 2,
        33, 0, 172, 223, 20, 170, 41, 255, 45, 148, 90, 233, 45, 247, 82, 21, 144, 172, 189, 63,
        123, 19, 117, 152, 17, 235, 15, 38, 107, 61, 22, 17, 144, 245
    ]
}

#[test]
fn test_tofu_first_contact_then_match_then_conflict() {
    let der = example_org_cert();
    let mut verifier = TofuVerifier::new(TrustStore::new());

    // first contact: the hostname is pinned and the state is New
    let state = verifier.verify(Some(&der), "gemini://example.org", 1_800_000_000).unwrap();
    assert_eq!(State::New, state);
    assert_eq!(1, verifier.store().len());
    let pinned = verifier.store().get_certificate("example.org").unwrap();
    assert_eq!(create_fingerprint(&der), pinned.fingerprint);
    assert_eq!(1_800_000_000, pinned.first_seen);
    assert_eq!(1_800_000_000, pinned.last_seen);

    // the identical certificate matches and refreshes only last_seen
    let state = verifier.verify(Some(&der), "gemini://example.org", 1_800_000_100).unwrap();
    assert_eq!(State::Matched, state);
    assert_eq!(1, verifier.store().len());
    let refreshed = verifier.store().get_certificate("example.org").unwrap();
    assert_eq!(pinned.fingerprint, refreshed.fingerprint);
    assert_eq!(1_800_000_000, refreshed.first_seen);
    assert_eq!(1_800_000_100, refreshed.last_seen);

    // a different certificate for the same hostname is a conflict and
    // writes nothing
    let other = other_example_org_cert();
    let state = verifier.verify(Some(&other), "gemini://example.org", 1_800_000_200).unwrap();
    assert_eq!(State::Conflict, state);
    assert_eq!(1, verifier.store().len());
    let unchanged = verifier.store().get_certificate("example.org").unwrap();
    assert_eq!(pinned.fingerprint, unchanged.fingerprint);
    assert_eq!(1_800_000_000, unchanged.first_seen);
    assert_eq!(1_800_000_100, unchanged.last_seen);
}

#[test]
fn test_verify_rejects_certificate_for_another_host() {
    let der = example_org_cert();
    let mut verifier = TofuVerifier::new(TrustStore::new());

    let result = verifier.verify(Some(&der), "gemini://other.org", 1_800_000_000);

    assert_eq!(Err(Error::CertificateInvalid), result);
    assert_eq!(0, verifier.store().len());
}

#[test]
fn test_verify_checks_the_validity_window() {
    let der = example_org_cert();
    let mut verifier = TofuVerifier::new(TrustStore::new());

    assert_eq!(
        Err(Error::CertificateNotYetValid),
        verifier.verify(Some(&der), "gemini://example.org", 0)
    );
    assert_eq!(
        Err(Error::CertificateExpired),
        verifier.verify(Some(&der), "gemini://example.org", 5_000_000_000_000)
    );
    assert_eq!(0, verifier.store().len());
}
