//! Trusted-peer identities, labels and the store format.

use local_transfer_core::trusted_peer_store::{MutationStep, TrustedPeerStore};
use local_transfer_core::trusted_peers::{
    bytes_with, bytes_without, decode, encode, parse_record, MalformedStoreReason, PeerKeyIdentity,
    PeerKeyIdentityError, TrustedPeerLabel, TrustedPeerLabelError, TrustedPeerRecord,
    TrustedPeerStoreError, TrustedPeers, MAX_PEER_IDENTITY_BYTES, MAX_TRUSTED_PEER_LABEL_CHARS,
};

fn record(scheme: u16, byte: u8, label: Option<&str>) -> TrustedPeerRecord {
    TrustedPeerRecord::new(
        PeerKeyIdentity::new(scheme, vec![byte; 2]).unwrap(),
        label.map(|label| TrustedPeerLabel::new(label).unwrap()),
    )
}

#[test]
fn key_identity_and_label_bounds_hold_at_the_exact_limit() {
    assert!(matches!(
        PeerKeyIdentity::new(0, vec![]),
        Err(PeerKeyIdentityError::Empty)
    ));
    assert!(PeerKeyIdentity::new(0, vec![0; MAX_PEER_IDENTITY_BYTES]).is_ok());
    assert!(matches!(
        PeerKeyIdentity::new(0, vec![0; MAX_PEER_IDENTITY_BYTES + 1]),
        Err(PeerKeyIdentityError::TooLarge { .. })
    ));

    assert!(TrustedPeerLabel::new("").is_err());
    assert!(TrustedPeerLabel::new("   ").is_err());
    assert!(TrustedPeerLabel::new("bad\nlabel").is_err());
    let exact = "x".repeat(MAX_TRUSTED_PEER_LABEL_CHARS);
    assert_eq!(TrustedPeerLabel::new(&exact).unwrap().as_str(), exact);
    assert!(matches!(
        TrustedPeerLabel::new(&"x".repeat(MAX_TRUSTED_PEER_LABEL_CHARS + 1)),
        Err(TrustedPeerLabelError::TooLong { .. })
    ));
}

#[test]
fn key_identity_display_is_a_stable_scheme_and_hex_string() {
    let id = PeerKeyIdentity::new(9, vec![0x0a, 0xbc]).unwrap();
    assert_eq!(id.to_text(), "9:0abc");
    assert_eq!(id.scheme(), 9);
    assert_eq!(id.material(), &[0x0a, 0xbc]);
}

#[test]
fn no_public_api_manufactures_trust_or_promotes_advisory_data() {
    // A record enters the store only as a record with an authenticated key identity;
    // nothing converts a discovered peer into either.
    let _: fn(&TrustedPeerStore, TrustedPeerRecord) -> MutationStep = TrustedPeerStore::store;
    let _: fn(&TrustedPeerStore, &PeerKeyIdentity) -> MutationStep = TrustedPeerStore::remove;
}

#[test]
fn stores_are_written_in_one_form_and_read_back() {
    let one = decode(&bytes_with(&TrustedPeers::empty(), record(2, 0xff, None)).unwrap()).unwrap();
    let bytes = bytes_with(&one, record(1, 0x0a, Some("\u{e9}"))).unwrap();

    assert_eq!(bytes, b"local-transfer-trusted-peers v1\n1 0a0a c3a9\n2 ffff -\n");
    let two = decode(&bytes).unwrap();
    assert_eq!(two.iter(), &[record(1, 0x0a, Some("\u{e9}")), record(2, 0xff, None)]);

    let left = bytes_without(&two, record(2, 0xff, None).identity()).unwrap().unwrap();
    assert_eq!(left, b"local-transfer-trusted-peers v1\n1 0a0a c3a9\n");
    assert!(bytes_without(&two, record(3, 0xff, None).identity()).unwrap().is_none());
}

#[test]
fn identities_are_ordered_by_scheme_then_material() {
    let bytes = b"local-transfer-trusted-peers v1\n2 00 -\n1 ff -\n1 0a00 -\n1 0a -\n";

    let order: Vec<String> =
        decode(bytes).unwrap().iter().iter().map(|r| r.identity().to_text()).collect();

    assert_eq!(order, ["1:0a", "1:0a00", "1:ff", "2:00"]);
}

#[test]
fn store_failures_describe_themselves() {
    for (error, message) in [
        (
            TrustedPeerStoreError::StoreTooLarge { size: 70000, maximum: 65536 },
            "70000",
        ),
        (TrustedPeerStoreError::RecordTooLarge { size: 648, maximum: 647 }, "648"),
        (TrustedPeerStoreError::UnsupportedVersion { version: 9 }, "9"),
        (TrustedPeerStoreError::CapacityExceeded { count: 129, maximum: 128 }, "129"),
        (TrustedPeerStoreError::NotRegularFile { path: "/p".to_owned() }, "/p"),
        (TrustedPeerStoreError::SymlinkNotAllowed { path: "/p".to_owned() }, "/p"),
        (TrustedPeerStoreError::InvalidStorePath { path: "p".to_owned() }, "has no parent: p"),
        (
            TrustedPeerStoreError::MalformedStore { reason: MalformedStoreReason::Header },
            "malformed trusted-peer store (",
        ),
    ] {
        assert!(error.message().contains(message), "{}", error.message());
        assert!(error.source().is_none());
    }
    assert!(!TrustedPeerStoreError::StoreBusy.message().is_empty());
    assert!(!TrustedPeerStoreError::DuplicateIdentity.message().is_empty());
}

#[test]
fn lines_are_sorted_by_identity_whatever_the_order_of_the_records() {
    let records = [
        TrustedPeerRecord::new(PeerKeyIdentity::new(5, vec![0x05]).unwrap(), None),
        TrustedPeerRecord::new(PeerKeyIdentity::new(1, vec![0x01]).unwrap(), None),
    ];

    assert_eq!(encode(&records), b"local-transfer-trusted-peers v1\n1 01 -\n5 05 -\n");
    assert_eq!(encode(&[]), b"local-transfer-trusted-peers v1\n");
}

#[test]
fn a_record_line_holds_every_valid_label() {
    let line = format!("1 aa {}", "e7958c".repeat(64));

    let record = parse_record(&line).unwrap();

    assert_eq!(record.identity().scheme(), 1);
    assert_eq!(record.identity().material(), [0xaa]);
    assert_eq!(record.label().unwrap().as_str(), "界".repeat(64));
}

#[test]
fn record_lines_and_label_fields_are_bounded() {
    let longest = format!("65535 {} {}", "ff".repeat(64), "f09f9bb0".repeat(64));
    assert_eq!(longest.len(), 647);
    assert!(parse_record(&longest).is_ok());

    assert_eq!(
        parse_record(&format!("{longest}0")).unwrap_err(),
        TrustedPeerStoreError::RecordTooLarge { size: 648, maximum: 647 }
    );
    for label in ["62".repeat(257), "62".repeat(65), "09".to_owned()] {
        assert_eq!(
            parse_record(&format!("1 aa {label}")).unwrap_err(),
            TrustedPeerStoreError::MalformedStore { reason: MalformedStoreReason::LabelValue }
        );
    }
}
