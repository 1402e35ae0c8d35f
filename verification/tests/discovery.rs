//! Discovery metadata and its TXT encoding.

use local_transfer_core::device_name::DeviceName;
use local_transfer_core::discovery::{
    DiscoveryMetadata, DiscoveryMetadataError, DiscoveryNameHint, DiscoveryNameHintError,
    DiscoveryPlatformHint, DiscoveryProtocolRange, DiscoveryTxtEntry, DISCOVERY_SCHEMA_VERSION,
    DISCOVERY_SERVICE_TYPE, MAX_DISCOVERY_NAME_BYTES, MAX_DISCOVERY_TXT_BYTES,
    MAX_DISCOVERY_TXT_ENTRY_BYTES,
};
use local_transfer_core::platform::Platform;

fn entry(key: &str, value: impl AsRef<[u8]>) -> DiscoveryTxtEntry {
    DiscoveryTxtEntry::new(key, value.as_ref()).unwrap()
}

fn required_entries() -> Vec<DiscoveryTxtEntry> {
    vec![entry("dv", "1"), entry("pmin", "1"), entry("pmax", "1")]
}

#[test]
fn schema_version_one_and_canonical_service_type_are_explicit() {
    let metadata = DiscoveryMetadata::new(DiscoveryProtocolRange::initial(), None, None);

    assert_eq!(DISCOVERY_SERVICE_TYPE, "_local-transfer._tcp");
    assert_eq!(metadata.schema_version(), DISCOVERY_SCHEMA_VERSION);
    assert_eq!(metadata.schema_version(), 1);
}

#[test]
fn valid_protocol_range_exposes_inclusive_bounds() {
    let range = DiscoveryProtocolRange::new(1, 3).unwrap();

    assert_eq!(range.min(), 1);
    assert_eq!(range.max(), 3);
}

#[test]
fn overlapping_ranges_select_the_highest_common_major() {
    let local = DiscoveryProtocolRange::new(1, 2).unwrap();
    let remote = DiscoveryProtocolRange::new(2, 3).unwrap();

    assert!(local.is_compatible_with(remote));
    assert_eq!(local.highest_compatible_version(remote), Some(2));
}

#[test]
fn non_overlapping_ranges_are_incompatible() {
    let local = DiscoveryProtocolRange::new(1, 1).unwrap();
    let remote = DiscoveryProtocolRange::new(2, 2).unwrap();

    assert!(!local.is_compatible_with(remote));
    assert_eq!(local.highest_compatible_version(remote), None);
}

#[test]
fn reversed_protocol_range_is_a_typed_error() {
    let error = DiscoveryProtocolRange::new(3, 2).unwrap_err();

    assert_eq!(error.min(), 3);
    assert_eq!(error.max(), 2);
}

#[test]
fn every_required_field_is_enforced() {
    for missing in ["dv", "pmin", "pmax"] {
        let entries: Vec<_> = required_entries()
            .into_iter()
            .filter(|entry| entry.key() != missing)
            .collect();

        assert_eq!(
            DiscoveryMetadata::from_txt_entries(&entries).unwrap_err(),
            DiscoveryMetadataError::MissingField(missing)
        );
    }
}

#[test]
fn malformed_required_values_and_reversed_remote_range_are_rejected() {
    for (key, value) in [("dv", "01"), ("pmin", "one"), ("pmax", "")] {
        let mut entries = required_entries();
        entries.retain(|entry| entry.key() != key);
        entries.push(entry(key, value));
        assert_eq!(
            DiscoveryMetadata::from_txt_entries(&entries).unwrap_err(),
            DiscoveryMetadataError::MalformedField(key)
        );
    }

    let reversed = vec![entry("dv", "1"), entry("pmin", "3"), entry("pmax", "2")];
    assert!(matches!(
        DiscoveryMetadata::from_txt_entries(&reversed),
        Err(DiscoveryMetadataError::InvalidProtocolRange(_))
    ));
}

#[test]
fn unsupported_discovery_schema_is_explicit() {
    let entries = vec![entry("dv", "2"), entry("pmin", "1"), entry("pmax", "1")];

    assert_eq!(
        DiscoveryMetadata::from_txt_entries(&entries).unwrap_err(),
        DiscoveryMetadataError::UnsupportedSchemaVersion { version: 2 }
    );
}

#[test]
fn duplicate_known_keys_are_rejected_case_insensitively() {
    let mut entries = required_entries();
    entries.push(entry("DV", "1"));

    assert_eq!(
        DiscoveryMetadata::from_txt_entries(&entries).unwrap_err(),
        DiscoveryMetadataError::DuplicateKnownKey("dv")
    );
}

#[test]
fn unknown_keys_are_ignored_within_the_safety_budget() {
    let mut entries = required_entries();
    entries.push(entry("future", b"extension"));

    let metadata = DiscoveryMetadata::from_txt_entries(&entries).unwrap();

    assert_eq!(metadata.protocols(), DiscoveryProtocolRange::initial());
    assert!(metadata.name().is_none());
    assert!(metadata.platform().is_none());
}

#[test]
fn individual_and_total_txt_size_limits_are_enforced() {
    let value = vec![b'x'; MAX_DISCOVERY_TXT_ENTRY_BYTES];
    assert!(matches!(
        DiscoveryTxtEntry::new("x", &value),
        Err(DiscoveryMetadataError::TxtEntryTooLarge { .. })
    ));

    let mut entries = required_entries();
    entries.push(entry("future-a", vec![b'a'; 246]));
    entries.push(entry("future-b", vec![b'b'; 246]));
    let error = DiscoveryMetadata::from_txt_entries(&entries).unwrap_err();
    assert!(matches!(
        error,
        DiscoveryMetadataError::TotalMetadataTooLarge {
            size,
            maximum: MAX_DISCOVERY_TXT_BYTES
        } if size > MAX_DISCOVERY_TXT_BYTES
    ));
}

#[test]
fn name_hint_enforces_its_utf8_byte_limit() {
    let exact = "界".repeat(MAX_DISCOVERY_NAME_BYTES / 3);
    let too_long = format!("{exact}a");

    assert_eq!(DiscoveryNameHint::new(&exact).unwrap().as_str().len(), 96);
    assert!(DiscoveryNameHint::new(&too_long).is_err());
}

#[test]
fn device_name_hint_truncation_is_unicode_safe_and_non_mutating() {
    let persisted = DeviceName::new(&"界".repeat(64)).unwrap();
    let original = persisted.as_str().to_owned();

    let hint = DiscoveryNameHint::from_device_name(&persisted);

    assert_eq!(hint.as_str(), "界".repeat(32));
    assert_eq!(hint.as_str().len(), MAX_DISCOVERY_NAME_BYTES);
    assert_eq!(persisted.as_str(), original);
}

#[test]
fn all_bounded_optional_hints_round_trip() {
    for (platform, expected) in [
        (Platform::MacOs, DiscoveryPlatformHint::MacOs),
        (Platform::Windows, DiscoveryPlatformHint::Windows),
        (Platform::Linux, DiscoveryPlatformHint::Linux),
    ] {
        let metadata = DiscoveryMetadata::new(
            DiscoveryProtocolRange::initial(),
            Some(DiscoveryNameHint::new("Studio Workstation").unwrap()),
            Some(platform.into()),
        );
        let parsed = DiscoveryMetadata::from_txt_entries(&metadata.to_txt_entries()).unwrap();

        assert_eq!(parsed.name().unwrap().as_str(), "Studio Workstation");
        assert_eq!(parsed.platform(), Some(expected));
    }
}

#[test]
fn malformed_optional_hints_are_discarded_without_hiding_a_valid_peer() {
    let mut entries = required_entries();
    entries.push(entry("name", [0xff]));
    entries.push(entry("os", "freebsd"));

    let metadata = DiscoveryMetadata::from_txt_entries(&entries).unwrap();

    assert_eq!(metadata.protocols(), DiscoveryProtocolRange::initial());
    assert!(metadata.name().is_none());
    assert!(metadata.platform().is_none());
}

#[test]
fn local_encoder_emits_only_documented_privacy_bounded_keys() {
    let metadata = DiscoveryMetadata::new(
        DiscoveryProtocolRange::initial(),
        Some(DiscoveryNameHint::new("Living Room").unwrap()),
        Some(DiscoveryPlatformHint::Linux),
    );

    let entries = metadata.to_txt_entries();
    let keys: Vec<_> = entries.iter().map(DiscoveryTxtEntry::key).collect();
    let total: usize = entries.iter().map(DiscoveryTxtEntry::encoded_size).sum();

    assert_eq!(keys, ["dv", "pmin", "pmax", "name", "os"]);
    assert!(total <= MAX_DISCOVERY_TXT_BYTES);
}

#[test]
fn key_case_and_unknown_entries_leave_the_metadata_unchanged() {
    let plain = DiscoveryMetadata::from_txt_entries(&required_entries()).unwrap();
    let shouted = vec![
        entry("future", b"x"),
        entry("DV", "1"),
        entry("Pmin", "1"),
        entry("pMAX", "1"),
        entry("also-future", b""),
    ];

    assert_eq!(DiscoveryMetadata::from_txt_entries(&shouted).unwrap(), plain);
}

#[test]
fn compatibility_does_not_depend_on_the_side_that_asks() {
    let a = DiscoveryProtocolRange::new(1, 4).unwrap();
    let b = DiscoveryProtocolRange::new(3, 9).unwrap();

    assert_eq!(a.highest_compatible_version(b), Some(4));
    assert_eq!(b.highest_compatible_version(a), Some(4));
}

#[test]
fn metadata_limits_hold_at_the_exact_byte() {
    // A key of one byte, the separator and 253 bytes fill the length octet.
    assert!(DiscoveryTxtEntry::new("x", &vec![b'x'; 253]).is_ok());
    assert_eq!(
        DiscoveryTxtEntry::new("x", &vec![b'x'; 254]).unwrap_err(),
        DiscoveryMetadataError::TxtEntryTooLarge { size: 256, maximum: 255 }
    );

    // The required entries take 5 + 7 + 7 bytes.
    let mut entries = required_entries();
    entries.push(entry("a", vec![b'a'; 234]));
    entries.push(entry("b", vec![b'b'; 253]));
    assert_eq!(entries.iter().map(DiscoveryTxtEntry::encoded_size).sum::<usize>(), 512);
    assert!(DiscoveryMetadata::from_txt_entries(&entries).is_ok());

    entries[3] = entry("a", vec![b'a'; 235]);
    assert_eq!(
        DiscoveryMetadata::from_txt_entries(&entries).unwrap_err(),
        DiscoveryMetadataError::TotalMetadataTooLarge { size: 513, maximum: 512 }
    );
}

#[test]
fn invalid_keys_and_name_hints_are_typed_errors() {
    for key in ["", "a=b", "caf\u{e9}", "tab\t"] {
        assert_eq!(
            DiscoveryTxtEntry::new(key, b"").unwrap_err(),
            DiscoveryMetadataError::InvalidTxtKey
        );
    }
    assert_eq!(DiscoveryNameHint::new(" ").unwrap_err(), DiscoveryNameHintError::Empty);
    assert_eq!(
        DiscoveryNameHint::new("a\u{7}").unwrap_err(),
        DiscoveryNameHintError::ControlCharacter
    );
    assert_eq!(
        DiscoveryNameHint::new(&"x".repeat(97)).unwrap_err(),
        DiscoveryNameHintError::TooLong { actual: 97, maximum: 96 }
    );
}

#[test]
fn discovery_errors_describe_themselves() {
    assert_eq!(
        DiscoveryProtocolRange::new(3, 2).unwrap_err().message(),
        "minimum protocol major 3 exceeds maximum 2"
    );
    assert!(!DiscoveryNameHintError::Empty.message().is_empty());
    assert!(DiscoveryMetadataError::MissingField("dv").message().contains("dv"));
}
