use multi_desktop::pairing::{
    check_pairing_code, device_record, device_record_desktop, is_device_record_name, is_hex,
    is_lower_hex, join_path, list_desktop_devices, new_pairing, pairing_record, parse_pairing,
    record_digest_of, redeem_record, revoke_desktop_tokens, revoke_device, token_digest,
    token_record_for, token_record_name, validate_desktop_id, DeviceRecord, PairingError,
    PairingStore, PAIRING_LIFETIME_SECONDS,
};

#[test]
fn token_digest_is_lowercase_sha256_hex() {
    assert_eq!(token_digest("abc"), "ba7816bf8f01cfea414140de5dae2223b00361a396177a9cb410ff61f20015ad");
    assert_eq!(
        token_record_name(&token_digest("")),
        "sha256-e3b0c44298fc1c149afbf4c8996fb92427ae41e4649b934ca495991b7852b855"
    );
}

#[test]
fn pairing_records_read_back_until_they_expire() {
    let (pairing, record) = new_pairing("laptop", "00112233445566778899aabbccddeeff", 1000).unwrap();
    assert_eq!(pairing.desktop_id, "laptop");
    assert_eq!(pairing.code, "00112233445566778899aabbccddeeff");
    assert_eq!(pairing.expires_in_seconds, PAIRING_LIFETIME_SECONDS);
    assert_eq!(record, "desktop_id=laptop\nexpires=1300\n");
    assert_eq!(record, pairing_record("laptop", 1300));
    assert_eq!(parse_pairing(&record).unwrap(), ("laptop".to_owned(), 1300));
    assert_eq!(redeem_record(&record, 1300).unwrap(), "laptop");
    assert_eq!(redeem_record(&record, 1301), Err(PairingError::Expired));
    assert_eq!(PairingError::Expired.message(), "pairing code expired");
    assert_eq!(new_pairing("bad id", "00", 1).unwrap_err(), PairingError::InvalidDesktopId);
}

#[test]
fn damaged_pairing_records_are_refused() {
    assert_eq!(parse_pairing("expires=5\n"), Err(PairingError::InvalidRecord));
    assert_eq!(parse_pairing("desktop_id=desk\n"), Err(PairingError::InvalidRecord));
    assert_eq!(parse_pairing("desktop_id=desk\nexpires=soon\n"), Err(PairingError::InvalidRecord));
    assert_eq!(parse_pairing("desktop_id=../etc\nexpires=5\n"), Err(PairingError::InvalidDesktopId));
    assert_eq!(parse_pairing("expires=1\ndesktop_id=a\nexpires=9\r\ndesktop_id=b\n").unwrap(), ("b".to_owned(), 9));
}

#[test]
fn codes_tokens_and_ids_are_checked() {
    assert_eq!(check_pairing_code("00112233445566778899AABBCCDDEEFF"), Ok(()));
    assert_eq!(check_pairing_code("0011"), Err(PairingError::InvalidPairingCode));
    assert!(is_hex("aB09", 4) && !is_hex("aB0g", 4) && !is_hex("aB0", 4));
    assert!(is_lower_hex("ab09", 4) && !is_lower_hex("aB09", 4));
    assert_eq!(validate_desktop_id("girlfriend"), Ok(()));
    assert_eq!(validate_desktop_id(""), Err(PairingError::InvalidDesktopId));
    assert_eq!(validate_desktop_id("a".repeat(25).as_str()), Err(PairingError::InvalidDesktopId));
    let token = "a".repeat(64);
    assert_eq!(token_record_for(&token), Some(token_record_name(&token_digest(&token))));
    assert_eq!(token_record_for("short"), None);
    assert!(is_device_record_name(&token));
    assert!(is_device_record_name(&token_record_name(&token_digest(&token))));
    assert!(!is_device_record_name("sha256-ABC"));
    assert_eq!(record_digest_of("sha256-xyz").as_deref(), Some("xyz"));
    assert_eq!(record_digest_of("md5-xyz"), None);
}

#[test]
fn device_records_name_their_desktop() {
    assert_eq!(device_record("desk"), "desk\n");
    assert_eq!(device_record_desktop(&device_record("desk")).as_deref(), Some("desk"));
    assert_eq!(device_record_desktop("  desk \n").as_deref(), Some("desk"));
    assert_eq!(device_record_desktop("not valid\n"), None);
}

fn record_for(token: &str, desktop: &str) -> DeviceRecord {
    DeviceRecord { name: token_record_name(&token_digest(token)), contents: device_record(desktop) }
}

#[test]
fn lists_and_revokes_devices_by_desktop() {
    let first = "1".repeat(64);
    let second = "2".repeat(64);
    let other = "3".repeat(64);
    let records = vec![
        record_for(&first, "desk"),
        DeviceRecord { name: "notes.txt".to_owned(), contents: "desk\n".to_owned() },
        record_for(&other, "other"),
        record_for(&second, "desk"),
    ];
    let devices = list_desktop_devices("desk", &records).unwrap();
    assert_eq!(devices.len(), 2);
    let mut expected: Vec<String> = [&first, &second].iter().map(|t| token_digest(t)[..16].to_owned()).collect();
    expected.sort();
    assert_eq!(devices.iter().map(|d| d.id.clone()).collect::<Vec<_>>(), expected);
    assert!(devices.iter().all(|d| d.desktop_id == "desk"));
    let target = devices[0].id.clone();
    let index = revoke_device("desk", &target, &records).unwrap().unwrap();
    assert_eq!(records[index].contents, "desk\n");
    assert_eq!(revoke_device("other", &target, &records), Ok(None));
    assert_eq!(revoke_device("desk", "XYZ", &records), Err(PairingError::InvalidDeviceId));
    let twice = vec![record_for(&first, "desk"), record_for(&first, "desk")];
    let id = token_digest(&first)[..16].to_owned();
    assert_eq!(revoke_device("desk", &id, &twice), Err(PairingError::AmbiguousDeviceId));
    let legacy = DeviceRecord { name: "4".repeat(64), contents: "desk\n".to_owned() };
    let mut all = records.clone();
    all.push(legacy);
    assert_eq!(revoke_desktop_tokens("desk", &all).unwrap(), vec![0, 3, 4]);
    assert_eq!(revoke_desktop_tokens("other", &all).unwrap(), vec![2]);
    assert_eq!(revoke_desktop_tokens("bad id", &all), Err(PairingError::InvalidDesktopId));
}

#[test]
fn store_paths_follow_path_join() {
    let store = PairingStore::host_default();
    assert_eq!(store.root(), "/var/lib/multi-desktop");
    assert_eq!(store.pairings_dir(), "/var/lib/multi-desktop/pairings");
    assert_eq!(store.consumed_dir(), "/var/lib/multi-desktop/pairings-used");
    assert_eq!(PairingStore::new("/tmp/x/".to_owned()).devices_dir(), "/tmp/x/devices");
    assert_eq!(join_path("", "a"), "a");
    assert_eq!(join_path("/a", "/b"), "/b");
}
