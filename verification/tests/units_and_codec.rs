use lss::codec::{decode_cache, load_cache, save_cache};
use lss::store::{CacheEntry, CacheStore};
use lss::units::SizeUnit;

fn all_units() -> Vec<SizeUnit> {
    vec![
        SizeUnit::Bytes,
        SizeUnit::Kilobytes,
        SizeUnit::Megabytes,
        SizeUnit::Gigabytes,
        SizeUnit::Terabytes,
        SizeUnit::Kibibytes,
        SizeUnit::Mebibytes,
        SizeUnit::Gibibytes,
        SizeUnit::Tebibytes,
    ]
}

#[test]
fn unit_tag_round_trip() {
    for u in all_units() {
        assert_eq!(SizeUnit::from_u16(u.to_u16()), Some(u));
    }
}

#[test]
fn unit_tag_values() {
    assert_eq!(SizeUnit::Bytes.to_u16(), 0x0001);
    assert_eq!(SizeUnit::Terabytes.to_u16(), 0x0005);
    assert_eq!(SizeUnit::Kibibytes.to_u16(), 0x0101);
    assert_eq!(SizeUnit::Tebibytes.to_u16(), 0x0104);
}

#[test]
fn unit_tag_unknown_values() {
    assert_eq!(SizeUnit::from_u16(0x0000), None);
    assert_eq!(SizeUnit::from_u16(0x0006), None);
    assert_eq!(SizeUnit::from_u16(0x0100), None);
    assert_eq!(SizeUnit::from_u16(0x0105), None);
    assert_eq!(SizeUnit::from_u16(0xffff), None);
}

#[test]
fn unit_scales() {
    assert_eq!(SizeUnit::Bytes.unit_scale(), 1);
    assert_eq!(SizeUnit::Kilobytes.unit_scale(), 1000);
    assert_eq!(SizeUnit::Megabytes.unit_scale(), 1_000_000);
    assert_eq!(SizeUnit::Gigabytes.unit_scale(), 1_000_000_000);
    assert_eq!(SizeUnit::Terabytes.unit_scale(), 1_000_000_000_000);
    assert_eq!(SizeUnit::Kibibytes.unit_scale(), 1024);
    assert_eq!(SizeUnit::Mebibytes.unit_scale(), 1_048_576);
    assert_eq!(SizeUnit::Gibibytes.unit_scale(), 1_073_741_824);
    assert_eq!(SizeUnit::Tebibytes.unit_scale(), 1_099_511_627_776);
}

#[test]
fn encode_layout_is_exact() {
    let mut store = CacheStore::new();
    store.insert_record(
        String::from("ab"),
        CacheEntry {
            size: 0x0102030405060708,
            inode: 0x1112131415161718,
            device_id: 0x2122232425262728,
            size_unit: SizeUnit::Kibibytes,
        },
    );
    let (bytes, skipped) = save_cache(&store);
    assert_eq!(skipped, 0);
    let mut expected: Vec<u8> = Vec::new();
    expected.extend_from_slice(&2u16.to_le_bytes());
    expected.extend_from_slice(b"ab");
    expected.extend_from_slice(&0x1112131415161718u64.to_le_bytes());
    expected.extend_from_slice(&[0, 0]);
    expected.extend_from_slice(&0x0102030405060708u64.to_le_bytes());
    expected.extend_from_slice(&0x0101u16.to_le_bytes());
    expected.extend_from_slice(&0x2122232425262728u64.to_le_bytes());
    assert_eq!(bytes, expected);
}

#[test]
fn cache_round_trip_bit_for_bit() {
    let mut store = CacheStore::new();
    store.insert_record(
        String::from("k1"),
        CacheEntry { size: 350, inode: 7, device_id: 11, size_unit: SizeUnit::Bytes },
    );
    store.insert_record(
        String::from("clé-é"),
        CacheEntry { size: 9, inode: 8, device_id: 12, size_unit: SizeUnit::Gibibytes },
    );
    store.insert_record(
        String::from("k3"),
        CacheEntry { size: u64::MAX, inode: 0, device_id: 0, size_unit: SizeUnit::Terabytes },
    );
    let (bytes, skipped) = save_cache(&store);
    assert_eq!(skipped, 0);
    let (loaded, corrupted) = load_cache(&bytes);
    assert_eq!(corrupted, 0);
    assert_eq!(loaded.len(), 3);
    let e = loaded.get(&String::from("clé-é")).unwrap();
    assert_eq!(e.size, 9);
    assert_eq!(e.inode, 8);
    assert_eq!(e.device_id, 12);
    assert_eq!(e.size_unit, SizeUnit::Gibibytes);
    let (bytes2, skipped2) = save_cache(&loaded);
    assert_eq!(skipped2, 0);
    assert_eq!(bytes2, bytes);
}

#[test]
fn empty_cache_file_is_not_corruption() {
    let (store, corrupted) = load_cache(&[]);
    assert_eq!(store.len(), 0);
    assert_eq!(corrupted, 0);
}

#[test]
fn oversized_cache_file_is_unusable_not_corrupt() {
    let data = vec![0u8; 100 * 1024 * 1024 + 1];
    let (store, corrupted) = load_cache(&data);
    assert_eq!(store.len(), 0);
    assert_eq!(corrupted, 0);
}

#[test]
fn key_length_over_ceiling_is_one_corruption() {
    let mut data: Vec<u8> = Vec::new();
    data.extend_from_slice(&9000u16.to_le_bytes());
    data.extend_from_slice(&[0x61; 64]);
    let (store, corrupted) = load_cache(&data);
    assert_eq!(store.len(), 0);
    assert_eq!(corrupted, 1);
}

#[test]
fn zero_key_length_is_one_corruption() {
    let data = 0u16.to_le_bytes().to_vec();
    let (store, corrupted) = load_cache(&data);
    assert_eq!(store.len(), 0);
    assert_eq!(corrupted, 1);
}

#[test]
fn truncation_mid_record_keeps_intact_records() {
    let mut store = CacheStore::new();
    store.insert_record(
        String::from("first"),
        CacheEntry { size: 1, inode: 1, device_id: 1, size_unit: SizeUnit::Bytes },
    );
    store.insert_record(
        String::from("second"),
        CacheEntry { size: 2, inode: 2, device_id: 2, size_unit: SizeUnit::Bytes },
    );
    let (bytes, _) = save_cache(&store);
    let first_len = 2 + 5 + 28;
    // cut in the middle of the second record
    let cut = first_len + 10;
    let (loaded, corrupted) = decode_cache(&bytes[..cut]);
    assert_eq!(corrupted, 1);
    assert_eq!(loaded.len(), 1);
    let e = loaded.get(&String::from("first")).unwrap();
    assert_eq!(e.size, 1);
    assert!(loaded.get(&String::from("second")).is_none());
}

#[test]
fn invalid_utf8_key_aborts_with_one_corruption() {
    let mut data: Vec<u8> = Vec::new();
    data.extend_from_slice(&2u16.to_le_bytes());
    data.extend_from_slice(&[0xff, 0xfe]);
    // a full record tail so only the key text is at fault
    data.extend_from_slice(&[0u8; 28]);
    // and a trailing well-formed record that must not be resynchronised
    data.extend_from_slice(&2u16.to_le_bytes());
    data.extend_from_slice(b"ok");
    data.extend_from_slice(&[0u8; 28]);
    let (store, corrupted) = decode_cache(&data);
    assert_eq!(corrupted, 1);
    assert_eq!(store.len(), 0);
}

#[test]
fn unknown_unit_tag_falls_back_to_bytes() {
    let mut data: Vec<u8> = Vec::new();
    data.extend_from_slice(&1u16.to_le_bytes());
    data.push(b'k');
    data.extend_from_slice(&5u64.to_le_bytes());
    data.extend_from_slice(&[0, 0]);
    data.extend_from_slice(&77u64.to_le_bytes());
    data.extend_from_slice(&0x0007u16.to_le_bytes());
    data.extend_from_slice(&6u64.to_le_bytes());
    let (store, corrupted) = decode_cache(&data);
    assert_eq!(corrupted, 0);
    let e = store.get(&String::from("k")).unwrap();
    assert_eq!(e.size_unit, SizeUnit::Bytes);
    assert_eq!(e.size, 77);
    assert_eq!(e.inode, 5);
    assert_eq!(e.device_id, 6);
}

#[test]
fn single_stray_byte_is_a_clean_stop() {
    let data = vec![7u8];
    let (store, corrupted) = decode_cache(&data);
    assert_eq!(store.len(), 0);
    assert_eq!(corrupted, 0);
}

#[test]
fn save_skips_keys_too_long_for_the_length_field() {
    let mut store = CacheStore::new();
    let long_key: String = "a".repeat(70000);
    store.insert_record(
        long_key,
        CacheEntry { size: 1, inode: 1, device_id: 1, size_unit: SizeUnit::Bytes },
    );
    store.insert_record(
        String::from("short"),
        CacheEntry { size: 2, inode: 2, device_id: 2, size_unit: SizeUnit::Bytes },
    );
    let (bytes, skipped) = save_cache(&store);
    assert_eq!(skipped, 1);
    let (loaded, corrupted) = load_cache(&bytes);
    assert_eq!(corrupted, 0);
    assert_eq!(loaded.len(), 1);
    assert!(loaded.get(&String::from("short")).is_some());
}

#[test]
fn duplicate_keys_in_stream_overwrite_in_order() {
    let mut data: Vec<u8> = Vec::new();
    for size in [10u64, 20u64] {
        data.extend_from_slice(&1u16.to_le_bytes());
        data.push(b'd');
        data.extend_from_slice(&1u64.to_le_bytes());
        data.extend_from_slice(&[0, 0]);
        data.extend_from_slice(&size.to_le_bytes());
        data.extend_from_slice(&0x0001u16.to_le_bytes());
        data.extend_from_slice(&3u64.to_le_bytes());
    }
    let (store, corrupted) = decode_cache(&data);
    assert_eq!(corrupted, 0);
    assert_eq!(store.len(), 1);
    assert_eq!(store.get(&String::from("d")).unwrap().size, 20);
}
