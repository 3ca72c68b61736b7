use unchained_utils::files::FilesError;
use unchained_utils::parse::{BlockRange, ParseError, UnchainedFile};
use unchained_utils::structure::{Header, StructureError};

fn chunk_bytes(entries: &[(Vec<u8>, u32, u32)], apps: &[(u32, u32)]) -> Vec<u8> {
    let mut d: Vec<u8> = vec![0xef, 0xbe, 0xad, 0xde];
    d.extend([0u8; 32]);
    d.extend((entries.len() as u32).to_le_bytes());
    d.extend((apps.len() as u32).to_le_bytes());
    for (addr, off, cnt) in entries {
        assert_eq!(addr.len(), 20);
        d.extend(addr.iter());
        d.extend(off.to_le_bytes());
        d.extend(cnt.to_le_bytes());
    }
    for (b, i) in apps {
        d.extend(b.to_le_bytes());
        d.extend(i.to_le_bytes());
    }
    d
}

fn addr20(first: u8) -> Vec<u8> {
    let mut a = vec![first];
    a.extend([0u8; 19]);
    a
}

#[test]
fn scenario_one_address_range_filtered() {
    // Chunk named with present range [0, 500000], one address entry with
    // offset 0 and count 2, appearances (100, 5) and (200, 7).
    let data = chunk_bytes(&[(addr20(0x4e), 0, 2)], &[(100, 5), (200, 7)]);
    let desired = BlockRange::new(50, 150).unwrap();
    let mut file =
        UnchainedFile::new("000000000-000500000.bin".to_string(), data, desired).unwrap();
    assert!(file.contains_unwanted_blocks);
    file.with_parsed("").unwrap();
    assert_eq!(file.parsed.len(), 1);
    assert_eq!(file.parsed[0].address, addr20(0x4e));
    assert_eq!(file.parsed[0].appearances.len(), 1);
    assert_eq!(file.parsed[0].appearances[0].block, 100);
    assert_eq!(file.parsed[0].appearances[0].index, 5);
}

#[test]
fn empty_prefix_returns_every_address_in_order() {
    let data = chunk_bytes(
        &[(addr20(0x11), 0, 1), (addr20(0x4e), 1, 2), (addr20(0xbe), 3, 1)],
        &[(10, 0), (20, 1), (30, 2), (40, 3)],
    );
    let desired = BlockRange::new(0, 100).unwrap();
    let mut file =
        UnchainedFile::new("000000000-000000050.bin".to_string(), data, desired).unwrap();
    assert!(!file.contains_unwanted_blocks);
    file.with_parsed("").unwrap();
    assert_eq!(file.parsed.len(), 3);
    assert_eq!(file.parsed[0].address, addr20(0x11));
    assert_eq!(file.parsed[1].address, addr20(0x4e));
    assert_eq!(file.parsed[2].address, addr20(0xbe));
    assert_eq!(file.parsed[1].appearances.len(), 2);
    assert_eq!(file.parsed[1].appearances[0].block, 20);
    assert_eq!(file.parsed[1].appearances[1].block, 30);
}

#[test]
fn prefix_scan_is_subset_of_unfiltered_scan() {
    let entries = vec![(addr20(0x11), 0, 1), (addr20(0x4e), 1, 2), (addr20(0xbe), 3, 1)];
    let apps = vec![(10, 0), (20, 1), (30, 2), (40, 3)];
    let desired = BlockRange::new(0, 100).unwrap();
    let mut all =
        UnchainedFile::new("000000000-000000050.bin".to_string(), chunk_bytes(&entries, &apps), desired)
            .unwrap();
    all.with_parsed("").unwrap();
    let mut filtered =
        UnchainedFile::new("000000000-000000050.bin".to_string(), chunk_bytes(&entries, &apps), desired)
            .unwrap();
    filtered.with_parsed("4e").unwrap();
    let expected: Vec<_> =
        all.parsed.iter().filter(|ad| ad.address.starts_with(&[0x4e])).cloned().collect();
    assert_eq!(filtered.parsed, expected);
    assert_eq!(filtered.parsed.len(), 1);
    assert_eq!(filtered.parsed[0].address, addr20(0x4e));
}

#[test]
fn present_inside_desired_keeps_every_appearance() {
    // Present range [100, 200] is a subset of the desired range [0, 1000]:
    // filtering is a no-op and every appearance is kept.
    let entries = vec![(addr20(0xaa), 0, 3)];
    let apps = vec![(100, 1), (150, 2), (200, 3)];
    let desired = BlockRange::new(0, 1000).unwrap();
    let mut wide =
        UnchainedFile::new("000000100-000000200.bin".to_string(), chunk_bytes(&entries, &apps), desired)
            .unwrap();
    assert!(!wide.contains_unwanted_blocks);
    wide.with_parsed("").unwrap();
    // The same chunk scanned with a desired range it only overlaps keeps the
    // appearances the narrow range allows.
    let narrow = BlockRange::new(0, 150).unwrap();
    let mut cut =
        UnchainedFile::new("000000100-000000200.bin".to_string(), chunk_bytes(&entries, &apps), narrow)
            .unwrap();
    assert!(cut.contains_unwanted_blocks);
    cut.with_parsed("").unwrap();
    assert_eq!(wide.parsed[0].appearances.len(), 3);
    assert_eq!(cut.parsed[0].appearances.len(), 2);
    for ad in &cut.parsed {
        for app in &ad.appearances {
            assert!(narrow.old <= app.block && app.block <= narrow.new);
        }
    }
}

#[test]
fn address_with_no_appearance_in_desired_is_dropped() {
    let entries = vec![(addr20(0x11), 0, 1), (addr20(0x22), 1, 1)];
    let apps = vec![(100, 0), (400, 0)];
    let desired = BlockRange::new(50, 150).unwrap();
    let mut file =
        UnchainedFile::new("000000000-000000500.bin".to_string(), chunk_bytes(&entries, &apps), desired)
            .unwrap();
    file.with_parsed("").unwrap();
    assert_eq!(file.parsed.len(), 1);
    assert_eq!(file.parsed[0].address, addr20(0x11));
}

#[test]
fn bad_magic_reports_found_and_expected() {
    let mut data = chunk_bytes(&[], &[]);
    data[0] = 0x00;
    data[1] = 0x01;
    data[2] = 0x02;
    data[3] = 0x03;
    let r = Header::from_reader(&data, "000000000-000000001.bin");
    match r {
        Err(StructureError::InvalidMagicBytes { path, found, expected }) => {
            assert_eq!(path, "000000000-000000001.bin");
            assert_eq!(found, "00010203");
            assert_eq!(expected, "efbeadde");
        }
        _ => panic!("expected an invalid magic bytes error"),
    }
}

#[test]
fn truncated_header_names_the_missing_field() {
    let full = chunk_bytes(&[], &[]);
    assert!(matches!(
        Header::from_reader(&full[..2].to_vec(), "f"),
        Err(StructureError::NoMagicBytes { .. })
    ));
    assert!(matches!(
        Header::from_reader(&full[..20].to_vec(), "f"),
        Err(StructureError::NoVersion { .. })
    ));
    assert!(matches!(
        Header::from_reader(&full[..38].to_vec(), "f"),
        Err(StructureError::InvalidNumAddresses)
    ));
    assert!(matches!(
        Header::from_reader(&full[..42].to_vec(), "f"),
        Err(StructureError::InvalidNumAppearances)
    ));
    assert!(Header::from_reader(&full, "f").is_ok());
}

#[test]
fn appearance_outside_present_range_is_fatal() {
    // The appearance at block 600000 contradicts the file name's declared
    // range [0, 500000]; the desired range would otherwise keep it.
    let entries = vec![(addr20(0x4e), 0, 1)];
    let apps = vec![(600000, 1)];
    let desired = BlockRange::new(0, 700000).unwrap();
    let mut file =
        UnchainedFile::new("000000000-000500000.bin".to_string(), chunk_bytes(&entries, &apps), desired)
            .unwrap();
    let r = file.with_parsed("");
    match r {
        Err(ParseError::FilesError(FilesError::AppearanceOutOfRange {
            path,
            oldest,
            newest,
            block,
            index,
        })) => {
            assert_eq!(path, "000000000-000500000.bin");
            assert_eq!(oldest, 0);
            assert_eq!(newest, 500000);
            assert_eq!(block, 600000);
            assert_eq!(index, 1);
        }
        _ => panic!("expected an appearance out of range error"),
    }
    // A failed scan leaves the previous records untouched.
    assert_eq!(file.parsed.len(), 1);
}

#[test]
fn truncated_appearance_table_is_fatal() {
    // The entry claims two appearances but the file holds only one.
    let entries = vec![(addr20(0x4e), 0, 2)];
    let apps = vec![(100, 1)];
    let desired = BlockRange::new(0, 700000).unwrap();
    let mut file =
        UnchainedFile::new("000000000-000500000.bin".to_string(), chunk_bytes(&entries, &apps), desired)
            .unwrap();
    let r = file.with_parsed("");
    assert!(matches!(
        r,
        Err(ParseError::StructureError(StructureError::InvalidTransactionBlock))
    ));
}

#[test]
fn truncated_address_table_is_fatal() {
    let mut data = chunk_bytes(&[(addr20(0x4e), 0, 0)], &[]);
    // Claim two address entries while the table holds one.
    data[36] = 2;
    let desired = BlockRange::new(0, 700000).unwrap();
    let mut file = UnchainedFile::new("000000000-000500000.bin".to_string(), data, desired).unwrap();
    let r = file.with_parsed("");
    assert!(matches!(r, Err(ParseError::StructureError(StructureError::InvalidAddress))));
}

#[test]
fn invalid_hex_prefix_is_rejected() {
    let data = chunk_bytes(&[(addr20(0x4e), 0, 1)], &[(100, 1)]);
    let desired = BlockRange::new(0, 700000).unwrap();
    let mut file = UnchainedFile::new("000000000-000500000.bin".to_string(), data, desired).unwrap();
    let r = file.with_parsed("zz");
    match r {
        Err(ParseError::FromHexError { input }) => assert_eq!(input, "zz"),
        _ => panic!("expected a hex decoding error"),
    }
    let mut file2 = UnchainedFile::new(
        "000000000-000500000.bin".to_string(),
        chunk_bytes(&[(addr20(0x4e), 0, 1)], &[(100, 1)]),
        desired,
    )
    .unwrap();
    assert!(file2.with_parsed("4").is_err());
}

#[test]
fn disjoint_desired_range_fails_at_open() {
    let data = chunk_bytes(&[], &[]);
    let desired = BlockRange::new(600000, 700000).unwrap();
    let r = UnchainedFile::new("000000000-000500000.bin".to_string(), data, desired);
    match r {
        Err(ParseError::AppearancesOutOfRange {
            present_old,
            present_new,
            desired_old,
            desired_new,
        }) => {
            assert_eq!(present_old, 0);
            assert_eq!(present_new, 500000);
            assert_eq!(desired_old, 600000);
            assert_eq!(desired_new, 700000);
        }
        _ => panic!("expected an appearances out of range error"),
    }
}

#[test]
fn file_name_without_range_fails_at_open() {
    let data = chunk_bytes(&[], &[]);
    let desired = BlockRange::new(0, 100).unwrap();
    let r = UnchainedFile::new("chunk.bin".to_string(), data, desired);
    assert!(matches!(
        r,
        Err(ParseError::FilesError(FilesError::InvalidFilenameRange { .. }))
    ));
}
