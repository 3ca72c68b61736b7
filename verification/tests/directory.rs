use unchained_utils::files::{file_structure, get_range, no_unexpected_appearances, ChunksDir, FilesError};
use unchained_utils::parse::BlockRange;
use unchained_utils::structure::{Header, TransactionId};
use unchained_utils::UnchainedFile;

#[test]
fn get_range_reads_the_two_block_numbers() {
    let r = get_range("mainnet/000012345-000067890.bin").unwrap();
    assert_eq!(r.old, 12345);
    assert_eq!(r.new, 67890);
}

#[test]
fn get_range_takes_the_leftmost_pattern() {
    let r = get_range("000000001-000000002_000000003-000000004.bin").unwrap();
    assert_eq!(r.old, 1);
    assert_eq!(r.new, 2);
}

#[test]
fn get_range_rejects_a_name_without_pattern() {
    for name in ["chunk.bin", "12345-67890.bin", "000012345+000067890.bin", ""] {
        match get_range(name) {
            Err(FilesError::InvalidFilenameRange { filename }) => assert_eq!(filename, name),
            _ => panic!("expected an invalid filename range error"),
        }
    }
}

#[test]
fn file_structure_places_both_tables() {
    let h = Header { n_addresses: 3, n_appearances: 5 };
    let b = file_structure(&h);
    assert_eq!(b.addresses.start, 44);
    assert_eq!(b.addresses.current, 44);
    assert_eq!(b.addresses.end, 44 + 3 * 28 - 1);
    assert_eq!(b.appearances.start, 44 + 3 * 28);
    assert_eq!(b.appearances.current, 44 + 3 * 28);
    assert_eq!(b.appearances.end, 44 + 3 * 28 + 5 * 8 - 1);
}

#[test]
fn chunks_dir_sorts_by_range_start() {
    let files = vec![
        "000500000-000999999.bin".to_string(),
        "000000000-000499999.bin".to_string(),
    ];
    let dir = ChunksDir::new("idx", &files).unwrap();
    assert_eq!(dir.dir, "idx");
    assert_eq!(dir.paths.len(), 2);
    assert_eq!(dir.paths[0].range.old, 0);
    assert_eq!(dir.paths[0].path, "000000000-000499999.bin");
    assert_eq!(dir.paths[1].range.old, 500000);
}

#[test]
fn chunks_dir_reports_the_unusable_file() {
    let files = vec![
        "000000000-000499999.bin".to_string(),
        "broken.bin".to_string(),
    ];
    match ChunksDir::new("idx", &files) {
        Err(FilesError::InvalidFilenameRange { filename }) => assert_eq!(filename, "broken.bin"),
        _ => panic!("expected an invalid filename range error"),
    }
}

#[test]
fn scenario_selects_only_the_intersecting_chunk() {
    let files = vec![
        "000000000-000499999.bin".to_string(),
        "000500000-000999999.bin".to_string(),
    ];
    let dir = ChunksDir::new("idx", &files).unwrap();
    let desired = BlockRange::new(600000, 700000).unwrap();
    let relevant = dir.for_range(&desired).unwrap();
    assert_eq!(relevant.len(), 1);
    assert_eq!(relevant[0].path, "000500000-000999999.bin");
}

#[test]
fn scenario_no_overlap_returns_empty_selection() {
    let files = vec![
        "000000000-000499999.bin".to_string(),
        "000500000-000999999.bin".to_string(),
    ];
    let dir = ChunksDir::new("idx", &files).unwrap();
    let desired = BlockRange::new(1500000, 1600000).unwrap();
    assert!(dir.for_range(&desired).is_none());
}

#[test]
fn appearance_bounds_check_follows_the_declared_range() {
    let mut data: Vec<u8> = vec![0xef, 0xbe, 0xad, 0xde];
    data.extend([0u8; 40]);
    let desired = BlockRange::new(50, 150).unwrap();
    let file = UnchainedFile::new("000000100-000000200.bin".to_string(), data, desired).unwrap();
    assert!(no_unexpected_appearances(&TransactionId { block: 150, index: 0 }, &file).is_ok());
    let r = no_unexpected_appearances(&TransactionId { block: 99, index: 7 }, &file);
    match r {
        Err(FilesError::AppearanceOutOfRange { oldest, newest, block, index, .. }) => {
            assert_eq!(oldest, 100);
            assert_eq!(newest, 200);
            assert_eq!(block, 99);
            assert_eq!(index, 7);
        }
        _ => panic!("expected an appearance out of range error"),
    }
}
