use unchained_utils::appearances::{
    AppearanceData, AppearanceSource, AppearancesResponse, ResponseError,
};
use unchained_utils::block::{AddressesInBlockResponse as BlockResponse, BlockResponseError};
use unchained_utils::cli::RangeParam;
use unchained_utils::generator::AddressesInBlockResponse as GeneratorResponse;
use unchained_utils::structure::{AddressData, TransactionId};
use unchained_utils::utils::unchained_index_to_location;

fn addr20(first: u8) -> Vec<u8> {
    let mut a = vec![first];
    a.extend([0u8; 19]);
    a
}

#[test]
fn location_maps_sentinels_and_ordinary_indices() {
    assert_eq!(unchained_index_to_location(99999).unwrap(), "miner");
    assert_eq!(unchained_index_to_location(99998).unwrap(), "uncle");
    assert!(unchained_index_to_location(99997).is_none());
    assert!(unchained_index_to_location(99996).is_none());
    assert_eq!(unchained_index_to_location(0).unwrap(), "0x0");
    assert_eq!(unchained_index_to_location(255).unwrap(), "0xff");
    assert_eq!(unchained_index_to_location(4660).unwrap(), "0x1234");
}

fn sample_source() -> AppearanceSource {
    AppearanceSource {
        data: vec![
            AppearanceData {
                address: "0xaaaa".to_string(),
                block_number: 100,
                transaction_index: 1,
            },
            AppearanceData {
                address: "0xbbbb".to_string(),
                block_number: 150,
                transaction_index: 99999,
            },
            AppearanceData {
                address: "0xaaaa".to_string(),
                block_number: 200,
                transaction_index: 99997,
            },
            AppearanceData {
                address: "0xaaaa".to_string(),
                block_number: 300,
                transaction_index: 16,
            },
        ],
    }
}

#[test]
fn appearances_all_range_filters_by_address_and_location() {
    let r = AppearancesResponse::create(
        sample_source(),
        "0xaaaa".to_string(),
        RangeParam::All,
        None,
        None,
    )
    .unwrap();
    assert_eq!(r.id, 1);
    assert_eq!(r.jsonrpc, "2.0");
    // The entry at block 200 has an ignorable transaction index and is dropped.
    assert_eq!(r.result.len(), 2);
    assert_eq!(r.result[0].block_number, "0x64");
    assert_eq!(r.result[0].location, "0x1");
    assert_eq!(r.result[1].block_number, "0x12c");
    assert_eq!(r.result[1].location, "0x10");
}

#[test]
fn appearances_single_range_keeps_one_block() {
    let r = AppearancesResponse::create(
        sample_source(),
        "0xaaaa".to_string(),
        RangeParam::Single,
        Some(300),
        None,
    )
    .unwrap();
    assert_eq!(r.result.len(), 1);
    assert_eq!(r.result[0].block_number, "0x12c");
}

#[test]
fn appearances_custom_range_keeps_the_window() {
    let r = AppearancesResponse::create(
        sample_source(),
        "0xaaaa".to_string(),
        RangeParam::Custom,
        Some(100),
        Some(250),
    )
    .unwrap();
    assert_eq!(r.result.len(), 1);
    assert_eq!(r.result[0].block_number, "0x64");
}

#[test]
fn appearances_missing_start_block_is_rejected() {
    let r = AppearancesResponse::create(
        sample_source(),
        "0xaaaa".to_string(),
        RangeParam::Single,
        None,
        None,
    );
    assert!(matches!(r, Err(ResponseError::MissingStartBlock)));
    let r2 = AppearancesResponse::create(
        sample_source(),
        "0xaaaa".to_string(),
        RangeParam::Custom,
        None,
        Some(5),
    );
    assert!(matches!(r2, Err(ResponseError::MissingStartBlock)));
}

#[test]
fn appearances_missing_end_block_is_rejected() {
    let r = AppearancesResponse::create(
        sample_source(),
        "0xaaaa".to_string(),
        RangeParam::Custom,
        Some(5),
        None,
    );
    assert!(matches!(r, Err(ResponseError::MissingEndBlock)));
}

#[test]
fn appearances_reversed_custom_range_is_rejected() {
    let r = AppearancesResponse::create(
        sample_source(),
        "0xaaaa".to_string(),
        RangeParam::Custom,
        Some(9),
        Some(3),
    );
    assert!(matches!(r, Err(ResponseError::RangeStartAfterEnd { start: 9, end: 3 })));
}

#[test]
fn generator_encodes_addresses_and_keeps_indices() {
    let data = vec![
        AddressData {
            address: addr20(0x4e),
            appearances: vec![
                TransactionId { block: 1, index: 7 },
                TransactionId { block: 2, index: 9 },
            ],
        },
        AddressData { address: addr20(0xbe), appearances: vec![] },
    ];
    let r = GeneratorResponse::create(data);
    assert_eq!(r.id, 1);
    assert_eq!(r.jsonrpc, "2.0");
    assert_eq!(r.result.len(), 2);
    assert_eq!(r.result[0].address, "4e00000000000000000000000000000000000000");
    assert_eq!(r.result[0].transaction_indices, vec![7, 9]);
    assert_eq!(r.result[1].address, "be00000000000000000000000000000000000000");
    assert!(r.result[1].transaction_indices.is_empty());
}

#[test]
fn block_response_sorts_addresses_and_maps_locations() {
    let data = vec![
        AddressData {
            address: addr20(0xbe),
            appearances: vec![TransactionId { block: 105, index: 2 }],
        },
        AddressData {
            address: addr20(0x4e),
            appearances: vec![
                TransactionId { block: 105, index: 99999 },
                TransactionId { block: 105, index: 99997 },
                TransactionId { block: 105, index: 3 },
            ],
        },
    ];
    let r = BlockResponse::create(data, 105).unwrap();
    assert_eq!(r.id, 1);
    assert_eq!(r.jsonrpc, "2.0");
    assert_eq!(r.result.block_number, "0x69");
    let a = &r.result.addresses;
    assert_eq!(a.len(), 2);
    assert_eq!(a[0].address, "0x4e00000000000000000000000000000000000000");
    assert_eq!(a[0].locations, vec!["miner".to_string(), "0x3".to_string()]);
    assert_eq!(a[1].address, "0xbe00000000000000000000000000000000000000");
    assert_eq!(a[1].locations, vec!["0x2".to_string()]);
}

#[test]
fn block_response_genesis_is_unsupported() {
    let r = BlockResponse::create(vec![], 0);
    assert!(matches!(r, Err(BlockResponseError::UnsupportedGenesisBlock)));
}

#[test]
fn block_response_unknown_post_merge_block_is_unsupported() {
    let r = BlockResponse::create(vec![], 16000000);
    assert!(matches!(
        r,
        Err(BlockResponseError::UnsupportedPostMergeBlock { block: 16000000 })
    ));
}

#[test]
fn block_response_known_withdrawal_block_adds_the_record() {
    let data = vec![AddressData {
        address: addr20(0xee),
        appearances: vec![TransactionId { block: 17190873, index: 4 }],
    }];
    let r = BlockResponse::create(data, 17190873).unwrap();
    let a = &r.result.addresses;
    assert_eq!(a.len(), 2);
    // The manual withdrawal record sorts before the 0xee address.
    assert_eq!(a[0].address, "0x1cedc0f3af8f9841b0a1f5c1a4ddc6e1a1629074");
    assert_eq!(a[0].locations, vec!["withdrawals".to_string()]);
    assert_eq!(a[1].address, "0xee00000000000000000000000000000000000000");
}
