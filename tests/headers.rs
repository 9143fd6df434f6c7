use bitcoin_spv::block_header::BlockHeader;
use bitcoin_spv::chain::HeaderChain;
use bitcoin_spv::error::CustomError;
use bitcoin_spv::headers::Headers;

fn block_one() -> Vec<u8> {
    vec![
        1, 0, 0, 0, 5, 159, 141, 74, 195, 4, 19, 253, 127, 1, 148, 149, 222, 143, 237, 24, 27,
        124, 186, 34, 123, 241, 216, 166, 203, 239, 86, 108, 0, 0, 0, 0, 233, 233, 109, 115,
        249, 241, 6, 200, 176, 73, 10, 24, 28, 209, 102, 159, 255, 179, 239, 72, 185, 225, 10,
        14, 219, 74, 174, 208, 207, 59, 18, 12, 170, 7, 195, 79, 255, 255, 0, 29, 14, 171, 58,
        61,
    ]
}

fn pow_header(nonce: u32) -> BlockHeader {
    BlockHeader {
        version: 2,
        prev_block_hash: vec![
            61, 8, 52, 163, 234, 98, 255, 92, 186, 170, 164, 90, 56, 131, 46, 171, 52, 239, 104,
            223, 166, 65, 183, 217, 36, 6, 53, 63, 0, 0, 0, 0,
        ],
        merkle_root: vec![
            45, 107, 6, 225, 181, 124, 4, 88, 86, 174, 58, 59, 113, 215, 174, 42, 209, 149, 142,
            110, 166, 53, 244, 88, 6, 76, 228, 77, 7, 10, 189, 126,
        ],
        timestamp: 1347149007,
        bits: 476726600,
        nonce,
    }
}

#[test]
fn header_serialize_and_parse() {
    let buffer = block_one();
    let buffer_clone = buffer.clone();

    let block_header = BlockHeader::parse(buffer, true).unwrap();
    let serialized_block_header = block_header.serialize();

    assert_eq!(buffer_clone, serialized_block_header);
}

#[test]
fn headers_invalid_buffer() {
    let buffer = vec![
        1, 0, 0, 0, 5, 159, 141, 74, 195, 4, 19, 253, 127, 1, 148, 149, 222, 143, 237, 24, 27,
        124, 186, 34, 123, 241, 216, 166, 203, 239, 86, 108, 0, 0, 0, 0, 233, 233, 109, 115,
        249, 241, 6, 200, 176, 73, 10, 24, 28, 209, 102, 159, 255, 179, 239, 72, 185, 225, 10,
        14, 219,
    ];

    let block_header = BlockHeader::parse(buffer, true);

    assert!(block_header.is_err());
}

#[test]
fn valid_pow_header() {
    let valid_header = pow_header(240236131);
    assert!(valid_header.validate());
}

#[test]
fn invalid_pow_header() {
    let valid_header = pow_header(123123);
    assert!(!valid_header.validate());
}

#[test]
fn parse_and_serialize_headers() {
    let buffer = vec![
        1, 0, 0, 128, 32, 169, 255, 173, 21, 40, 44, 123, 115, 129, 193, 143, 57, 71, 116, 199,
        75, 244, 113, 169, 45, 227, 42, 180, 111, 0, 0, 0, 0, 0, 0, 0, 0, 109, 105, 250, 106, 92,
        126, 17, 171, 97, 243, 124, 194, 172, 252, 249, 166, 202, 8, 231, 136, 21, 107, 106,
        136, 64, 241, 195, 82, 179, 236, 159, 63, 155, 22, 96, 100, 105, 90, 32, 25, 11, 42, 241,
        166, 0,
    ];

    let buffer_clone = buffer.clone();

    let headers = Headers::parse(buffer).unwrap();
    let serialized_headers = headers.serialize();

    assert_eq!(buffer_clone, serialized_headers);
}

#[test]
fn invalid_header() {
    let buffer = vec![
        1, 0, 0, 128, 32, 169, 255, 173, 21, 40, 44, 123, 115, 129, 193, 143, 57, 71, 116, 199,
        75, 244, 113, 169, 45, 227, 42, 180, 111, 0, 0, 0, 0, 0, 0, 0, 0, 109, 105, 250, 106, 92,
        126, 17, 171, 9,
    ];

    let headers = Headers::parse(buffer);

    assert!(headers.is_err());
}

#[test]
fn short_header_is_invalid_buffer() {
    let mut buffer = block_one();
    buffer.truncate(60);
    assert!(matches!(
        BlockHeader::parse(buffer, false),
        Err(CustomError::SerializedBufferIsInvalid)
    ));
}

#[test]
fn header_parse_without_validation_keeps_fields() {
    let h = BlockHeader::parse(block_one(), false).unwrap();
    assert_eq!(h.version, 1);
    assert_eq!(h.timestamp, 1338181546);
    assert_eq!(h.bits, 0x1d00ffff);
    assert_eq!(h.nonce, 1027255054);
    assert_eq!(h.prev_block_hash.len(), 32);
}

#[test]
fn invalid_pow_is_reported_by_parse() {
    let bytes = pow_header(123123).serialize();
    assert!(matches!(BlockHeader::parse(bytes.clone(), true), Err(CustomError::HeaderInvalidPoW)));
    assert!(BlockHeader::parse(bytes, false).is_ok());
}

#[test]
fn header_hash_meets_its_target() {
    let h = BlockHeader::parse(block_one(), true).unwrap();
    let id = h.hash();
    assert_eq!(id.len(), 32);
    assert_eq!(id[29..].to_vec(), vec![0, 0, 0]);
    assert_ne!(id, h.serialize()[..32].to_vec());
}

#[test]
fn hash_at_target_is_rejected() {
    // exponent 3: the three low bytes compared against the mantissa 0x010203
    let bits: u32 = 0x0301_0203;
    let mut equal = vec![0u8; 32];
    equal[0] = 3;
    equal[1] = 2;
    equal[2] = 1;
    assert!(!bitcoin_spv::block_header::hash_meets_target(&equal, bits));
    let mut below = equal.clone();
    below[0] = 2;
    assert!(bitcoin_spv::block_header::hash_meets_target(&below, bits));
    let mut high = below.clone();
    high[5] = 1;
    assert!(!bitcoin_spv::block_header::hash_meets_target(&high, bits));
    assert!(!bitcoin_spv::block_header::hash_meets_target(&below, 0x2101_0203));
    assert!(!bitcoin_spv::block_header::hash_meets_target(&below, 0x0201_0203));
}

#[test]
fn headers_payload_wrong_tail_length() {
    let mut buffer = vec![1u8];
    buffer.extend(block_one());
    assert!(matches!(Headers::parse(buffer.clone()), Err(CustomError::SerializedBufferIsInvalid)));
    buffer.push(0);
    let page = Headers::parse(buffer.clone()).unwrap();
    assert_eq!(page.headers.len(), 1);
    assert_eq!(page.serialize(), buffer);
}

#[test]
fn headers_payload_with_bad_pow() {
    let mut buffer = vec![1u8];
    buffer.extend(pow_header(123123).serialize());
    buffer.push(0);
    assert!(matches!(Headers::parse(buffer), Err(CustomError::HeaderInvalidPoW)));
}

#[test]
fn empty_payload_is_invalid() {
    assert!(matches!(Headers::parse(vec![]), Err(CustomError::SerializedBufferIsInvalid)));
    let page = Headers::parse(vec![0]).unwrap();
    assert!(page.headers.is_empty());
    assert_eq!(Headers::new().serialize(), vec![0]);
}

#[test]
fn headers_file_round_trip() {
    let mut file = block_one();
    file.extend(pow_header(5).serialize());
    let parsed = Headers::parse_headers(file.clone()).unwrap();
    assert_eq!(parsed.len(), 2);
    assert_eq!(parsed[1].nonce, 5);
    let page = Headers { headers: parsed };
    assert_eq!(page.serialize_headers(), file);
    file.push(7);
    assert!(matches!(Headers::parse_headers(file), Err(CustomError::SerializedBufferIsInvalid)));
}

#[test]
fn get_command_is_headers() {
    assert_eq!(Headers::new().get_command(), "headers");
}

#[test]
fn chain_appends_linked_pages_only() {
    let mut chain = HeaderChain::new();
    let first = BlockHeader::parse(block_one(), true).unwrap();
    let first_hash = first.hash();
    assert!(chain.append_headers(Headers { headers: vec![first] }).is_ok());
    assert_eq!(chain.len(), 1);
    assert_eq!(chain.tip_hash(), Some(first_hash));

    let again = BlockHeader::parse(block_one(), true).unwrap();
    assert!(matches!(
        chain.append_headers(Headers { headers: vec![again] }),
        Err(CustomError::HeaderChainBroken)
    ));
    assert_eq!(chain.len(), 1);
}

#[test]
fn chain_rejects_page_failing_pow() {
    let mut chain = HeaderChain::new();
    assert!(matches!(
        chain.append_headers(Headers { headers: vec![pow_header(123123)] }),
        Err(CustomError::HeaderInvalidPoW)
    ));
    assert_eq!(chain.len(), 0);
    assert_eq!(chain.tip_hash(), None);
}

#[test]
fn chain_of_two_linked_headers() {
    let first = BlockHeader::parse(block_one(), true).unwrap();
    let mut second = BlockHeader {
        version: 1,
        prev_block_hash: first.hash(),
        merkle_root: vec![9; 32],
        timestamp: 1231470000,
        bits: 0x20ff_ffff,
        nonce: 0,
    };
    while !second.validate() {
        second.nonce += 1;
    }
    let second_hash = second.hash();
    let mut chain = HeaderChain::new();
    assert!(chain.append_headers(Headers { headers: vec![first, second] }).is_ok());
    assert_eq!(chain.len(), 2);
    assert_eq!(chain.tip_hash(), Some(second_hash));
}
