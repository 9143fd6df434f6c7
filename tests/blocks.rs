use bitcoin_spv::block_header::BlockHeader;
use bitcoin_spv::error::CustomError;
use bitcoin_spv::block::{merkle_root, Block};
use bitcoin_spv::inventory::{parse_inventories, serialize_inventories, Inventory, InventoryType};
use bitcoin_spv::peer::{block_step, notfound_action, NodeAction};
use bitcoin_spv::transaction::transaction_end;
use bitcoin_spv::wallet::Wallet;

fn dsha(b: &[u8]) -> Vec<u8> {
    let h = <bitcoin_hashes::sha256d::Hash as bitcoin_hashes::Hash>::hash(b);
    bitcoin_hashes::Hash::to_byte_array(h).to_vec()
}

fn header_with_root(root: Vec<u8>) -> BlockHeader {
    BlockHeader {
        version: 1,
        prev_block_hash: vec![0; 32],
        merkle_root: root,
        timestamp: 0,
        bits: 0x1d00ffff,
        nonce: 0,
    }
}

#[test]
fn merkle_root_pairs_and_duplicates() {
    let a = dsha(b"a");
    let b = dsha(b"b");
    let c = dsha(b"c");
    assert_eq!(merkle_root(vec![a.clone()]), a);
    let ab = dsha(&[a.clone(), b.clone()].concat());
    assert_eq!(merkle_root(vec![a.clone(), b.clone()]), ab);
    let cc = dsha(&[c.clone(), c.clone()].concat());
    let root3 = dsha(&[ab.clone(), cc].concat());
    assert_eq!(merkle_root(vec![a, b, c]), root3);
}

#[test]
fn untampered_block_is_accepted() {
    let txs = vec![b"coinbase".to_vec(), b"spend".to_vec()];
    let root = dsha(&[dsha(&txs[0]), dsha(&txs[1])].concat());
    let block = Block { header: header_with_root(root.clone()), transactions: txs };
    assert_eq!(block.create_merkle_root(), Ok(root));
}

#[test]
fn tampered_root_is_rejected() {
    let txs = vec![b"coinbase".to_vec(), b"spend".to_vec()];
    let mut root = dsha(&[dsha(&txs[0]), dsha(&txs[1])].concat());
    root[0] ^= 1;
    let block = Block { header: header_with_root(root), transactions: txs };
    assert_eq!(block.create_merkle_root(), Err(CustomError::InvalidMerkleRoot));
}

#[test]
fn block_without_transactions_is_rejected() {
    let block = Block { header: header_with_root(vec![0; 32]), transactions: vec![] };
    assert_eq!(block.create_merkle_root(), Err(CustomError::InvalidMerkleRoot));
}

#[test]
fn wallet_file_round_trip() {
    let a = Wallet::new(String::from("main"), String::from("02ab"), String::from("SECRET-REDACTED"));
    let b = Wallet::new(String::from("ñandú"), String::from(""), String::from("k"));
    let mut file = a.serialize();
    file.extend(b.serialize());
    let ws = Wallet::parse_wallets(file).unwrap();
    assert_eq!(ws.len(), 2);
    assert_eq!(ws[0].name, "main");
    assert_eq!(ws[0].privkey, "SECRET-REDACTED");
    assert_eq!(ws[1].name, "ñandú");
    assert_eq!(ws[1].pubkey, "");
    assert!(Wallet::parse_wallets(vec![]).unwrap().is_empty());
}

#[test]
fn wallet_file_errors() {
    assert_eq!(
        Wallet::parse_wallets(vec![3, 97, 98]).unwrap_err(),
        CustomError::SerializedBufferIsInvalid
    );
    assert_eq!(
        Wallet::parse_wallets(vec![1, 0xff, 0, 0]).unwrap_err(),
        CustomError::SerializedBufferIsInvalid
    );
    assert_eq!(
        Wallet::parse_wallets(vec![1, 97, 1, 98]).unwrap_err(),
        CustomError::SerializedBufferIsInvalid
    );
}

fn legacy_tx(tag: u8) -> Vec<u8> {
    let mut tx = vec![1, 0, 0, 0, 1];
    tx.extend(vec![tag; 32]);
    tx.extend([0, 0, 0, 0, 1, 0x51, 0xff, 0xff, 0xff, 0xff, 1]);
    tx.extend([0x10, 0, 0, 0, 0, 0, 0, 0, 1, 0x51]);
    tx.extend([0, 0, 0, 0]);
    tx
}

fn segwit_tx() -> Vec<u8> {
    let mut tx = vec![2, 0, 0, 0, 0, 1, 1];
    tx.extend(vec![7; 32]);
    tx.extend([1, 0, 0, 0, 0, 0xfe, 0xff, 0xff, 0xff, 1]);
    tx.extend([0x20, 0, 0, 0, 0, 0, 0, 0, 2, 0x00, 0x14]);
    tx.extend([2, 3, 1, 2, 3, 1, 9]);
    tx.extend([0, 0, 0, 0]);
    tx
}

fn block_one() -> Vec<u8> {
    vec![
        1, 0, 0, 0, 5, 159, 141, 74, 195, 4, 19, 253, 127, 1, 148, 149, 222, 143, 237, 24, 27,
        124, 186, 34, 123, 241, 216, 166, 203, 239, 86, 108, 0, 0, 0, 0, 233, 233, 109, 115,
        249, 241, 6, 200, 176, 73, 10, 24, 28, 209, 102, 159, 255, 179, 239, 72, 185, 225, 10,
        14, 219, 74, 174, 208, 207, 59, 18, 12, 170, 7, 195, 79, 255, 255, 0, 29, 14, 171, 58,
        61,
    ]
}

#[test]
fn block_parse_splits_transactions() {
    let mut payload = block_one();
    payload.push(3);
    payload.extend(legacy_tx(1));
    payload.extend(segwit_tx());
    payload.extend(legacy_tx(2));
    let block = Block::parse(payload).unwrap();
    assert_eq!(block.transactions, vec![legacy_tx(1), segwit_tx(), legacy_tx(2)]);
    assert_eq!(block.header.nonce, 1027255054);
    // the header's root is not this block's: the check fails
    assert_eq!(block.create_merkle_root(), Err(CustomError::InvalidMerkleRoot));
}

#[test]
fn block_parse_truncated() {
    let mut payload = block_one();
    payload.push(1);
    let mut tx = legacy_tx(1);
    tx.pop();
    payload.extend(tx);
    assert_eq!(Block::parse(payload).unwrap_err(), CustomError::SerializedBufferIsInvalid);
    assert_eq!(Block::parse(vec![0; 40]).unwrap_err(), CustomError::SerializedBufferIsInvalid);
}

#[test]
fn block_step_forwards_or_asks_again() {
    let txs = vec![legacy_tx(1)];
    let good = Block { header: header_with_root(dsha(&txs[0])), transactions: txs.clone() };
    let hash = good.header.hash();
    let step = block_step(good);
    assert!(!step.log_invalid);
    match step.action {
        NodeAction::Block(h, b) => {
            assert_eq!(h, hash);
            assert_eq!(b.transactions, txs);
        }
        _ => panic!("expected the block"),
    }
    let bad = Block { header: header_with_root(vec![0; 32]), transactions: txs };
    let hash = bad.header.hash();
    let step = block_step(bad);
    assert!(step.log_invalid);
    match step.action {
        NodeAction::GetDataError(inv) => {
            assert_eq!(inv.len(), 1);
            assert_eq!(inv[0].inv_type, InventoryType::Block);
            assert_eq!(inv[0].hash, hash);
        }
        _ => panic!("expected a retry"),
    }
}

#[test]
fn inventory_payloads() {
    let entries = vec![
        Inventory::new(InventoryType::Tx, vec![1; 32]),
        Inventory::new(InventoryType::WitnessBlock, vec![2; 32]),
    ];
    let bytes = serialize_inventories(&entries);
    assert_eq!(bytes.len(), 1 + 72);
    assert_eq!(&bytes[37..41], &[2, 0, 0, 0x40]);
    let parsed = parse_inventories(bytes.clone()).unwrap();
    assert_eq!(parsed.len(), 2);
    assert_eq!(parsed[1].inv_type, InventoryType::WitnessBlock);
    assert_eq!(parsed[0].hash, vec![1; 32]);
    let mut unknown = bytes.clone();
    unknown[1] = 9;
    assert!(parse_inventories(unknown).is_err());
    let mut short = bytes;
    short.pop();
    assert!(parse_inventories(short).is_err());
    match notfound_action(parsed) {
        NodeAction::GetDataError(v) => assert_eq!(v.len(), 2),
        _ => panic!("expected a retry"),
    }
}

#[test]
fn transactions_are_measured_in_place() {
    let mut bytes = vec![0xaa, 0xbb];
    bytes.extend(legacy_tx(3));
    bytes.extend(segwit_tx());
    let first_end = 2 + legacy_tx(3).len();
    assert_eq!(transaction_end(&bytes, 2), Some(first_end));
    assert_eq!(transaction_end(&bytes, first_end), Some(bytes.len()));
    assert_eq!(transaction_end(&bytes, bytes.len()), None);
    let mut bad_flag = segwit_tx();
    bad_flag[5] = 2;
    assert_eq!(transaction_end(&bad_flag, 0), None);
    let mut short_script = legacy_tx(3);
    short_script[41] = 0xfd;
    assert_eq!(transaction_end(&short_script, 0), None);
}

#[test]
fn block_count_beyond_transactions_is_invalid() {
    let mut payload = block_one();
    payload.push(2);
    payload.extend(legacy_tx(1));
    assert_eq!(Block::parse(payload.clone()).unwrap_err(), CustomError::SerializedBufferIsInvalid);
    payload[80] = 1;
    payload.extend([7, 7, 7]);
    let block = Block::parse(payload).unwrap();
    assert_eq!(block.transactions, vec![legacy_tx(1)]);
    assert_eq!(Block::parse(block_one()).unwrap_err(), CustomError::SerializedBufferIsInvalid);
}
