use rs_blockchain::block::TARGET_BYTES;
use rs_blockchain::transaction::Transaction;
use rs_blockchain::{Block, InvKind, Message, Wallet};

#[test]
fn tx_codec_round_trip() {
    let w = Wallet::new();
    let addr = w.get_address();
    let tx = Transaction::new_coinbase(&addr, "hello".to_string()).unwrap();
    let bytes = tx.encode();
    let (back, used) = Transaction::decode(&bytes, 0).unwrap();
    assert_eq!(used, bytes.len());
    assert_eq!(back.id, tx.id);
    assert_eq!(back.v_in.len(), tx.v_in.len());
    assert_eq!(back.v_out.len(), tx.v_out.len());
    assert_eq!(back.v_in[0].pub_key, tx.v_in[0].pub_key);
    assert_eq!(back.v_out[0].value, tx.v_out[0].value);
    assert_eq!(back.v_out[0].pub_key_hash, tx.v_out[0].pub_key_hash);
    // re-encoding reproduces the bytes exactly
    let again = back.encode();
    assert_eq!(again, bytes);
}

#[test]
fn tx_id_matches_recomputed_hash() {
    let w = Wallet::new();
    let addr = w.get_address();
    let tx = Transaction::new_coinbase(&addr, String::new()).unwrap();
    let hash = tx.hash();
    let expected = hex::encode(&hash);
    assert_eq!(tx.id, expected);
}

#[test]
fn coinbase_shape() {
    let w = Wallet::new();
    let addr = w.get_address();
    let tx = Transaction::new_coinbase(&addr, String::new()).unwrap();
    assert!(tx.is_coinbase());
    assert_eq!(tx.v_out.len(), 1);
    assert_eq!(tx.v_out[0].value, 10);
    assert_eq!(tx.v_in[0].v_out, -1);
    assert!(tx.v_in[0].tx_id.is_empty());
}

#[test]
fn block_codec_and_pow() {
    let w = Wallet::new();
    let addr = w.get_address();
    let cbtx = Transaction::new_coinbase(&addr, String::new()).unwrap();
    let block = Block::new_genesis_block(cbtx).unwrap();
    // proof of work holds: recomputed hash matches and clears the target
    assert!(block.validate());
    for i in 0..TARGET_BYTES {
        assert_eq!(block.hash[i], 0);
    }
    let recomputed = block.hash();
    assert_eq!(recomputed, block.hash);
    // codec round trip
    let bytes = block.encode();
    let (back, used) = Block::decode(&bytes, 0).unwrap();
    assert_eq!(used, bytes.len());
    assert_eq!(back.hash, block.hash);
    assert_eq!(back.nonce, block.nonce);
    assert_eq!(back.height, 0);
    assert_eq!(back.prev_block_hash, vec![0u8; 32]);
    assert!(back.validate());
}

#[test]
fn tampered_nonce_fails_validation() {
    let w = Wallet::new();
    let addr = w.get_address();
    let cbtx = Transaction::new_coinbase(&addr, String::new()).unwrap();
    let block = Block::new_genesis_block(cbtx).unwrap();
    let tampered = Block {
        timestamp: block.timestamp,
        transactions: block.transactions,
        prev_block_hash: block.prev_block_hash,
        hash: block.hash,
        nonce: block.nonce.wrapping_add(1),
        height: block.height,
    };
    assert!(!tampered.validate());
}

#[test]
fn address_round_trip() {
    let w = Wallet::new();
    let addr = w.get_address();
    let pkh = rs_blockchain::get_pub_key_hash(&addr).unwrap();
    let expected = rs_blockchain::hash_pub_key(&w.public_key);
    assert_eq!(pkh, expected);
    assert_eq!(pkh.len(), 20);
}

#[test]
fn message_codec_round_trip() {
    let msg = Message::Version {
        addr_from: "localhost:7879".to_string(),
        version: 1,
        best_height: 0,
    };
    let bytes = msg.encode();
    match Message::decode(&bytes).unwrap() {
        Message::Version { addr_from, version, best_height } => {
            assert_eq!(addr_from, "localhost:7879");
            assert_eq!(version, 1);
            assert_eq!(best_height, 0);
        },
        _ => panic!("expected a version message"),
    }

    let inv = Message::Inv {
        addr_from: "localhost:3000".to_string(),
        kind: InvKind::Tx,
        items: vec![vec![7u8; 32]],
    };
    let bytes = inv.encode();
    match Message::decode(&bytes).unwrap() {
        Message::Inv { addr_from, kind, items } => {
            assert_eq!(addr_from, "localhost:3000");
            assert_eq!(kind, InvKind::Tx);
            assert_eq!(items, vec![vec![7u8; 32]]);
        },
        _ => panic!("expected an inventory message"),
    }
}
