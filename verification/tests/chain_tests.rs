use rs_blockchain::transaction::Transaction;
use rs_blockchain::{Blockchain, Config, InvKind, Mempool, Message, NodeState, UTXOSet, Wallets};

/// A store path nothing else has used, so every run starts clean.
fn fresh_path(tag: &str) -> String {
    let nanos = std::time::SystemTime::now()
        .duration_since(std::time::UNIX_EPOCH)
        .unwrap()
        .as_nanos();
    format!("/tmp/rsbc_{}_{}", tag, nanos)
}

fn balance(utxo: &UTXOSet, pkh: &[u8]) -> i64 {
    let outs = utxo.find_utxo(pkh).unwrap();
    outs.outputs.iter().map(|o| o.value as i64).sum()
}

fn pkh_of_address(addr: &str) -> Vec<u8> {
    rs_blockchain::get_pub_key_hash(addr).unwrap()
}

#[test]
fn s1_genesis_balance() {
    let mut ws = Wallets::new(&fresh_path("s1_wallets")).unwrap();
    let a1 = ws.create_wallet();
    ws.save().unwrap();
    let bc = Blockchain::create(&fresh_path("s1_chain"), &a1).unwrap();
    let mut utxo = UTXOSet::new(bc, &fresh_path("s1_utxos")).unwrap();
    utxo.reindex().unwrap();
    assert_eq!(balance(&utxo, &pkh_of_address(&a1)), 10);
}

/// A chain paying `a1` the genesis reward, with 4 of it transferred
/// to `a2` in one mined block and the index brought up to date.
fn transfer_setup(tag: &str) -> (Wallets, String, String, UTXOSet) {
    let mut ws = Wallets::new(&fresh_path(&format!("{}_wallets", tag))).unwrap();
    let a1 = ws.create_wallet();
    let a2 = ws.create_wallet();
    let bc = Blockchain::create(&fresh_path(&format!("{}_chain", tag)), &a1).unwrap();
    let mut utxo = UTXOSet::new(bc, &fresh_path(&format!("{}_utxos", tag))).unwrap();
    utxo.reindex().unwrap();
    let tx = Transaction::new_utxo(&ws, &a1, &a2, 4, &utxo).unwrap();
    let block = utxo.bc.mine_block(vec![tx]).unwrap();
    utxo.update(&block).unwrap();
    (ws, a1, a2, utxo)
}

#[test]
fn s2_transfer_balances() {
    // S2: move 4 from a1 to a2 and mine the transfer
    let (_ws, a1, a2, utxo) = transfer_setup("s2");
    assert_eq!(balance(&utxo, &pkh_of_address(&a1)), 6);
    assert_eq!(balance(&utxo, &pkh_of_address(&a2)), 4);
}

#[test]
fn p7_reindex_matches_update() {
    // a rebuild from the chain gives the same picture as the
    // incremental update, and rebuilding twice changes nothing
    let (_ws, a1, a2, mut utxo) = transfer_setup("p7");
    utxo.reindex().unwrap();
    assert_eq!(balance(&utxo, &pkh_of_address(&a1)), 6);
    assert_eq!(balance(&utxo, &pkh_of_address(&a2)), 4);
    utxo.reindex().unwrap();
    assert_eq!(balance(&utxo, &pkh_of_address(&a1)), 6);
    assert_eq!(balance(&utxo, &pkh_of_address(&a2)), 4);
}

#[test]
fn s3_insufficient_funds() {
    // S3: after S2, a2 cannot send 10 with only 4 available
    let (ws, a1, _a2, utxo) = transfer_setup("s3");
    let a2 = ws.get_addresses()[1].clone();
    match Transaction::new_utxo(&ws, &a2, &a1, 10, &utxo) {
        Err(rs_blockchain::Error::InsufficientFunds(acc)) => assert_eq!(acc, 4),
        other => panic!("expected insufficient funds, got {:?}", other.is_ok()),
    }
}

#[test]
fn p3_chain_walk_reaches_genesis() {
    let mut ws = Wallets::new(&fresh_path("p3_wallets")).unwrap();
    let a1 = ws.create_wallet();
    let bc = Blockchain::create(&fresh_path("p3_chain"), &a1).unwrap();
    let mut utxo = UTXOSet::new(bc, &fresh_path("p3_utxos")).unwrap();
    utxo.reindex().unwrap();
    for n in 0..2 {
        let cb = Transaction::new_coinbase(&a1, format!("round {}", n)).unwrap();
        let block = utxo.bc.mine_block(vec![cb]).unwrap();
        utxo.update(&block).unwrap();
    }
    assert_eq!(utxo.bc.get_best_height(), 2);
    let blocks = utxo.bc.blocks().unwrap();
    assert_eq!(blocks.len(), 3);
    for (i, b) in blocks.iter().enumerate() {
        assert_eq!(b.height as usize, 2 - i);
        assert!(b.validate());
    }
    assert_eq!(blocks[2].prev_block_hash, vec![0u8; 32]);
    assert_eq!(blocks[0].prev_block_hash, blocks[1].hash);
    assert_eq!(blocks[1].prev_block_hash, blocks[2].hash);
}

#[test]
fn p4_sign_and_verify() {
    let mut ws = Wallets::new(&fresh_path("p4_wallets")).unwrap();
    let a1 = ws.create_wallet();
    let a2 = ws.create_wallet();
    let bc = Blockchain::create(&fresh_path("p4_chain"), &a1).unwrap();
    let mut utxo = UTXOSet::new(bc, &fresh_path("p4_utxos")).unwrap();
    utxo.reindex().unwrap();
    let tx = Transaction::new_utxo(&ws, &a1, &a2, 4, &utxo).unwrap();
    // the freshly signed transaction verifies
    assert_eq!(utxo.bc.verify_transaction(&tx).unwrap(), true);
    // flipping a byte of the signature makes verification fail
    let mut bad = rs_blockchain::blockchain::clone_tx(&tx);
    bad.v_in[0].signature[0] ^= 0xff;
    assert_eq!(utxo.bc.verify_transaction(&bad).unwrap(), false);
    // flipping a byte of the public key fails too (as false or as a
    // malformed-key error, never as success)
    let mut bad2 = rs_blockchain::blockchain::clone_tx(&tx);
    bad2.v_in[0].pub_key[1] ^= 0xff;
    match utxo.bc.verify_transaction(&bad2) {
        Ok(b) => assert!(!b),
        Err(_) => {},
    }
}

#[test]
fn p8_mempool_reinsert_is_noop() {
    let mut ws = Wallets::new(&fresh_path("p8_wallets")).unwrap();
    let a1 = ws.create_wallet();
    let cb = Transaction::new_coinbase(&a1, String::new()).unwrap();
    let key = cb.hash();
    let mut pool = Mempool::empty();
    pool.insert(key.clone(), rs_blockchain::blockchain::clone_tx(&cb));
    assert!(pool.contains(&key));
    let before = pool.get(&key).unwrap().id.clone();
    pool.insert(key.clone(), rs_blockchain::blockchain::clone_tx(&cb));
    // the pool still answers with the very same transaction
    assert!(pool.contains(&key));
    assert_eq!(pool.get(&key).unwrap().id, before);
}

#[test]
fn s6_sync_from_scratch() {
    // node a mines three blocks
    let mut ws = Wallets::new(&fresh_path("s6_wallets")).unwrap();
    let a1 = ws.create_wallet();
    let bc_a = Blockchain::create(&fresh_path("s6_chain_a"), &a1).unwrap();
    let mut utxo_a = UTXOSet::new(bc_a, &fresh_path("s6_utxos_a")).unwrap();
    utxo_a.reindex().unwrap();
    for n in 0..2 {
        let cb = Transaction::new_coinbase(&a1, format!("sync {}", n)).unwrap();
        let block = utxo_a.bc.mine_block(vec![cb]).unwrap();
        utxo_a.update(&block).unwrap();
    }
    let tip_a = utxo_a.bc.blocks().unwrap()[0].hash.clone();

    // node b starts with an empty chain
    let bc_b = Blockchain::open(&fresh_path("s6_chain_b")).unwrap();
    let utxo_b = UTXOSet::new(bc_b, &fresh_path("s6_utxos_b")).unwrap();

    let mut node_a = NodeState::new(
        "localhost:3000".to_string(),
        String::new(),
        utxo_a,
        Config::default(),
    );
    let mut node_b = NodeState::new(
        "localhost:3001".to_string(),
        String::new(),
        utxo_b,
        Config::default(),
    );

    // deliver messages between the two until the wires go quiet
    let mut queue: Vec<(String, Message)> = vec![(
        "localhost:3000".to_string(),
        Message::GetBlocks { addr_from: "localhost:3001".to_string() },
    )];
    let mut steps = 0;
    while let Some((dest, msg)) = queue.pop() {
        steps += 1;
        assert!(steps < 100, "gossip did not settle");
        let replies = if dest == "localhost:3000" {
            node_a.handle(&msg).unwrap()
        } else {
            node_b.handle(&msg).unwrap()
        };
        for r in replies {
            queue.push(r);
        }
    }

    assert_eq!(node_b.utxo.bc.get_best_height(), 2);
    let tip_b = node_b.utxo.bc.blocks().unwrap()[0].hash.clone();
    assert_eq!(tip_a, tip_b);
    // and b's rebuilt index agrees with a's
    let pkh = pkh_of_address(&a1);
    assert_eq!(balance(&node_b.utxo, &pkh), balance(&node_a.utxo, &pkh));
}

#[test]
fn test_cmd() {
    let mut ws = Wallets::new(&fresh_path("cmd_wallets")).unwrap();
    let wa1 = ws.create_wallet();
    let bc = Blockchain::create(&fresh_path("cmd_chain"), &wa1).unwrap();
    let utxo_set = UTXOSet::new(bc, &fresh_path("cmd_utxos")).unwrap();
    let server = NodeState::new(
        "localhost:7878".to_string(),
        "localhost:3001".to_string(),
        utxo_set,
        Config::default(),
    );

    let vmsg = Message::Version {
        addr_from: "localhost:7879".to_string(),
        version: 1,
        best_height: 0,
    };

    let data = vmsg.encode();
    match Message::decode(&data).unwrap() {
        Message::Version { addr_from, version, best_height } => {
            assert_eq!(addr_from, "localhost:7879");
            assert_eq!(version, server.config.version);
            assert_eq!(best_height, server.utxo.bc.get_best_height());
        },
        _ => panic!("Expected Version message"),
    }
}
