use ed25519_dalek::{Signature, Verifier, VerifyingKey};
use solen_consensus::bytes::hash_less;
use solen_consensus::codec::{
    account_key, attestation_signing_payload, block_hash, block_key, compute_receipts_root,
    compute_tx_root, decode_chain_meta, decode_eager_revert, decode_last_attestation,
    eager_revert_key, encode_chain_meta, encode_last_attestation, unsigned_header_bytes,
};
use solen_consensus::crypto::Keypair;
use solen_consensus::types::{BlockHeader, ConsensusError, EngineConfig};

fn header() -> BlockHeader {
    BlockHeader {
        height: 1_234_567,
        epoch: 12_345,
        parent_hash: [1; 32],
        state_root: [20; 32],
        transactions_root: [255; 32],
        receipts_root: [0; 32],
        proposer: [9; 32],
        timestamp_ms: u64::MAX,
        proposer_signature: vec![7; 64],
    }
}

fn array(bytes: &[u8]) -> String {
    serde_json::to_string(bytes).unwrap()
}

#[test]
fn header_bytes_are_the_json_of_the_unsigned_header() {
    let h = header();
    let expected = format!(
        "{{\"height\":1234567,\"epoch\":12345,\"parent_hash\":{},\"state_root\":{},\"transactions_root\":{},\"receipts_root\":{},\"proposer\":{},\"timestamp_ms\":18446744073709551615,\"proposer_signature\":[]}}",
        array(&h.parent_hash),
        array(&h.state_root),
        array(&h.transactions_root),
        array(&h.receipts_root),
        array(&h.proposer),
    );
    assert_eq!(
        String::from_utf8(unsigned_header_bytes(&h)).unwrap(),
        expected
    );
    let parsed: serde_json::Value = serde_json::from_str(&expected).unwrap();
    assert_eq!(parsed["height"], 1_234_567);
    assert_eq!(
        block_hash(&h),
        *blake3::hash(expected.as_bytes()).as_bytes()
    );
}

#[test]
fn hash_ignores_only_the_signature() {
    let h = header();
    let unsigned = BlockHeader {
        proposer_signature: vec![],
        ..header()
    };
    assert_eq!(block_hash(&h), block_hash(&unsigned));
    let changed = [
        BlockHeader { height: 1, ..header() },
        BlockHeader { epoch: 1, ..header() },
        BlockHeader { parent_hash: [2; 32], ..header() },
        BlockHeader { state_root: [2; 32], ..header() },
        BlockHeader { transactions_root: [2; 32], ..header() },
        BlockHeader { receipts_root: [2; 32], ..header() },
        BlockHeader { proposer: [2; 32], ..header() },
        BlockHeader { timestamp_ms: 1, ..header() },
    ];
    for other in &changed {
        assert_ne!(block_hash(&h), block_hash(other));
    }
}

#[test]
fn list_roots_hash_the_encoding() {
    let json = Some(b"[1,2]".to_vec());
    assert_eq!(compute_tx_root(0, &json), [0u8; 32]);
    assert_eq!(
        compute_tx_root(2, &json),
        *blake3::hash(b"[1,2]").as_bytes()
    );
    assert_eq!(
        compute_receipts_root(2, &None),
        *blake3::hash(&2u64.to_le_bytes()).as_bytes()
    );
}

#[test]
fn attestation_payload_is_domain_separated() {
    let payload = attestation_signing_payload(7, 258, &[3; 32]);
    let mut expected = b"SOLEN_ATT".to_vec();
    expected.extend_from_slice(&7u64.to_le_bytes());
    expected.extend_from_slice(&258u64.to_le_bytes());
    expected.extend_from_slice(&[3; 32]);
    assert_eq!(payload, expected);
    assert_ne!(payload, attestation_signing_payload(8, 258, &[3; 32]));
    assert_ne!(payload, attestation_signing_payload(7, 259, &[3; 32]));
}

#[test]
fn records_round_trip() {
    let meta = encode_chain_meta(5, 6);
    assert_eq!(meta.len(), 16);
    assert_eq!(decode_chain_meta(&Some(meta.clone())), (5, 6));
    assert_eq!(decode_chain_meta(&Some(meta[..15].to_vec())), (0, 0));
    assert_eq!(decode_chain_meta(&None), (0, 0));
    let att = encode_last_attestation(u64::MAX, &[8; 32]);
    assert_eq!(att.len(), 40);
    assert_eq!(decode_last_attestation(&att), Some((u64::MAX, [8; 32])));
    assert_eq!(decode_last_attestation(&att[..39]), None);
}

#[test]
fn keys_have_their_documented_forms() {
    assert_eq!(block_key(0), b"block/0".to_vec());
    assert_eq!(block_key(10_203), b"block/10203".to_vec());
    assert_eq!(block_key(u64::MAX), b"block/18446744073709551615".to_vec());
    let mut account = b"acc/".to_vec();
    account.extend_from_slice(&[5; 32]);
    assert_eq!(account_key(&[5; 32]), account);
    assert_eq!(
        eager_revert_key(b"p/", 258),
        vec![b'p', b'/', 0, 0, 0, 0, 0, 0, 1, 2]
    );
}

#[test]
fn undo_records_decode_what_was_encoded() {
    let pairs: Vec<(Vec<u8>, Option<Vec<u8>>)> =
        vec![(b"a".to_vec(), None), (b"b".to_vec(), Some(b"2".to_vec()))];
    let revert = decode_eager_revert(&borsh::to_vec(&pairs).unwrap()).unwrap();
    let back: Vec<(Vec<u8>, Option<Vec<u8>>)> = revert
        .entries
        .into_iter()
        .map(|e| (e.key, e.value))
        .collect();
    assert_eq!(back, pairs);
    assert!(decode_eager_revert(b"no record").is_none());
}

#[test]
fn undo_records_have_one_form() {
    // Two entries: "ab" is to be removed, "c" gets "xyz" back.
    let record: Vec<u8> = vec![
        2, 0, 0, 0, 2, 0, 0, 0, 97, 98, 0, 1, 0, 0, 0, 99, 1, 3, 0, 0, 0, 120, 121, 122,
    ];
    let revert = decode_eager_revert(&record).unwrap();
    assert_eq!(revert.entries.len(), 2);
    assert_eq!(revert.entries[0].key, b"ab".to_vec());
    assert_eq!(revert.entries[0].value, None);
    assert_eq!(revert.entries[1].key, b"c".to_vec());
    assert_eq!(revert.entries[1].value, Some(b"xyz".to_vec()));
    assert_eq!(decode_eager_revert(&[0; 4]).unwrap().entries.len(), 0);

    let mut longer = record.clone();
    longer.push(0);
    assert!(decode_eager_revert(&longer).is_none());
    assert!(decode_eager_revert(&record[..record.len() - 1]).is_none());
    let mut bad_mark = record.clone();
    bad_mark[10] = 2;
    assert!(decode_eager_revert(&bad_mark).is_none());
    assert!(decode_eager_revert(&[]).is_none());
}

#[test]
fn signatures_verify_under_the_public_key() {
    let key = Keypair::from_seed([5; 32]);
    let public = VerifyingKey::from_bytes(&key.public_key()).unwrap();
    let signature = Signature::from_bytes(&key.sign(b"message"));
    assert!(public.verify(b"message", &signature).is_ok());
    assert!(public.verify(b"another", &signature).is_err());
    assert_ne!(key.public_key(), [5; 32]);
    assert_ne!(key.public_key(), Keypair::from_seed([6; 32]).public_key());
}

#[test]
fn hashes_are_ordered_by_their_first_difference() {
    let mut a = [0u8; 32];
    let mut b = [0u8; 32];
    a[30] = 1;
    b[31] = 200;
    assert!(hash_less(&b, &a));
    assert!(!hash_less(&a, &b));
    assert!(!hash_less(&a, &a));
}

#[test]
fn errors_say_what_happened() {
    assert_eq!(ConsensusError::AlreadyRunning.message(), "engine already running");
    assert_eq!(ConsensusError::Stopped.message(), "engine stopped");
    assert_eq!(
        ConsensusError::NotProposer.message(),
        "not the proposer for this height"
    );
}

#[test]
fn default_config_leaves_every_gate_closed() {
    let c = EngineConfig::default();
    assert_eq!((c.block_time_ms, c.max_ops_per_block, c.chain_id), (2000, 5000, 0));
    assert_eq!(c.validator_id, [0; 32]);
    assert!(!c.prune && !c.authenticate_sync_blocks);
    for gate in [
        c.fork_choice_v2_height,
        c.fee_fix_height,
        c.determinism_fix_height,
        c.pq_auth_height,
        c.epoch_randomness_height,
    ] {
        assert_eq!(gate, u64::MAX);
    }
}
