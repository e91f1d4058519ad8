use meros::common::Stack;
use meros::crypto::gen_keypair;
use meros::file::File;
use meros::node::{Command, Node, Operation, OperationConfig, OrchestrationError, MAX_SHARDS};
use meros::shard::ShardConfig;
use meros::GeneralError;

fn test_config() -> OperationConfig {
    OperationConfig {
        output_file: "none".to_string(),
        min_nodes: 0,
        decompress: false,
        decrypt: false,
    }
}

fn make_file() -> (File, Vec<u8>) {
    make_file_with_count(5)
}

fn make_file_with_count(count: usize) -> (File, Vec<u8>) {
    let (sk, pk) = gen_keypair();
    let bytes = b"some file content that is long enough to shard".to_vec();
    let (file, _) = File::new(&bytes, "queued.txt", ShardConfig::new(count, &pk), &sk).unwrap();
    (file, bytes)
}

fn peer_pool(n: usize) -> Vec<Vec<u8>> {
    let mut peers: Vec<Vec<u8>> = Vec::new();
    for i in 0..n {
        peers.push(vec![i as u8; 4]);
    }
    peers
}

#[test]
fn put_file_caps_the_peer_set() {
    // A 20-shard file with 20 online peers: one slot per shard index,
    // and exactly MAX_SHARDS of them assigned.
    let (file, bytes) = make_file_with_count(20);
    let plan = Node::put_file(file, &bytes, &peer_pool(20)).unwrap();
    assert_eq!(MAX_SHARDS, 15);
    assert_eq!(plan.file.shards().len(), 20);
    assert_eq!(plan.file.shards().len(), plan.file.shard_config.shard_count);
    for (i, peer) in plan.file.shards().iter().enumerate() {
        if i < 15 {
            assert_eq!(*peer, vec![i as u8; 4]);
        } else {
            assert!(peer.is_empty());
        }
    }
    assert_eq!(
        plan.file.shards().iter().filter(|p| !p.is_empty()).count(),
        15
    );
}

#[test]
fn put_file_with_few_peers_uses_them_all() {
    // A 5-shard file with 3 online peers: still one slot per shard
    // index, the last two unassigned.
    let (file, bytes) = make_file();
    let plan = Node::put_file(file, &bytes, &peer_pool(3)).unwrap();
    assert_eq!(plan.file.shards().len(), 5);
    assert_eq!(plan.file.shards().len(), plan.file.shard_config.shard_count);
    assert_eq!(plan.shards.len(), 5);
    for (i, peer) in plan.file.shards().iter().enumerate() {
        if i < 3 {
            assert_eq!(*peer, vec![i as u8; 4]);
        } else {
            assert!(peer.is_empty());
        }
    }
}

#[test]
fn put_file_without_peers_fails_before_sharding() {
    let (file, _) = make_file();
    // Even degenerate bytes never reach the sharding engine: the empty
    // peer set fails first.
    let result = Node::put_file(file, &Vec::new(), &Vec::new());
    assert!(matches!(result, Err(OrchestrationError::NotEnoughPeers)));
}

#[test]
fn put_then_get_round_trip() {
    let (file, bytes) = make_file();
    let plan = Node::put_file(file, &bytes, &peer_pool(4)).unwrap();
    assert_eq!(plan.record.key, plan.file.id.to_bytes());
    let (got_file, got_bytes) =
        Node::complete_get(&plan.record.value, &plan.shards, None).unwrap();
    assert_eq!(got_bytes, bytes);
    assert_eq!(got_file, plan.file);
}

#[test]
fn complete_get_rejects_bad_records_and_bad_shards() {
    let (file, bytes) = make_file();
    let plan = Node::put_file(file, &bytes, &peer_pool(4)).unwrap();
    assert!(matches!(
        Node::complete_get(&b"garbage".to_vec(), &plan.shards, None),
        Err(OrchestrationError::InvalidRecord)
    ));
    let mut tampered = plan.shards;
    tampered[0].data[0] ^= 1;
    assert!(matches!(
        Node::complete_get(&plan.record.value, &tampered, None),
        Err(OrchestrationError::Invalid)
    ));
}

#[test]
fn put_then_get_round_trip_with_encryption() {
    let (sk, pk) = gen_keypair();
    let bytes = b"payload that travels encrypted across the peer set".to_vec();
    let mut config = ShardConfig::new(6, &pk);
    config.encrypt = true;
    let (file, _) = File::new(&bytes, "cipher.bin", config, &sk).unwrap();
    let plan = Node::put_file(file, &bytes, &peer_pool(6)).unwrap();
    // Without the key the record cannot be verified; with it the
    // original bytes come back.
    assert!(matches!(
        Node::complete_get(&plan.record.value, &plan.shards, None),
        Err(OrchestrationError::Invalid)
    ));
    let (_, got_bytes) =
        Node::complete_get(&plan.record.value, &plan.shards, Some(&sk)).unwrap();
    assert_eq!(got_bytes, bytes);
}

#[test]
fn complete_get_rejects_reordered_shards() {
    let (file, bytes) = make_file();
    let plan = Node::put_file(file, &bytes, &peer_pool(4)).unwrap();
    let mut reordered = plan.shards;
    reordered.swap(1, 2);
    assert!(matches!(
        Node::complete_get(&plan.record.value, &reordered, None),
        Err(OrchestrationError::Invalid)
    ));
}

#[test]
fn published_record_decodes_to_the_same_file() {
    let (file, bytes) = make_file();
    let plan = Node::put_file(file, &bytes, &peer_pool(2)).unwrap();
    let decoded = File::from_bytes(&plan.record.value).unwrap();
    assert_eq!(decoded, plan.file);
    assert_eq!(decoded.shards(), plan.file.shards());
    assert_eq!(decoded.signature, plan.file.signature);
}

#[test]
fn record_decoding_is_exact() {
    let (file, bytes) = make_file();
    let plan = Node::put_file(file, &bytes, &peer_pool(3)).unwrap();
    // A decoded record re-encodes to the same bytes.
    let decoded = File::from_bytes(&plan.record.value).unwrap();
    assert_eq!(decoded.to_bytes(), plan.record.value);
    // Damaged records are rejected.
    let mut truncated = plan.record.value.clone();
    truncated.pop();
    assert!(File::from_bytes(&truncated).is_none());
    let mut extended = plan.record.value.clone();
    extended.push(0);
    assert!(File::from_bytes(&extended).is_none());
}

#[test]
fn operations_run_first_in_first_out() {
    let mut node = Node::new();
    assert!(node.next_operation().is_none());
    let (file, bytes) = make_file();
    let id = file.id.clone();
    node.push_operation(Operation::PutFile {
        file_metadata: file,
        file_bytes: bytes,
        config: test_config(),
    });
    node.push_operation(Operation::GetFile { file_id: id, config: test_config() });
    node.push_operation(Operation::TestSub);
    assert!(matches!(node.next_operation(), Some(Operation::PutFile { .. })));
    assert!(matches!(node.next_operation(), Some(Operation::GetFile { .. })));
    assert!(matches!(node.next_operation(), Some(Operation::TestSub)));
    assert!(node.next_operation().is_none());
}

#[test]
fn parse_command_reads_get_and_put() {
    let (file, _) = make_file();
    let hex: String = file.id.to_bytes().iter().map(|b| format!("{:02x}", b)).collect();
    let line = format!("GET {}", hex);
    match meros::node::parse_command(line.as_str()) {
        Some(Command::Get { key }) => assert_eq!(key.to_bytes(), file.id.to_bytes()),
        _ => panic!("expected a get command"),
    }
    match meros::node::parse_command("PUT somekey somevalue") {
        Some(Command::Put { key, value }) => {
            assert_eq!(key, b"somekey".to_vec());
            assert_eq!(value, b"somevalue".to_vec());
        },
        _ => panic!("expected a put command"),
    }
    // Tokens after the key are ignored, as the original console did.
    let with_extra = format!("GET {} trailing words", hex);
    assert!(matches!(
        meros::node::parse_command(with_extra.as_str()),
        Some(Command::Get { .. })
    ));
    assert!(meros::node::parse_command("GET").is_none());
    assert!(meros::node::parse_command("GET nothex").is_none());
    assert!(meros::node::parse_command("PUT keyonly").is_none());
    assert!(meros::node::parse_command("DELETE x y").is_none());
}

#[test]
fn stack_is_last_in_first_out() {
    let mut stack: Stack<u32> = Stack::new();
    stack.push(1);
    stack.push(2);
    stack.push(3);
    assert_eq!(stack.vec().len(), 3);
    assert_eq!(stack.pop(), Some(3));
    assert_eq!(stack.pop(), Some(2));
    assert_eq!(stack.pop(), Some(1));
    assert_eq!(stack.pop(), None);
    let from_vec: Stack<u8> = Stack::from_vec(vec![7, 8]);
    assert_eq!(from_vec.vec(), &vec![7u8, 8]);
}

#[test]
fn general_error_carries_its_message() {
    let err = GeneralError::new("something went wrong");
    assert_eq!(err.message(), "something went wrong");
}

#[test]
fn hex_decoding_is_exact() {
    assert_eq!(
        meros::codec::hex_decode(b"0aff"),
        Some(vec![0x0au8, 0xff])
    );
    assert_eq!(meros::codec::hex_decode(b""), Some(Vec::new()));
    assert_eq!(meros::codec::hex_decode(b"abc"), None);
    assert_eq!(meros::codec::hex_decode(b"zz"), None);
}
