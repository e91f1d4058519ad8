use meros::codec::u128_to_dec_bytes;
use meros::crypto::gen_keypair;
use meros::shard::{
    calculate_shard_sizes, split_bytes, ReconstructionError, Shard, ShardConfig, ShardingError,
};

#[test]
fn test_calc_shard_sizes() {
    let t1 = calculate_shard_sizes(10, 3).unwrap();
    assert_eq!(t1, vec![3, 3, 4]);
    let t2 = calculate_shard_sizes(12312238, 27).unwrap();
    assert_eq!(t2.len(), 27);
    assert_eq!(t2.iter().sum::<usize>(), 12312238);
    let t3 = calculate_shard_sizes(0xFF * 2, 19).unwrap();
    assert_eq!(t3.len(), 19);
    assert_eq!(t3.iter().sum::<usize>(), 0xFF * 2);
}

#[test]
fn calc_shard_sizes_rejects_degenerate_requests() {
    assert!(matches!(
        calculate_shard_sizes(0, 3),
        Err(ShardingError::NullShardData)
    ));
    assert!(matches!(
        calculate_shard_sizes(10, 0),
        Err(ShardingError::NullShardData)
    ));
    assert!(matches!(
        calculate_shard_sizes(3, 10),
        Err(ShardingError::NullShardData)
    ));
}

#[test]
fn split_bytes_slices_in_order() {
    let bytes: Vec<u8> = vec![1, 2, 3, 4, 5, 6, 7];
    let sizes: Vec<usize> = vec![1, 2, 1, 1, 2];
    let shards = split_bytes(&bytes, &sizes).unwrap();
    assert_eq!(shards[0].data, vec![1u8]);
    assert_eq!(shards[1].data, vec![2u8, 3u8]);
    assert_eq!(shards[2].data, vec![4u8]);
    assert_eq!(shards[3].data, vec![5u8]);
    assert_eq!(shards[4].data, vec![6u8, 7u8]);
    for (i, shard) in shards.iter().enumerate() {
        assert_eq!(shard.index, i as u32);
        assert!(shard.is_valid());
    }
}

#[test]
fn split_bytes_rejects_bad_sizes() {
    let bytes: Vec<u8> = vec![1, 2, 3, 4];
    assert!(matches!(
        split_bytes(&bytes, &vec![1, 2]),
        Err(ShardingError::InvalidSplitSizes)
    ));
    assert!(matches!(
        split_bytes(&bytes, &vec![2, 0, 2]),
        Err(ShardingError::InvalidSplitSizes)
    ));
}

#[test]
fn example_scenario_seven_bytes_five_partitions() {
    let bytes: Vec<u8> = vec![1, 2, 3, 4, 5, 6, 7];
    let sizes = calculate_shard_sizes(7, 5).unwrap();
    assert_eq!(sizes, vec![1, 1, 1, 1, 3]);
    let (_, pk) = gen_keypair();
    let config = ShardConfig::new(5, &pk);
    let (shards, new_config) = Shard::shard(&bytes, config).unwrap();
    assert_eq!(shards[0].data, vec![1u8]);
    assert_eq!(shards[1].data, vec![2u8]);
    assert_eq!(shards[2].data, vec![3u8]);
    assert_eq!(shards[3].data, vec![4u8]);
    assert_eq!(shards[4].data, vec![5u8, 6u8, 7u8]);
    let reconstructed = Shard::reconstruct(&shards, &new_config, None).unwrap();
    assert_eq!(reconstructed, bytes);
}

#[test]
fn test_shard_no_encrypt() {
    let mut b: Vec<u8> = Vec::new();
    for byte in 0..0xFFu8 {
        b.push(byte);
        b.push(byte);
    }
    let (_, pk) = gen_keypair();
    let config = ShardConfig::new(19, &pk);
    let (shards, new_config) = Shard::shard(&b, config).unwrap();
    assert_eq!(shards.len(), 19);
    assert_eq!(new_config.shard_count, 19);
    assert_eq!(new_config.sizes.iter().sum::<usize>(), b.len());
    let mut data: Vec<u8> = Vec::new();
    for shard in shards.iter() {
        for byte in shard.data.iter() {
            data.push(*byte);
        }
    }
    assert_eq!(b, data);
}

#[test]
fn test_reconstruct_no_encrypt() {
    let mut b: Vec<u8> = Vec::new();
    for byte in 0..0xFFu8 {
        b.push(byte);
    }
    let (_, pk) = gen_keypair();
    let config = ShardConfig::new(6, &pk);
    let (shards, new_config) = Shard::shard(&b, config).unwrap();
    let reconstructed = Shard::reconstruct(&shards, &new_config, None).unwrap();
    assert_eq!(b, reconstructed);
}

#[test]
fn test_reconstruct_encrypt() {
    let mut b: Vec<u8> = Vec::new();
    for byte in 0..0xFFu8 {
        b.push(byte);
    }
    let (sk, pk) = gen_keypair();
    let mut config = ShardConfig::new(11, &pk);
    config.encrypt = true;
    let (shards, new_config) = Shard::shard(&b, config).unwrap();
    assert!(new_config.encrypt);
    let reconstructed = Shard::reconstruct(&shards, &new_config, Some(&sk)).unwrap();
    assert_eq!(b, reconstructed);
}

#[test]
fn reconstruct_without_key_fails() {
    let b: Vec<u8> = vec![9; 40];
    let (sk, pk) = gen_keypair();
    let mut config = ShardConfig::new(4, &pk);
    config.encrypt = true;
    let (shards, new_config) = Shard::shard(&b, config).unwrap();
    assert!(matches!(
        Shard::reconstruct(&shards, &new_config, None),
        Err(ReconstructionError::NoDecryptionKey)
    ));
    // The wrong key is rejected by the decryption primitive.
    let (other_sk, _) = gen_keypair();
    assert!(matches!(
        Shard::reconstruct(&shards, &new_config, Some(&other_sk)),
        Err(ReconstructionError::DecryptionFailed)
    ));
    // The right key still works.
    assert!(Shard::reconstruct(&shards, &new_config, Some(&sk)).is_ok());
}

#[test]
fn tampering_is_detected() {
    let b: Vec<u8> = vec![1, 2, 3, 4, 5, 6, 7, 8, 9, 10];
    let (_, pk) = gen_keypair();
    let config = ShardConfig::new(5, &pk);
    let (shards, new_config) = Shard::shard(&b, config).unwrap();
    // Mutating any byte of any shard is caught.
    for target in 0..shards.len() {
        for pos in 0..shards[target].data.len() {
            let (mut tampered, _) =
                Shard::shard(&b, ShardConfig::new(5, &pk)).unwrap();
            tampered[target].data[pos] ^= 0xff;
            assert!(!tampered[target].is_valid());
            assert!(matches!(
                Shard::reconstruct(&tampered, &new_config, None),
                Err(ReconstructionError::CannotReconstruct)
            ));
        }
    }
    assert!(Shard::reconstruct(&shards, &new_config, None).is_ok());
}

#[test]
fn reordering_is_detected() {
    let b: Vec<u8> = vec![1, 2, 3, 4, 5, 6, 7, 8, 9, 10];
    let (_, pk) = gen_keypair();
    let config = ShardConfig::new(5, &pk);
    let (mut shards, new_config) = Shard::shard(&b, config).unwrap();
    shards.swap(0, 1);
    // Each shard is still internally valid, but the order is wrong.
    assert!(shards[0].is_valid());
    assert!(shards[1].is_valid());
    assert!(matches!(
        Shard::reconstruct(&shards, &new_config, None),
        Err(ReconstructionError::CannotReconstruct)
    ));
}

#[test]
fn missing_shard_is_detected() {
    let b: Vec<u8> = vec![1, 2, 3, 4, 5, 6];
    let (_, pk) = gen_keypair();
    let config = ShardConfig::new(3, &pk);
    let (mut shards, new_config) = Shard::shard(&b, config).unwrap();
    shards.remove(1);
    assert!(matches!(
        Shard::reconstruct(&shards, &new_config, None),
        Err(ReconstructionError::CannotReconstruct)
    ));
}

#[test]
fn test_encrypt_shard() {
    let (_, pk) = gen_keypair();
    let shard = Shard::new(vec![1, 2, 3, 4], 1).unwrap();
    shard.encrypt(&pk).unwrap();
}

#[test]
fn test_decrypt_shard() {
    let shard = Shard::new(vec![1, 2, 3, 4, 5], 1).unwrap();
    let (sk, pk) = gen_keypair();
    let encrypted = shard.encrypt(&pk).unwrap();
    let decrypted = Shard::decrypt(encrypted, sk).unwrap();
    assert_eq!(shard, decrypted);
}

#[test]
fn shard_serialization_round_trip() {
    let shard = Shard::new(vec![7, 7, 7], 2).unwrap();
    let bytes = shard.to_bytes();
    let parsed = Shard::from_bytes(&bytes).unwrap();
    assert_eq!(shard, parsed);
    assert!(Shard::from_bytes(&vec![1, 2, 3]).is_none());
}

#[test]
fn decimal_rendering_matches_ascii() {
    assert_eq!(u128_to_dec_bytes(0), b"0".to_vec());
    assert_eq!(u128_to_dec_bytes(105), b"105".to_vec());
    assert_eq!(u128_to_dec_bytes(1234567890), b"1234567890".to_vec());
}
