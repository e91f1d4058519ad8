use meros::crypto::{decrypt_bytes, encrypt_bytes, gen_keypair};
use meros::file::{File, FileID};
use meros::shard::ShardConfig;

fn test_file_bytes() -> Vec<u8> {
    b"this is the content of a small test file, split into shards".to_vec()
}

#[test]
fn is_valid() {
    // Test that it works when it should.
    let (sk1, pk1) = gen_keypair();
    let bytes = test_file_bytes();
    let (file1, shards1) =
        File::new(&bytes, "testfile.txt", ShardConfig::new(5, &pk1), &sk1).unwrap();
    assert!(file1.is_valid(&shards1, None));
}

#[test]
fn is_valid_rejects_foreign_shards() {
    let (sk1, pk1) = gen_keypair();
    let bytes = test_file_bytes();
    let (file1, shards1) =
        File::new(&bytes, "testfile.txt", ShardConfig::new(5, &pk1), &sk1).unwrap();
    let (sk2, pk2) = gen_keypair();
    let other = b"completely different content".to_vec();
    let (file2, shards2) = File::new(&other, "other.txt", ShardConfig::new(5, &pk2), &sk2).unwrap();
    assert!(!file1.is_valid(&shards2, None));
    assert!(!file2.is_valid(&shards1, None));
}

#[test]
fn is_valid_with_encryption() {
    let (sk, pk) = gen_keypair();
    let bytes = test_file_bytes();
    let mut config = ShardConfig::new(4, &pk);
    config.encrypt = true;
    let (file, shards) = File::new(&bytes, "secret.bin", config, &sk).unwrap();
    assert!(file.is_valid(&shards, Some(&sk)));
    // Without the key the shards cannot be validated.
    assert!(!file.is_valid(&shards, None));
}

#[test]
fn signature_binds_the_metadata() {
    let (sk, pk) = gen_keypair();
    let bytes = test_file_bytes();
    let (file, shards) = File::new(&bytes, "testfile.txt", ShardConfig::new(5, &pk), &sk).unwrap();
    assert!(file.is_valid(&shards, None));

    // Altering the filename after signing invalidates the file, even
    // with correct shards.
    let mut tampered = File::from_bytes(&file.to_bytes()).unwrap();
    tampered.filename = String::from("renamed.txt");
    assert!(!tampered.is_valid(&shards, None));

    // So does altering the checksum.
    let mut tampered = File::from_bytes(&file.to_bytes()).unwrap();
    tampered.checksum ^= 1;
    assert!(!tampered.is_valid(&shards, None));

    // And the creation date.
    let mut tampered = File::from_bytes(&file.to_bytes()).unwrap();
    tampered.creation_date += 1;
    assert!(!tampered.is_valid(&shards, None));
}

#[test]
fn checksum_is_crc32_of_the_raw_bytes() {
    // 0xCBF43926 is the standard CRC32 check value for this input.
    let (sk, pk) = gen_keypair();
    let bytes = b"123456789".to_vec();
    let (file, _) = File::new(&bytes, "check.txt", ShardConfig::new(3, &pk), &sk).unwrap();
    assert_eq!(file.checksum, 0xCBF43926);
}

#[test]
fn file_id_is_a_fixed_size_digest() {
    let bytes = vec![1u8, 2, 3, 4, 5];
    let (fid, time) = FileID::new("name.txt", &bytes).unwrap();
    assert_eq!(fid.to_bytes().len(), 32);
    assert!(fid.matches("name.txt", &bytes, time));
    assert!(!fid.matches("other.txt", &bytes, time));
    assert!(!fid.matches("name.txt", &vec![9u8, 9, 9], time));
    assert!(!fid.matches("name.txt", &bytes, time + 1));
}

#[test]
fn file_id_hex_round_trip() {
    let bytes = vec![4u8; 16];
    let (fid, _) = FileID::new("hex.txt", &bytes).unwrap();
    let hex: String = fid.to_bytes().iter().map(|b| format!("{:02x}", b)).collect();
    let parsed = FileID::from_hex(hex.as_str()).unwrap();
    assert_eq!(parsed.to_bytes(), fid.to_bytes());
    assert!(FileID::from_hex("zz").is_none());
    assert!(FileID::from_hex("0a0b").is_none());
}

#[test]
fn file_serialization_round_trip() {
    let (sk, pk) = gen_keypair();
    let bytes = test_file_bytes();
    let (mut file, _) = File::new(&bytes, "testfile.txt", ShardConfig::new(5, &pk), &sk).unwrap();
    file.set_shards(&vec![vec![1u8, 2, 3], vec![4u8, 5, 6]]);
    let encoded = file.to_bytes();
    let parsed = File::from_bytes(&encoded).unwrap();
    assert_eq!(file, parsed);
    assert_eq!(parsed.filename, "testfile.txt");
    assert_eq!(parsed.creation_date, file.creation_date);
    assert_eq!(parsed.checksum, file.checksum);
    assert_eq!(parsed.signature, file.signature);
    assert_eq!(parsed.shards(), file.shards());
    assert_eq!(parsed.shard_config.shard_count, file.shard_config.shard_count);
    assert_eq!(parsed.shard_config.sizes, file.shard_config.sizes);
    assert!(File::from_bytes(&b"not a file".to_vec()).is_none());
}

#[test]
fn test_encrypt_file() {
    let (sk, pk) = gen_keypair();
    let bytes = test_file_bytes();
    let (file, _) = File::new(&bytes, "testfile.txt", ShardConfig::new(5, &pk), &sk).unwrap();
    let keypair = gen_keypair();
    file.encrypt(&keypair.1).unwrap();
}

#[test]
fn test_decrypt_file() {
    let (sk, pk) = gen_keypair();
    let bytes = test_file_bytes();
    let (file, _) = File::new(&bytes, "testfile.txt", ShardConfig::new(5, &pk), &sk).unwrap();
    let keypair = gen_keypair();
    let encrypted = file.encrypt(&keypair.1).unwrap();
    let decrypted = File::decrypt(encrypted, keypair.0).unwrap();
    assert_eq!(file, decrypted);
}

#[test]
fn test_gen_keypair() {
    gen_keypair();
}

#[test]
fn test_load_keypair() {}

#[test]
fn test_encrypt_decrypt_bytes() {
    let b = vec![1u8, 2, 3, 4, 5, 6, 5, 6, 7, 8, 7, 8, 9];
    let (pr, pu) = gen_keypair();
    let encrypted = encrypt_bytes(&pu, &b).unwrap();
    assert_ne!(encrypted, b);
    assert!(encrypted.len() > b.len());
    let decrypted = decrypt_bytes(&pr, &encrypted).unwrap();
    assert_eq!(b, decrypted);
}
