use cql_stress::java_generate::hasher::{
    calculate_token_for_partition_key, Murmur3Partitioner, Partitioner, PartitionerHasher,
    PartitionerName,
};

fn driver_token(bytes: &[u8]) -> i64 {
    scylla::routing::partitioner::Partitioner::hash_one(
        &scylla::routing::partitioner::Murmur3Partitioner,
        bytes,
    )
    .value()
}

fn token_of(bytes: &[u8]) -> i64 {
    let mut hasher = Murmur3Partitioner.build_hasher();
    hasher.write(bytes);
    hasher.finish()
}

#[test]
fn test_murmur3_hash() {
    let partitioner = PartitionerName::Murmur3;
    let data = b"test_data";
    let token = calculate_token_for_partition_key(data, &partitioner).unwrap();
    assert_eq!(token.value(), token.value());
    assert_eq!(token.value(), token_of(data));
}

#[test]
fn empty_input_has_token_zero() {
    assert_eq!(token_of(b""), 0);
    let hasher = Murmur3Partitioner.build_hasher();
    assert_eq!(hasher.finish(), 0);
    let token = calculate_token_for_partition_key(b"", &PartitionerName::default()).unwrap();
    assert_eq!(token.value(), 0);
}

#[test]
fn published_vectors() {
    assert_eq!(token_of("test".as_bytes()), -6017608668500074083);
    assert_eq!(token_of("xd".as_bytes()), 4507812186440344727);
    assert_eq!(token_of("primary_key".as_bytes()), -1632642444691073360);
    assert_eq!(token_of("kremówki".as_bytes()), 4354931215268080151);
}

#[test]
fn agrees_with_the_driver() {
    let mut data: Vec<u8> = Vec::new();
    let mut x: u32 = 12345;
    for len in 0..200usize {
        let expected = driver_token(&data);
        let token = calculate_token_for_partition_key(&data, &PartitionerName::Murmur3).unwrap();
        assert_eq!(token.value(), expected, "length {}", len);
        x = x.wrapping_mul(1664525).wrapping_add(1013904223);
        data.push((x >> 24) as u8);
    }
}

#[test]
fn high_bytes_in_the_tail_are_sign_extended() {
    for len in 1..16usize {
        let data = vec![0xffu8; len];
        let expected = driver_token(&data);
        assert_eq!(token_of(&data), expected, "length {}", len);
    }
}

#[test]
fn chunking_does_not_change_the_token() {
    let data: Vec<u8> = (0..100u32).map(|i| (i * 37 + 11) as u8).collect();
    let whole = token_of(&data);
    for first in 0..=data.len() {
        for second in [0usize, 1, 7, 15, 16, 17, 33] {
            let mid = (first + second).min(data.len());
            let mut hasher = Murmur3Partitioner.build_hasher();
            hasher.write(&data[..first]);
            hasher.write(&data[first..mid]);
            hasher.write(&data[mid..]);
            assert_eq!(hasher.finish(), whole, "cut at {} and {}", first, mid);
        }
    }
    let mut hasher = Murmur3Partitioner.build_hasher();
    for byte in data.iter() {
        hasher.write(std::slice::from_ref(byte));
    }
    assert_eq!(hasher.finish(), whole);
}

#[test]
fn finish_leaves_the_hasher_as_it_was() {
    let mut hasher = Murmur3Partitioner.build_hasher();
    hasher.write(b"abcdefghij");
    let first = hasher.finish();
    assert_eq!(hasher.finish(), first);
    hasher.write(b"klmnopqrstuvwxyz");
    assert_eq!(hasher.finish(), token_of(b"abcdefghijklmnopqrstuvwxyz"));
}

#[test]
fn flipping_one_bit_changes_the_token() {
    let data: Vec<u8> = (0..40u32).map(|i| (i * 101 + 3) as u8).collect();
    let unflipped = token_of(&data);
    for byte in 0..data.len() {
        for bit in 0..8 {
            let mut flipped = data.clone();
            flipped[byte] ^= 1 << bit;
            assert_ne!(token_of(&flipped), unflipped, "byte {} bit {}", byte, bit);
        }
    }
}

#[test]
fn the_driver_keeps_the_least_value_out_of_its_tokens() {
    assert_eq!(scylla::routing::Token::new(i64::MIN).value(), i64::MAX);
    assert_eq!(scylla::routing::Token::new(i64::MIN + 1).value(), i64::MIN + 1);
    assert_eq!(scylla::routing::Token::new(-5).value(), -5);
    assert_eq!(scylla::routing::Token::new(i64::MAX).value(), i64::MAX);
}
