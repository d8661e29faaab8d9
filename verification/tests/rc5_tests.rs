use rc5::decrypt;
use rc5::encrypt;
use rc5::expand_key;
use rc5::rotl;
use rc5::rotr;
use rc5::Error;

#[test]
fn test_left_right_shift() {
    let a = 0x77u8; // 0111 0111

    assert_eq!(rotl(a, 1u8), 0xeeu8);
    assert_eq!(rotl(a, 7u8), 0xbbu8); // 1011 1011 = 0xbb
    assert_eq!(rotl(a, 8u8), a);
    assert_eq!(rotl(a, 2 * 8u8), a);
    assert_eq!(rotl(a, 5 * 8u8), a);

    assert_eq!(rotl(a, 1u8), 0xeeu8); // 1110 1110 = 0xee
    assert_eq!(rotl(a, 7u8), 0xbbu8); // 1011 1011 = 0xbb
    assert_eq!(rotr(a, 8u8), a);
    assert_eq!(rotr(a, 2 * 8u8), a);
    assert_eq!(rotr(a, 5 * 8u8), a);
}

#[test]
fn test_rivest_1() {
    let key = vec![
        0x00u8, 0x00, 0x00, 0x00, 0x00, 0x00, 0x00, 0x00, 0x00, 0x00, 0x00, 0x00, 0x00, 0x00,
        0x00, 0x00,
    ];
    let pt = (0x00000000u32, 0x00000000u32);
    let rounds = 12;

    let table = expand_key::<u32>(&key, rounds).unwrap();
    let ct = encrypt(pt, &table, rounds).unwrap();
    // The published ciphertext for this vector is the byte stream
    // 21 a5 db ee 15 4b 8f 6d; blocks serialize little-endian within the
    // stream, so the two ciphertext words unpack to exactly those bytes.
    let mut bytes = Vec::new();
    bytes.extend_from_slice(&ct.0.to_le_bytes());
    bytes.extend_from_slice(&ct.1.to_le_bytes());
    assert_eq!(bytes, vec![0x21, 0xa5, 0xdb, 0xee, 0x15, 0x4b, 0x8f, 0x6d]);
    assert_eq!(ct, (0xeedba521, 0x6d8f4b15));
}

#[test]
fn known_vector_decrypts_back() {
    let key = vec![0u8; 16];
    let table = expand_key::<u32>(&key, 12).unwrap();
    let ct = (
        u32::from_le_bytes([0x21, 0xa5, 0xdb, 0xee]),
        u32::from_le_bytes([0x15, 0x4b, 0x8f, 0x6d]),
    );
    let pt = decrypt(ct, &table, 12).unwrap();
    assert_eq!(pt, (0, 0));
}

#[test]
fn rotation_inverse_samples() {
    let xs32 = [0u32, 1, 0xdeadbeef, 0xffffffff, 0x80000001];
    let ys32 = [0u32, 1, 31, 32, 33, 64, 255, 0xffffffff];
    for &x in xs32.iter() {
        for &y in ys32.iter() {
            assert_eq!(rotr(rotl(x, y), y), x);
            assert_eq!(rotl(rotr(x, y), y), x);
        }
    }
    let xs64 = [0u64, 1, 0x0123456789abcdef, u64::MAX];
    for &x in xs64.iter() {
        for y in 0u64..130 {
            assert_eq!(rotr(rotl(x, y), y), x);
            assert_eq!(rotl(rotr(x, y), y), x);
        }
    }
}

#[test]
fn rotation_width_multiples() {
    let x = 0x12345678u32;
    for k in 0u32..8 {
        assert_eq!(rotl(x, k * 32), x);
        assert_eq!(rotr(x, k * 32), x);
    }
    let z = 0xbeefu16;
    assert_eq!(rotl(z, 16u16), z);
    assert_eq!(rotl(z, 48u16), z);
}

#[test]
fn round_trip_u8() {
    let keys: Vec<Vec<u8>> = vec![vec![], vec![0x5a], vec![7u8; 16], vec![0xa5u8; 255]];
    let rounds = [0usize, 1, 12, 255];
    let blocks = [(0u8, 0u8), (0x12, 0x34), (0xff, 0x01)];
    for key in keys.iter() {
        for &r in rounds.iter() {
            let table = expand_key::<u8>(key, r).unwrap();
            assert_eq!(table.len(), 2 * (r + 1));
            for &pt in blocks.iter() {
                let ct = encrypt(pt, &table, r).unwrap();
                assert_eq!(decrypt(ct, &table, r).unwrap(), pt);
            }
        }
    }
}

#[test]
fn round_trip_u16() {
    let keys: Vec<Vec<u8>> = vec![vec![], vec![0x5a], vec![7u8; 16], vec![0xa5u8; 255]];
    let rounds = [0usize, 1, 12, 255];
    let blocks = [(0u16, 0u16), (0x1234, 0x5678), (0xffff, 0x0001)];
    for key in keys.iter() {
        for &r in rounds.iter() {
            let table = expand_key::<u16>(key, r).unwrap();
            assert_eq!(table.len(), 2 * (r + 1));
            for &pt in blocks.iter() {
                let ct = encrypt(pt, &table, r).unwrap();
                assert_eq!(decrypt(ct, &table, r).unwrap(), pt);
            }
        }
    }
}

#[test]
fn round_trip_u32() {
    let keys: Vec<Vec<u8>> = vec![
        vec![],
        vec![0x5a],
        vec![
            0x00u8, 0x01, 0x02, 0x03, 0x04, 0x05, 0x06, 0x07, 0x08, 0x09, 0x0a, 0x0b, 0x0c, 0x0d,
            0x0e, 0x0f,
        ],
        vec![0xa5u8; 255],
    ];
    let rounds = [0usize, 1, 12, 255];
    let blocks = [(0u32, 0u32), (0xdeadbeef, 0xcafebabe), (0xffffffff, 1)];
    for key in keys.iter() {
        for &r in rounds.iter() {
            let table = expand_key::<u32>(key, r).unwrap();
            assert_eq!(table.len(), 2 * (r + 1));
            for &pt in blocks.iter() {
                let ct = encrypt(pt, &table, r).unwrap();
                assert_eq!(decrypt(ct, &table, r).unwrap(), pt);
            }
        }
    }
}

#[test]
fn round_trip_u64() {
    let keys: Vec<Vec<u8>> = vec![vec![], vec![0x5a], vec![7u8; 16], vec![0xa5u8; 255]];
    let rounds = [0usize, 1, 12, 255];
    let blocks = [
        (0u64, 0u64),
        (0x0123456789abcdef, 0xfedcba9876543210),
        (u64::MAX, 1),
    ];
    for key in keys.iter() {
        for &r in rounds.iter() {
            let table = expand_key::<u64>(key, r).unwrap();
            assert_eq!(table.len(), 2 * (r + 1));
            for &pt in blocks.iter() {
                let ct = encrypt(pt, &table, r).unwrap();
                assert_eq!(decrypt(ct, &table, r).unwrap(), pt);
            }
        }
    }
}

#[test]
fn empty_key_expands() {
    let key: Vec<u8> = vec![];
    let table = expand_key::<u32>(&key, 12).unwrap();
    assert_eq!(table.len(), 26);
    let ct = encrypt((1u32, 2u32), &table, 12).unwrap();
    assert_eq!(decrypt(ct, &table, 12).unwrap(), (1, 2));
}

#[test]
fn expansion_is_deterministic() {
    let key = vec![0x10u8, 0x20, 0x30, 0x40, 0x50];
    let t1 = expand_key::<u32>(&key, 12).unwrap();
    let t2 = expand_key::<u32>(&key, 12).unwrap();
    assert_eq!(t1, t2);
    let c1 = encrypt((3u32, 4u32), &t1, 12).unwrap();
    let c2 = encrypt((3u32, 4u32), &t2, 12).unwrap();
    assert_eq!(c1, c2);
    let p1 = decrypt(c1, &t1, 12).unwrap();
    let p2 = decrypt(c2, &t2, 12).unwrap();
    assert_eq!(p1, p2);
}

#[test]
fn zero_rounds_boundary() {
    let key = vec![0xabu8, 0xcd];
    let table = expand_key::<u32>(&key, 0).unwrap();
    assert_eq!(table.len(), 2);
    let pt = (0x01020304u32, 0x05060708u32);
    let ct = encrypt(pt, &table, 0).unwrap();
    assert_eq!(ct.0, pt.0.wrapping_add(table[0]));
    assert_eq!(ct.1, pt.1.wrapping_add(table[1]));
    assert_eq!(decrypt(ct, &table, 0).unwrap(), pt);
}

#[test]
fn invalid_rounds_rejected() {
    let key = vec![1u8, 2, 3];
    assert_eq!(expand_key::<u32>(&key, 256), Err(Error::InvalidRounds));
    assert_eq!(expand_key::<u8>(&key, usize::MAX), Err(Error::InvalidRounds));
    assert!(expand_key::<u32>(&key, 255).is_ok());
}

#[test]
fn short_table_rejected() {
    let key = vec![1u8, 2, 3];
    let table = expand_key::<u32>(&key, 12).unwrap();
    assert_eq!(table.len(), 26);
    assert_eq!(
        encrypt((1u32, 2u32), &table, 13),
        Err(Error::TableTooShort)
    );
    assert_eq!(
        decrypt((1u32, 2u32), &table, 13),
        Err(Error::TableTooShort)
    );
    let empty: Vec<u32> = vec![];
    assert_eq!(encrypt((1u32, 2u32), &empty, 0), Err(Error::TableTooShort));
    assert_eq!(decrypt((1u32, 2u32), &empty, 0), Err(Error::TableTooShort));
    assert!(encrypt((1u32, 2u32), &table, 12).is_ok());
}
