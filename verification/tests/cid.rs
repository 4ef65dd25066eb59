use anys_cid::{Cid, CidDecodeError};

fn raw(size: u64, fill: u8) -> Cid {
    Cid::new(Cid::VERSION_RAW, size, [fill; 32])
}

fn binary(tag: u8, size: &[u8], hash: &[u8]) -> Vec<u8> {
    let mut bytes = vec![tag];
    bytes.extend_from_slice(size);
    bytes.extend_from_slice(hash);
    bytes
}

#[test]
fn cid_builder() {
    let mut cid = Cid::builder(Cid::VERSION_RAW);
    cid.update(b"hello");
    cid.update(b"world");
    let cid1 = cid.finalize();
    let cid2 = Cid::from_data(Cid::VERSION_RAW, b"helloworld");
    assert_eq!(cid1, cid2);
}

#[test]
fn cid_display() {
    let cid = Cid::new(Cid::VERSION_RAW, 10, [1; 32]);
    let s = cid.to_string();
    let cid2 = Cid::from_str(&s).unwrap();
    assert_eq!(cid, cid2);
}

#[test]
fn constants() {
    assert_eq!(Cid::VERSION_RAW, b'A');
    assert_eq!(Cid::MAX_SIZE_IN_BYTES, 42);
    assert_eq!(anys_cid::BLOCK_SIZE, 16 * 1024);
}

#[test]
fn getters_return_the_parts() {
    let mut hash = [0u8; 32];
    for (i, b) in hash.iter_mut().enumerate() {
        *b = i as u8;
    }
    let cid = Cid::new(7, 123_456, hash);
    assert_eq!(cid.version(), 7);
    assert_eq!(cid.size(), 123_456);
    assert_eq!(cid.hash(), &hash);
    assert!(!cid.is_raw());
    assert!(raw(0, 0).is_raw());
}

#[test]
fn equality_goes_by_all_three_parts() {
    let cid = raw(10, 1);
    assert_eq!(cid, raw(10, 1));
    assert_eq!(cid, cid.clone());
    assert_ne!(cid, raw(11, 1));
    assert_ne!(cid, raw(10, 2));
    assert_ne!(cid, Cid::new(b'B', 10, [1; 32]));
    let mut hash = [1u8; 32];
    hash[31] = 0;
    assert_ne!(cid, Cid::new(Cid::VERSION_RAW, 10, hash));
}

#[test]
fn num_blocks_rounds_up() {
    let block = anys_cid::BLOCK_SIZE as u64;
    assert_eq!(raw(0, 0).num_blocks(), 0);
    assert_eq!(raw(1, 0).num_blocks(), 1);
    assert_eq!(raw(block - 1, 0).num_blocks(), 1);
    assert_eq!(raw(block, 0).num_blocks(), 1);
    assert_eq!(raw(block + 1, 0).num_blocks(), 2);
    assert_eq!(raw(10 * block, 0).num_blocks(), 10);
    assert_eq!(raw(u64::MAX, 0).num_blocks(), 1 << 50);
}

#[test]
fn binary_form_is_tag_size_hash() {
    assert_eq!(raw(10, 1).to_bytes(), binary(0x41, &[10], &[1; 32]));
    assert_eq!(raw(0, 0).to_bytes(), binary(0x41, &[0], &[0; 32]));
    assert_eq!(raw(127, 9).to_bytes(), binary(0x41, &[0x7f], &[9; 32]));
    assert_eq!(raw(128, 9).to_bytes(), binary(0x41, &[0x80, 0x01], &[9; 32]));
    assert_eq!(raw(300, 7).to_bytes(), binary(0x41, &[0xac, 0x02], &[7; 32]));
    assert_eq!(raw(16384, 7).to_bytes(), binary(0x41, &[0x80, 0x80, 0x01], &[7; 32]));
    assert_eq!(
        raw(1 << 32, 7).to_bytes(),
        binary(0x41, &[0x80, 0x80, 0x80, 0x80, 0x10], &[7; 32])
    );
    assert_eq!(Cid::new(b'B', 1, [3; 32]).to_bytes(), binary(0x42, &[1], &[3; 32]));
}

#[test]
fn binary_form_of_the_largest_sizes() {
    let below = raw((1 << 63) - 1, 5).to_bytes();
    assert_eq!(below, binary(0x41, &[0xff, 0xff, 0xff, 0xff, 0xff, 0xff, 0xff, 0xff, 0x7f], &[5; 32]));
    assert_eq!(below.len(), Cid::MAX_SIZE_IN_BYTES);
    let at = raw(1 << 63, 5).to_bytes();
    assert_eq!(
        at,
        binary(0x41, &[0x80, 0x80, 0x80, 0x80, 0x80, 0x80, 0x80, 0x80, 0x80, 0x01], &[5; 32])
    );
    let max = raw(u64::MAX, 5).to_bytes();
    assert_eq!(
        max,
        binary(0x41, &[0xff, 0xff, 0xff, 0xff, 0xff, 0xff, 0xff, 0xff, 0xff, 0x01], &[5; 32])
    );
    assert_eq!(max.len(), 43);
}

#[test]
fn encode_appends_to_the_buffer() {
    let mut buf = vec![0xaa, 0xbb];
    raw(300, 7).encode(&mut buf);
    let mut expected = vec![0xaa, 0xbb];
    expected.extend_from_slice(&binary(0x41, &[0xac, 0x02], &[7; 32]));
    assert_eq!(buf, expected);
    raw(1, 2).encode(&mut buf);
    expected.extend_from_slice(&binary(0x41, &[1], &[2; 32]));
    assert_eq!(buf, expected);
}

#[test]
fn binary_round_trip() {
    let sizes = [
        0u64,
        1,
        127,
        128,
        300,
        16383,
        16384,
        16385,
        u32::MAX as u64,
        1 << 32,
        (1 << 63) - 1,
        1 << 63,
        u64::MAX,
    ];
    for (i, size) in sizes.iter().enumerate() {
        let cid = raw(*size, i as u8);
        let bytes = cid.to_bytes();
        assert_eq!(Cid::decode(&bytes), Ok(cid.clone()));
        assert_eq!(Cid::from_bytes(&bytes), Ok(cid));
    }
}

#[test]
fn decode_reads_the_parts() {
    let mut hash = [0u8; 32];
    for (i, b) in hash.iter_mut().enumerate() {
        *b = 255 - i as u8;
    }
    let bytes = binary(0x41, &[0xac, 0x02], &hash);
    let cid = Cid::decode(&bytes).unwrap();
    assert_eq!(cid.version(), b'A');
    assert_eq!(cid.size(), 300);
    assert_eq!(cid.hash(), &hash);
    assert_eq!(Cid::from_bytes(&bytes).unwrap(), cid);
    assert_eq!(Cid::from_version_and_buf(0x41, &bytes[1..]).unwrap(), cid);
}

#[test]
fn decode_rejects_a_cut_size() {
    assert_eq!(Cid::decode(&[0x41]), Err(CidDecodeError::InvalidSize));
    assert_eq!(Cid::decode(&[0x41, 0x80]), Err(CidDecodeError::InvalidSize));
    assert_eq!(Cid::decode(&[0x41, 0xff, 0xff, 0xff]), Err(CidDecodeError::InvalidSize));
    assert_eq!(Cid::from_bytes(&[0x41, 0x80]), Err(CidDecodeError::InvalidSize));
    assert_eq!(Cid::from_version_and_buf(0x41, &[]), Err(CidDecodeError::InvalidSize));
    assert_eq!(Cid::from_version_and_buf(0x41, &[0x81; 9]), Err(CidDecodeError::InvalidSize));
}

#[test]
fn decode_rejects_a_size_over_64_bits() {
    let tenth_is_two = binary(
        0x41,
        &[0xff, 0xff, 0xff, 0xff, 0xff, 0xff, 0xff, 0xff, 0xff, 0x02],
        &[0; 32],
    );
    assert_eq!(Cid::decode(&tenth_is_two), Err(CidDecodeError::InvalidSize));
    let eleven = binary(
        0x41,
        &[0x80, 0x80, 0x80, 0x80, 0x80, 0x80, 0x80, 0x80, 0x80, 0x80, 0x00],
        &[0; 32],
    );
    assert_eq!(Cid::decode(&eleven), Err(CidDecodeError::InvalidSize));
    let tenth_goes_on = binary(
        0x41,
        &[0x80, 0x80, 0x80, 0x80, 0x80, 0x80, 0x80, 0x80, 0x80, 0x81, 0x00],
        &[0; 32],
    );
    assert_eq!(Cid::decode(&tenth_goes_on), Err(CidDecodeError::InvalidSize));
}

#[test]
fn decode_takes_a_size_with_idle_bytes() {
    let padded = binary(0x41, &[0x8a, 0x80, 0x00], &[4; 32]);
    assert_eq!(Cid::decode(&padded), Ok(raw(10, 4)));
    let ten_bytes = binary(
        0x41,
        &[0x80, 0x80, 0x80, 0x80, 0x80, 0x80, 0x80, 0x80, 0x80, 0x00],
        &[4; 32],
    );
    assert_eq!(Cid::decode(&ten_bytes), Ok(raw(0, 4)));
}

#[test]
fn decode_rejects_a_hash_of_another_length() {
    let good = raw(300, 7).to_bytes();
    let mut long = good.clone();
    long.push(0);
    assert_eq!(Cid::decode(&long), Err(CidDecodeError::InvalidHash));
    assert_eq!(Cid::from_bytes(&long), Err(CidDecodeError::InvalidHash));
    let short = &good[..good.len() - 1];
    assert_eq!(Cid::decode(short), Err(CidDecodeError::InvalidHash));
    assert_eq!(Cid::from_bytes(short), Err(CidDecodeError::InvalidHash));
    assert_eq!(Cid::decode(&[0x41, 0x05]), Err(CidDecodeError::InvalidHash));
    assert_eq!(Cid::decode(&binary(0x41, &[5], &[0; 64])), Err(CidDecodeError::InvalidHash));
}

#[test]
fn decode_rejects_other_tags() {
    let bytes = Cid::new(b'B', 300, [7; 32]).to_bytes();
    assert_eq!(
        Cid::decode(&bytes),
        Err(CidDecodeError::UnsupportedVersion { version: b'B' })
    );
    assert_eq!(
        Cid::from_bytes(&bytes),
        Err(CidDecodeError::UnsupportedVersion { version: 0x42 })
    );
    assert_eq!(Cid::decode(&[0]), Err(CidDecodeError::UnsupportedVersion { version: 0 }));
    assert_eq!(
        Cid::decode(&[0xff, 0x80]),
        Err(CidDecodeError::UnsupportedVersion { version: 0xff })
    );
    assert_eq!(
        Cid::from_version_and_buf(b'a', &raw(1, 1).to_bytes()[1..]),
        Err(CidDecodeError::UnsupportedVersion { version: b'a' })
    );
}

#[test]
fn text_form_is_tag_then_base58() {
    assert_eq!(raw(10, 1).to_string(), "A3yN617Bz1Xmfuqv5gi46tE5nyk6eS89PmPvCufbKGurnU");
    assert_eq!(raw(0, 0).to_string(), "A111111111111111111111111111111111");
    assert_eq!(
        Cid::new(b'B', 300, [7; 32]).to_string(),
        "B4tXqdYFg8brVLBjQyByxwQptZtGYTVicXQxNTvmtpzNPabG"
    );
}

#[test]
fn text_form_agrees_with_the_binary_form() {
    let cid = raw(123_456_789, 0x5a);
    let text = cid.to_string();
    assert!(text.starts_with('A'));
    let payload = bs58::decode(&text[1..]).into_vec().unwrap();
    assert_eq!(payload, cid.to_bytes()[1..].to_vec());
    assert_eq!(text[1..], bs58::encode(&cid.to_bytes()[1..]).into_string());
}

#[test]
fn text_round_trip() {
    let sizes = [0u64, 1, 127, 128, 300, 16384, 1 << 32, (1 << 63) - 1, 1 << 63, u64::MAX];
    for (i, size) in sizes.iter().enumerate() {
        let cid = raw(*size, (i * 31) as u8);
        assert_eq!(Cid::from_str(&cid.to_string()), Ok(cid));
    }
}

#[test]
fn from_str_reads_the_parts() {
    let cid = Cid::from_str("A3yN617Bz1Xmfuqv5gi46tE5nyk6eS89PmPvCufbKGurnU").unwrap();
    assert_eq!(cid.version(), b'A');
    assert_eq!(cid.size(), 10);
    assert_eq!(cid.hash(), &[1u8; 32]);
    let zero = Cid::from_str("A111111111111111111111111111111111").unwrap();
    assert_eq!(zero, raw(0, 0));
}

#[test]
fn from_str_rejects_text_outside_the_alphabet() {
    assert_eq!(Cid::from_str("A0"), Err(CidDecodeError::InvalidEncoding));
    assert_eq!(Cid::from_str("AO"), Err(CidDecodeError::InvalidEncoding));
    assert_eq!(Cid::from_str("AI"), Err(CidDecodeError::InvalidEncoding));
    assert_eq!(Cid::from_str("Al"), Err(CidDecodeError::InvalidEncoding));
    assert_eq!(Cid::from_str("A3yN617 Bz1"), Err(CidDecodeError::InvalidEncoding));
    assert_eq!(Cid::from_str("A3yN617Bz1\u{e9}"), Err(CidDecodeError::InvalidEncoding));
    assert_eq!(
        Cid::from_str("A3yN617Bz1Xmfuqv5gi46tE5nyk6eS89PmPvCufbKGurn!"),
        Err(CidDecodeError::InvalidEncoding)
    );
}

#[test]
fn from_str_decodes_the_text_before_it_looks_at_the_tag() {
    assert_eq!(Cid::from_str("B0"), Err(CidDecodeError::InvalidEncoding));
    assert_eq!(
        Cid::from_str("B4tXqdYFg8brVLBjQyByxwQptZtGYTVicXQxNTvmtpzNPabG"),
        Err(CidDecodeError::UnsupportedVersion { version: b'B' })
    );
    assert_eq!(
        Cid::from_str("x"),
        Err(CidDecodeError::UnsupportedVersion { version: b'x' })
    );
}

#[test]
fn from_str_rejects_bad_payloads() {
    assert_eq!(Cid::from_str("A"), Err(CidDecodeError::InvalidSize));
    let cut = format!("A{}", bs58::encode([0x80u8, 0x80]).into_string());
    assert_eq!(Cid::from_str(&cut), Err(CidDecodeError::InvalidSize));
    let mut long = vec![10u8];
    long.extend_from_slice(&[1; 33]);
    let long = format!("A{}", bs58::encode(long).into_string());
    assert_eq!(Cid::from_str(&long), Err(CidDecodeError::InvalidHash));
    let mut short = vec![10u8];
    short.extend_from_slice(&[1; 31]);
    let short = format!("A{}", bs58::encode(short).into_string());
    assert_eq!(Cid::from_str(&short), Err(CidDecodeError::InvalidHash));
    assert_eq!(Cid::from_str("A1"), Err(CidDecodeError::InvalidHash));
}

#[test]
fn errors_compare_and_print() {
    let e = CidDecodeError::UnsupportedVersion { version: 3 };
    assert_eq!(e, e.clone());
    assert_ne!(e, CidDecodeError::UnsupportedVersion { version: 4 });
    assert_ne!(CidDecodeError::InvalidSize, CidDecodeError::InvalidHash);
    assert_ne!(CidDecodeError::InvalidEncoding, CidDecodeError::InvalidSize);
    assert_eq!(format!("{:?}", CidDecodeError::InvalidHash), "InvalidHash");
}
