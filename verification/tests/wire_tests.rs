use zebra_audit::digest::{sha256_hex, sha256d_checksum};
use zebra_audit::wire::{
    as_bytes, build_p2p_frame, build_p2p_frame_bad_checksum, build_p2p_frame_oversized_len,
    clamp_input, command_bytes, push_le, roundtrip_compare, seed_inv_payload, seed_ping_payload,
    seed_version_payload, wrap_in_frame, RoundTripError, MAINNET_MAGIC, MAX_FUZZ_INPUT,
    MAX_PAYLOAD_SIZE, TESTNET_MAGIC,
};

const PING: [u8; 12] = *b"ping\x00\x00\x00\x00\x00\x00\x00\x00";

#[test]
fn constants_match_network_parameters() {
    assert_eq!(MAINNET_MAGIC, [0x24, 0xe9, 0x27, 0x64]);
    assert_eq!(TESTNET_MAGIC, [0xfa, 0x1a, 0xf9, 0xbf]);
    assert_eq!(MAX_PAYLOAD_SIZE, 2 * 1024 * 1024);
    assert_eq!(MAX_FUZZ_INPUT, 65_536);
}

#[test]
fn checksum_of_empty_payload() {
    assert_eq!(sha256d_checksum(b""), [0x5d, 0xf6, 0xe0, 0xe2]);
    assert_eq!(sha256d_checksum(b"hello"), [0x95, 0x95, 0xc9, 0xdf]);
}

#[test]
fn sha256_hex_of_abc() {
    assert_eq!(
        sha256_hex(b"abc"),
        "ba7816bf8f01cfea414140de5dae2223b00361a396177a9cb410ff61f20015ad"
    );
}

#[test]
fn frame_layout_of_hello() {
    let f = build_p2p_frame(&PING, b"hello");
    assert_eq!(f.len(), 24 + 5);
    assert_eq!(&f[0..4], &MAINNET_MAGIC);
    assert_eq!(&f[4..16], &PING);
    assert_eq!(&f[16..20], &[5, 0, 0, 0]);
    assert_eq!(&f[20..24], &[0x95, 0x95, 0xc9, 0xdf]);
    assert_eq!(&f[24..], b"hello");
}

#[test]
fn frame_of_empty_payload_is_header_only() {
    let f = build_p2p_frame(&PING, b"");
    assert_eq!(f.len(), 24);
    assert_eq!(&f[16..20], &[0, 0, 0, 0]);
    assert_eq!(&f[20..24], &[0x5d, 0xf6, 0xe0, 0xe2]);
}

#[test]
fn bad_checksum_flips_first_checksum_byte() {
    let good = build_p2p_frame(&PING, b"hello");
    let bad = build_p2p_frame_bad_checksum(&PING, b"hello");
    assert_eq!(bad.len(), good.len());
    assert_eq!(bad[20], good[20] ^ 0xff);
    for i in 0..good.len() {
        if i != 20 {
            assert_eq!(bad[i], good[i]);
        }
    }
    assert_ne!(&bad[20..24], &sha256d_checksum(b"hello"));
}

#[test]
fn oversized_len_sets_length_field_to_max() {
    let good = build_p2p_frame(&PING, b"hello");
    let over = build_p2p_frame_oversized_len(&PING, b"hello");
    assert_eq!(&over[16..20], &u32::MAX.to_le_bytes());
    assert_eq!(&over[..16], &good[..16]);
    assert_eq!(&over[20..], &good[20..]);
}

#[test]
fn clamp_input_truncates_long_inputs() {
    let short = vec![7u8; 10];
    assert_eq!(clamp_input(&short), &short[..]);
    let exact = vec![1u8; MAX_FUZZ_INPUT];
    assert_eq!(clamp_input(&exact).len(), MAX_FUZZ_INPUT);
    let long = vec![2u8; MAX_FUZZ_INPUT + 5];
    let c = clamp_input(&long);
    assert_eq!(c.len(), MAX_FUZZ_INPUT);
    assert_eq!(c, &long[..MAX_FUZZ_INPUT]);
}

#[test]
fn wrap_in_frame_pads_and_truncates_commands() {
    assert_eq!(wrap_in_frame("ping", b"abc"), build_p2p_frame(&PING, b"abc"));
    assert_eq!(command_bytes("filterclear"), *b"filterclear\x00");
    assert_eq!(command_bytes("averyverylongcommand"), *b"averyverylon");
    assert_eq!(command_bytes(""), [0u8; 12]);
}

#[test]
fn seed_payloads_are_exact() {
    let v = seed_version_payload();
    assert_eq!(v.len(), 4 + 8 + 8 + 26 + 26 + 8 + 1 + 4 + 1);
    assert_eq!(&v[0..4], &170_100i32.to_le_bytes());
    assert_eq!(&v[4..12], &1u64.to_le_bytes());
    assert_eq!(&v[12..20], &1_700_000_000i64.to_le_bytes());
    assert!(v[20..72].iter().all(|&b| b == 0));
    assert_eq!(&v[72..80], &0xdeadbeef_cafebabeu64.to_le_bytes());
    assert_eq!(v[80], 0);
    assert_eq!(&v[81..85], &[0, 0, 0, 0]);
    assert_eq!(v[85], 1);
    assert_eq!(seed_ping_payload(), 0x1234_5678_9abc_def0u64.to_le_bytes().to_vec());
    let inv = seed_inv_payload();
    assert_eq!(inv.len(), 37);
    assert_eq!(&inv[..5], &[1, 1, 0, 0, 0]);
    assert!(inv[5..].iter().all(|&b| b == 0xab));
}

#[test]
fn push_le_writes_low_bytes_first() {
    let mut v = vec![9u8];
    push_le(&mut v, 0x0102_0304_0506_0708, 8);
    assert_eq!(v, vec![9, 8, 7, 6, 5, 4, 3, 2, 1]);
    let mut w = Vec::new();
    push_le(&mut w, 0x1_0000_0005, 4);
    assert_eq!(w, vec![5, 0, 0, 0]);
}

#[test]
fn as_bytes_copies_the_slice() {
    let b = as_bytes(&[1, 2, 3]);
    assert_eq!(&b[..], &[1, 2, 3]);
}

#[test]
fn roundtrip_compare_accepts_equal_prefix() {
    assert!(roundtrip_compare(&[1, 2, 3, 4], 2, &[1, 2]).is_ok());
    assert!(roundtrip_compare(&[], 0, &[]).is_ok());
}

#[test]
fn roundtrip_compare_reports_divergence_in_hex() {
    match roundtrip_compare(&[0xab, 0xcd, 0xef], 2, &[0xab, 0x01]) {
        Err(RoundTripError::Divergence { original, reserialized }) => {
            assert_eq!(original, "abcd");
            assert_eq!(reserialized, "ab01");
        }
        other => panic!("unexpected result: {:?}", other),
    }
}
