use zebra_audit::payloads::{
    build_addr_payload, build_mixed_stream, build_shielded_data, check_roundtrip_outcome,
    is_divergence, minimal_v4_tx, minimal_v5_tx, RoundTripOutcome,
};
use zebra_audit::wire::{build_p2p_frame, seed_inv_payload, seed_ping_payload, seed_version_payload};

#[test]
fn shielded_data_with_short_proof() {
    let proof = [0x11u8; 10];
    let p = build_shielded_data(1, &proof);
    assert_eq!(p[0], 1);
    assert!(p[1..821].iter().all(|&b| b == 0));
    assert_eq!(p[821], 0x03);
    assert!(p[822..830].iter().all(|&b| b == 0));
    assert!(p[830..862].iter().all(|&b| b == 0));
    assert_eq!(p[862], 10);
    assert_eq!(&p[863..873], &proof);
    assert_eq!(p.len(), 873 + 64 + 64);
}

#[test]
fn shielded_data_proof_length_prefixes() {
    let p0 = build_shielded_data(0, &[]);
    assert_eq!(p0.len(), 1 + 1 + 8 + 32 + 1 + 64);
    assert_eq!(p0[42], 0);
    let p252 = build_shielded_data(0, &vec![0u8; 252]);
    assert_eq!(p252[42], 252);
    let p253 = build_shielded_data(0, &vec![0u8; 253]);
    assert_eq!(&p253[42..45], &[0xfd, 253, 0]);
    let p65535 = build_shielded_data(0, &vec![0u8; 65535]);
    assert_eq!(&p65535[42..45], &[0xfd, 0xff, 0xff]);
    let p65536 = build_shielded_data(0, &vec![0u8; 65536]);
    assert_eq!(&p65536[42..47], &[0xfe, 0, 0, 1, 0]);
    let p2 = build_shielded_data(2, &[]);
    assert_eq!(p2.len(), 1 + 1640 + 1 + 8 + 32 + 1 + 128 + 64);
}

#[test]
fn addr_payload_concatenates() {
    assert_eq!(build_addr_payload(&[0xfd, 0xe8, 0x03], &[1, 2]), vec![0xfd, 0xe8, 0x03, 1, 2]);
    assert_eq!(build_addr_payload(&[], &[]), Vec::<u8>::new());
}

#[test]
fn mixed_stream_starts_with_three_frames() {
    let s = build_mixed_stream(&[0xaa, 0xbb]);
    let mut expected = Vec::new();
    expected.extend(build_p2p_frame(b"ping\x00\x00\x00\x00\x00\x00\x00\x00", &seed_ping_payload()));
    expected.extend(build_p2p_frame(b"inv\x00\x00\x00\x00\x00\x00\x00\x00\x00", &seed_inv_payload()));
    expected.extend(build_p2p_frame(b"version\x00\x00\x00\x00\x00", &seed_version_payload()));
    expected.extend([0xaa, 0xbb]);
    assert_eq!(s, expected);
}

#[test]
fn v4_skeleton_bytes() {
    let v = minimal_v4_tx();
    assert_eq!(v.len(), 4 + 4 + 2 + 4 + 4 + 8 + 3 + 64);
    assert_eq!(&v[..8], &[0x04, 0x00, 0x00, 0x80, 0x85, 0x20, 0x2f, 0x89]);
    assert!(v[8..].iter().all(|&b| b == 0));
}

#[test]
fn v5_skeleton_bytes() {
    let v = minimal_v5_tx();
    assert_eq!(v.len(), 4 + 4 + 4 + 4 + 4 + 4 + 8 + 1);
    assert_eq!(&v[..12], &[0x05, 0, 0, 0x80, 0x0a, 0x27, 0xa7, 0x26, 0xb4, 0xd0, 0xd6, 0xc2]);
    assert!(v[12..].iter().all(|&b| b == 0));
}

#[test]
fn roundtrip_outcomes() {
    assert_eq!(check_roundtrip_outcome(false, true, true, true, 3, 3), RoundTripOutcome::Undecodable);
    assert_eq!(check_roundtrip_outcome(true, false, true, true, 3, 3), RoundTripOutcome::Unserialisable);
    assert_eq!(
        check_roundtrip_outcome(true, true, false, true, 3, 3),
        RoundTripOutcome::ReserialisedUndecodable
    );
    assert_eq!(check_roundtrip_outcome(true, true, true, false, 3, 3), RoundTripOutcome::Divergent);
    assert_eq!(check_roundtrip_outcome(true, true, true, true, 3, 4), RoundTripOutcome::LengthMismatch);
    assert_eq!(check_roundtrip_outcome(true, true, true, true, 3, 3), RoundTripOutcome::Consistent);
    assert!(is_divergence(RoundTripOutcome::Divergent));
    assert!(is_divergence(RoundTripOutcome::ReserialisedUndecodable));
    assert!(!is_divergence(RoundTripOutcome::LengthMismatch));
    assert!(!is_divergence(RoundTripOutcome::Undecodable));
}
