//! Crafted payloads used by the fuzzing harnesses, and the verdict of a
//! deserialise / re-serialise / deserialise round trip.

use vstd::prelude::*;
use crate::wire::{
    build_p2p_frame, frame_bytes, inv_seed, le_bytes, ping_seed, push_all,
    push_le, push_repeat, seed_inv_payload, seed_ping_payload, seed_version_payload, version_seed,
    write_i64_le, write_u32_le, zeros, MAINNET_MAGIC,
};

verus! {

/// Bytes of one Orchard action in a crafted bundle.
pub const ACTION_SIZE: usize = 820;

/// Bytes of one spend-authorisation signature.
pub const SIGNATURE_SIZE: usize = 64;

/// The compact-size prefix the harness writes for a proof of `n` bytes: one
/// byte below 253, `0xfd` and 2 bytes below 65536, else `0xfe` and the low
/// 4 bytes of `n`.
pub open spec fn proof_len_prefix(n: nat) -> Seq<u8> {
    if n < 253 {
        seq![n as u8]
    } else if n < 65536 {
        seq![0xfdu8] + le_bytes(n, 2)
    } else {
        seq![0xfeu8] + le_bytes(n, 4)
    }
}

/// An Orchard shielded-data payload with `n` zeroed actions, flags 0x03, zero
/// value balance, zero anchor, the given proof, and zeroed signatures.
pub open spec fn shielded_data_bytes(n: u8, proof: Seq<u8>) -> Seq<u8> {
    seq![n] + zeros((ACTION_SIZE * n) as nat) + seq![0x03u8] + le_bytes(0, 8) + zeros(32)
        + proof_len_prefix(proof.len()) + proof + zeros((SIGNATURE_SIZE * n) as nat) + zeros(
        SIGNATURE_SIZE as nat,
    )
}

/// Build a ShieldedData payload with `n_actions` actions and the given proof bytes.
pub fn build_shielded_data(n_actions: u8, proof_bytes: &[u8]) -> (payload: Vec<u8>)
    ensures
        payload@ == shielded_data_bytes(n_actions, proof_bytes@),
{
    let mut payload: Vec<u8> = Vec::new();
    payload.push(n_actions);
    push_repeat(&mut payload, 0, ACTION_SIZE * n_actions as usize);
    payload.push(0x03);
    push_le(&mut payload, 0, 8);
    push_repeat(&mut payload, 0, 32);
    let proof_len = proof_bytes.len();
    if proof_len < 253 {
        payload.push(proof_len as u8);
    } else if proof_len < 65536 {
        payload.push(0xfd);
        push_le(&mut payload, proof_len as u64, 2);
    } else {
        payload.push(0xfe);
        push_le(&mut payload, proof_len as u64, 4);
    }
    push_all(&mut payload, proof_bytes);
    push_repeat(&mut payload, 0, SIGNATURE_SIZE * n_actions as usize);
    push_repeat(&mut payload, 0, SIGNATURE_SIZE);
    assert(payload@ =~= shielded_data_bytes(n_actions, proof_bytes@));
    payload
}

/// Build an `addr` payload: the count prefix followed by the entry bytes.
pub fn build_addr_payload(count_varint: &[u8], entry_fill: &[u8]) -> (v: Vec<u8>)
    ensures
        v@ == count_varint@ + entry_fill@,
{
    let mut v: Vec<u8> = Vec::new();
    push_all(&mut v, count_varint);
    push_all(&mut v, entry_fill);
    assert(v@ =~= count_varint@ + entry_fill@);
    v
}

/// The `ping` command field.
pub open spec fn ping_command() -> Seq<u8> {
    seq![0x70u8, 0x69, 0x6e, 0x67, 0, 0, 0, 0, 0, 0, 0, 0]
}

/// The `inv` command field.
pub open spec fn inv_command() -> Seq<u8> {
    seq![0x69u8, 0x6e, 0x76, 0, 0, 0, 0, 0, 0, 0, 0, 0]
}

/// The `version` command field.
pub open spec fn version_command() -> Seq<u8> {
    seq![0x76u8, 0x65, 0x72, 0x73, 0x69, 0x6f, 0x6e, 0, 0, 0, 0, 0]
}

/// A stream of valid `ping`, `inv` and `version` frames followed by `tail`.
pub open spec fn mixed_stream_bytes(tail: Seq<u8>) -> Seq<u8> {
    frame_bytes(MAINNET_MAGIC@, ping_command(), ping_seed()) + frame_bytes(
        MAINNET_MAGIC@,
        inv_command(),
        inv_seed(),
    ) + frame_bytes(MAINNET_MAGIC@, version_command(), version_seed()) + tail
}

/// Build a stream of three valid frames followed by the fuzzer bytes.
pub fn build_mixed_stream(fuzzer_bytes: &[u8]) -> (stream: Vec<u8>)
    ensures
        stream@ == mixed_stream_bytes(fuzzer_bytes@),
{
    let mut stream: Vec<u8> = Vec::new();
    let ping_cmd: [u8; 12] = [0x70, 0x69, 0x6e, 0x67, 0, 0, 0, 0, 0, 0, 0, 0];
    let inv_cmd: [u8; 12] = [0x69, 0x6e, 0x76, 0, 0, 0, 0, 0, 0, 0, 0, 0];
    let ver_cmd: [u8; 12] = [0x76, 0x65, 0x72, 0x73, 0x69, 0x6f, 0x6e, 0, 0, 0, 0, 0];
    assert(ping_cmd@ =~= ping_command());
    assert(inv_cmd@ =~= inv_command());
    assert(ver_cmd@ =~= version_command());
    let ping = seed_ping_payload();
    let f1 = build_p2p_frame(&ping_cmd, ping.as_slice());
    push_all(&mut stream, f1.as_slice());
    let inv = seed_inv_payload();
    let f2 = build_p2p_frame(&inv_cmd, inv.as_slice());
    push_all(&mut stream, f2.as_slice());
    let ver = seed_version_payload();
    let f3 = build_p2p_frame(&ver_cmd, ver.as_slice());
    push_all(&mut stream, f3.as_slice());
    push_all(&mut stream, fuzzer_bytes);
    assert(stream@ =~= mixed_stream_bytes(fuzzer_bytes@));
    stream
}

/// A minimal v4 (Sapling) transaction: header 0x80000004, version group
/// 0x892F2085, no inputs or outputs, zero lock time, expiry and value balance,
/// no spends, outputs or JoinSplits, and a zeroed binding signature.
pub open spec fn v4_skeleton() -> Seq<u8> {
    le_bytes(0x8000_0004, 4) + le_bytes(0x892F_2085, 4) + seq![0x00u8, 0x00] + le_bytes(0, 4)
        + le_bytes(0, 4) + le_bytes(0, 8) + seq![0x00u8, 0x00, 0x00] + zeros(64)
}

/// A minimal v5 (NU5) transaction: header 0x80000005, version group
/// 0x26A7270A, branch 0xC2D6D0B4, zero lock time and expiry, no inputs,
/// outputs or Sapling spends/outputs, zero value balance and no Orchard actions.
pub open spec fn v5_skeleton() -> Seq<u8> {
    le_bytes(0x8000_0005, 4) + le_bytes(0x26A7_270A, 4) + le_bytes(0xC2D6_D0B4, 4) + le_bytes(0, 4)
        + le_bytes(0, 4) + seq![0x00u8, 0x00, 0x00, 0x00] + le_bytes(0, 8) + seq![0x00u8]
}

/// Build a minimal v4 transaction skeleton.
pub fn minimal_v4_tx() -> (v: Vec<u8>)
    ensures
        v@ == v4_skeleton(),
{
    let mut v: Vec<u8> = Vec::new();
    write_u32_le(&mut v, 0x8000_0004);
    write_u32_le(&mut v, 0x892F_2085);
    v.push(0x00);
    v.push(0x00);
    write_u32_le(&mut v, 0);
    write_u32_le(&mut v, 0);
    write_i64_le(&mut v, 0);
    v.push(0x00);
    v.push(0x00);
    v.push(0x00);
    push_repeat(&mut v, 0, 64);
    assert(v@ =~= v4_skeleton());
    v
}

/// Build a minimal v5 transaction skeleton.
pub fn minimal_v5_tx() -> (v: Vec<u8>)
    ensures
        v@ == v5_skeleton(),
{
    let mut v: Vec<u8> = Vec::new();
    write_u32_le(&mut v, 0x8000_0005);
    write_u32_le(&mut v, 0x26A7_270A);
    write_u32_le(&mut v, 0xC2D6_D0B4);
    write_u32_le(&mut v, 0);
    write_u32_le(&mut v, 0);
    v.push(0x00);
    v.push(0x00);
    v.push(0x00);
    v.push(0x00);
    write_i64_le(&mut v, 0);
    v.push(0x00);
    assert(v@ =~= v5_skeleton());
    v
}

/// The result of a deserialise / re-serialise / deserialise round trip.
#[derive(Clone, Copy, Debug, PartialEq, Eq, Structural)]
pub enum RoundTripOutcome {
    /// The input does not deserialise: nothing to check.
    Undecodable,
    /// The value does not re-serialise: nothing to check.
    Unserialisable,
    /// The re-serialised bytes do not deserialise: a bug.
    ReserialisedUndecodable,
    /// The two deserialised values differ: a bug.
    Divergent,
    /// The values agree but the consumed and re-serialised lengths differ: a warning.
    LengthMismatch,
    /// The round trip is lossless.
    Consistent,
}

/// The outcome of a round trip, given which steps succeeded.
pub open spec fn roundtrip_outcome(
    first_decoded: bool,
    serialised: bool,
    second_decoded: bool,
    values_equal: bool,
    consumed: nat,
    serialised_len: nat,
) -> RoundTripOutcome {
    if !first_decoded {
        RoundTripOutcome::Undecodable
    } else if !serialised {
        RoundTripOutcome::Unserialisable
    } else if !second_decoded {
        RoundTripOutcome::ReserialisedUndecodable
    } else if !values_equal {
        RoundTripOutcome::Divergent
    } else if consumed != serialised_len {
        RoundTripOutcome::LengthMismatch
    } else {
        RoundTripOutcome::Consistent
    }
}

/// Decide the outcome of a round trip: whether the input deserialised, the
/// value re-serialised, the re-serialised bytes deserialised, and the two
/// values were equal, with the consumed and re-serialised lengths.
pub fn check_roundtrip_outcome(
    first_decoded: bool,
    serialised: bool,
    second_decoded: bool,
    values_equal: bool,
    consumed: usize,
    serialised_len: usize,
) -> (o: RoundTripOutcome)
    ensures
        o == roundtrip_outcome(
            first_decoded,
            serialised,
            second_decoded,
            values_equal,
            consumed as nat,
            serialised_len as nat,
        ),
{
    if !first_decoded {
        RoundTripOutcome::Undecodable
    } else if !serialised {
        RoundTripOutcome::Unserialisable
    } else if !second_decoded {
        RoundTripOutcome::ReserialisedUndecodable
    } else if !values_equal {
        RoundTripOutcome::Divergent
    } else if consumed != serialised_len {
        RoundTripOutcome::LengthMismatch
    } else {
        RoundTripOutcome::Consistent
    }
}

/// Whether an outcome is a round-trip bug (the harness's divergence flag).
pub fn is_divergence(o: RoundTripOutcome) -> (r: bool)
    ensures
        r == (o == RoundTripOutcome::ReserialisedUndecodable || o == RoundTripOutcome::Divergent),
{
    match o {
        RoundTripOutcome::ReserialisedUndecodable => true,
        RoundTripOutcome::Divergent => true,
        _ => false,
    }
}

} // verus!
