//! Zcash P2P wire-format helpers: frames, little-endian fields, corpus seeds.

use vstd::prelude::*;
use vstd::slice::slice_subrange;
use vstd::string::StringSliceAdditionalSpecFns;
use byteorder::{LittleEndian, WriteBytesExt};
use bytes::Bytes;
use crate::digest::{hex_encode, hex_lower, sha256_of, sha256d_checksum};

verus! {

/// Zcash mainnet magic bytes.
pub const MAINNET_MAGIC: [u8; 4] = [0x24, 0xe9, 0x27, 0x64];

/// Zcash testnet magic bytes.
pub const TESTNET_MAGIC: [u8; 4] = [0xfa, 0x1a, 0xf9, 0xbf];

/// Maximum P2P message payload size (2 MiB).
pub const MAX_PAYLOAD_SIZE: usize = 2 * 1024 * 1024;

/// Maximum fuzzer input length accepted before truncating.
pub const MAX_FUZZ_INPUT: usize = 65_536;

/// The first `k` bytes of `n` in little-endian order.
pub open spec fn le_bytes(n: nat, k: nat) -> Seq<u8>
    decreases k,
{
    if k == 0 {
        Seq::empty()
    } else {
        seq![(n % 256) as u8] + le_bytes(n / 256, (k - 1) as nat)
    }
}

/// A little-endian encoding of `k` bytes has `k` bytes.
pub proof fn lemma_le_bytes_len(n: nat, k: nat)
    ensures
        le_bytes(n, k).len() == k,
    decreases k,
{
    if k > 0 {
        lemma_le_bytes_len(n / 256, (k - 1) as nat);
    }
}

/// `n` zero bytes.
pub open spec fn zeros(n: nat) -> Seq<u8> {
    Seq::new(n, |i: int| 0u8)
}

/// `n` copies of `b`.
pub open spec fn repeat_byte(b: u8, n: nat) -> Seq<u8> {
    Seq::new(n, |i: int| b)
}

/// Appends a `u32` in little-endian order.
///
/// Calls `byteorder::WriteBytesExt::write_u32::<LittleEndian>` on a `Vec<u8>`,
/// which appends `n.to_le_bytes()`; writing to a `Vec` does not fail.
#[verifier::external_body]
pub(crate) fn write_u32_le(v: &mut Vec<u8>, n: u32)
    ensures
        final(v)@ == old(v)@ + le_bytes(n as nat, 4),
{
    v.write_u32::<LittleEndian>(n).expect("write to Vec never fails");
}

/// Appends a `u64` in little-endian order.
///
/// Calls `byteorder::WriteBytesExt::write_u64::<LittleEndian>` on a `Vec<u8>`,
/// which appends `n.to_le_bytes()`; writing to a `Vec` does not fail.
#[verifier::external_body]
pub(crate) fn write_u64_le(v: &mut Vec<u8>, n: u64)
    ensures
        final(v)@ == old(v)@ + le_bytes(n as nat, 8),
{
    v.write_u64::<LittleEndian>(n).expect("write to Vec never fails");
}

/// Appends an `i32` in little-endian two's complement.
///
/// Calls `byteorder::WriteBytesExt::write_i32::<LittleEndian>` on a `Vec<u8>`,
/// which writes `n as u32` little-endian; writing to a `Vec` does not fail.
#[verifier::external_body]
pub(crate) fn write_i32_le(v: &mut Vec<u8>, n: i32)
    ensures
        final(v)@ == old(v)@ + le_bytes((n as u32) as nat, 4),
{
    v.write_i32::<LittleEndian>(n).expect("write to Vec never fails");
}

/// Appends an `i64` in little-endian two's complement.
///
/// Calls `byteorder::WriteBytesExt::write_i64::<LittleEndian>` on a `Vec<u8>`,
/// which writes `n as u64` little-endian; writing to a `Vec` does not fail.
#[verifier::external_body]
pub(crate) fn write_i64_le(v: &mut Vec<u8>, n: i64)
    ensures
        final(v)@ == old(v)@ + le_bytes((n as u64) as nat, 8),
{
    v.write_i64::<LittleEndian>(n).expect("write to Vec never fails");
}

/// Appends the low `k` bytes of `n`, least significant first.
pub fn push_le(v: &mut Vec<u8>, n: u64, k: usize)
    ensures
        final(v)@ == old(v)@ + le_bytes(n as nat, k as nat),
{
    let mut x = n;
    let mut j: usize = 0;
    assert(old(v)@ + le_bytes(n as nat, k as nat) == v@ + le_bytes(x as nat, (k - j) as nat));
    while j < k
        invariant
            j <= k,
            old(v)@ + le_bytes(n as nat, k as nat) == v@ + le_bytes(x as nat, (k - j) as nat),
        decreases k - j,
    {
        let ghost v0 = v@;
        let ghost x0 = x;
        v.push((x % 256) as u8);
        x = x / 256;
        j = j + 1;
        assert(le_bytes(x0 as nat, (k - j + 1) as nat) == seq![(x0 % 256) as u8] + le_bytes(
            x as nat,
            (k - j) as nat,
        ));
        assert(v0 + le_bytes(x0 as nat, (k - j + 1) as nat) =~= v@ + le_bytes(x as nat, (k - j) as nat));
    }
    assert(v@ + le_bytes(x as nat, 0) =~= v@);
}

/// Appends the bytes of `s`.
pub fn push_all(v: &mut Vec<u8>, s: &[u8])
    ensures
        final(v)@ == old(v)@ + s@,
{
    let mut i: usize = 0;
    while i < s.len()
        invariant
            i <= s@.len(),
            v@ == old(v)@ + s@.take(i as int),
        decreases s.len() - i,
    {
        v.push(s[i]);
        i = i + 1;
        assert(v@ =~= old(v)@ + s@.take(i as int));
    }
    assert(s@.take(i as int) =~= s@);
}

/// Appends `n` copies of `b`.
pub fn push_repeat(v: &mut Vec<u8>, b: u8, n: usize)
    ensures
        final(v)@ == old(v)@ + repeat_byte(b, n as nat),
{
    let mut i: usize = 0;
    while i < n
        invariant
            i <= n,
            v@ == old(v)@ + repeat_byte(b, i as nat),
        decreases n - i,
    {
        v.push(b);
        i = i + 1;
        assert(v@ =~= old(v)@ + repeat_byte(b, i as nat));
    }
}

/// The length field of a frame: the payload length truncated to 32 bits.
pub open spec fn length_field(len: nat) -> Seq<u8> {
    le_bytes(len % 0x1_0000_0000, 4)
}

/// The frame `magic | command | length(4 LE) | checksum(4) | payload`.
pub open spec fn frame_bytes(magic: Seq<u8>, command: Seq<u8>, payload: Seq<u8>) -> Seq<u8> {
    magic + command + length_field(payload.len()) + sha256_of(sha256_of(payload)).take(4) + payload
}

/// Offset of the length field in a frame.
pub const LENGTH_OFFSET: usize = 16;

/// Offset of the checksum in a frame.
pub const CHECKSUM_OFFSET: usize = 20;

/// Length of a frame header.
pub const HEADER_LEN: usize = 24;

/// Build a complete Zcash P2P mainnet frame around `payload`; the checksum is
/// the first 4 bytes of SHA256d(payload).
pub fn build_p2p_frame(command: &[u8; 12], payload: &[u8]) -> (frame: Vec<u8>)
    ensures
        frame@ == frame_bytes(MAINNET_MAGIC@, command@, payload@),
        frame@.len() == HEADER_LEN + payload@.len(),
{
    let mut frame: Vec<u8> = Vec::new();
    push_all(&mut frame, MAINNET_MAGIC.as_slice());
    push_all(&mut frame, command.as_slice());
    let len = (payload.len() as u64 % 0x1_0000_0000) as u32;
    write_u32_le(&mut frame, len);
    let checksum = sha256d_checksum(payload);
    push_all(&mut frame, checksum.as_slice());
    push_all(&mut frame, payload);
    proof {
        lemma_le_bytes_len(len as nat, 4);
    }
    frame
}

/// Build a P2P frame whose first checksum byte is flipped (for negative testing).
pub fn build_p2p_frame_bad_checksum(command: &[u8; 12], payload: &[u8]) -> (frame: Vec<u8>)
    ensures
        frame@ == frame_bytes(MAINNET_MAGIC@, command@, payload@).update(
            CHECKSUM_OFFSET as int,
            frame_bytes(MAINNET_MAGIC@, command@, payload@)[CHECKSUM_OFFSET as int] ^ 0xff,
        ),
{
    let mut frame = build_p2p_frame(command, payload);
    let b = frame[CHECKSUM_OFFSET];
    frame.set(CHECKSUM_OFFSET, b ^ 0xff);
    frame
}

/// Build a P2P frame whose length field reads `u32::MAX` (for length-confusion attacks).
pub fn build_p2p_frame_oversized_len(command: &[u8; 12], payload: &[u8]) -> (frame: Vec<u8>)
    ensures
        frame@ == frame_bytes(MAINNET_MAGIC@, command@, payload@).take(LENGTH_OFFSET as int)
            + repeat_byte(0xff, 4) + frame_bytes(MAINNET_MAGIC@, command@, payload@).skip(
            CHECKSUM_OFFSET as int,
        ),
{
    let mut frame = build_p2p_frame(command, payload);
    let ghost f0 = frame@;
    let mut i: usize = LENGTH_OFFSET;
    while i < CHECKSUM_OFFSET
        invariant
            LENGTH_OFFSET <= i <= CHECKSUM_OFFSET,
            f0.len() >= HEADER_LEN,
            frame@.len() == f0.len(),
            frame@ == f0.take(LENGTH_OFFSET as int) + repeat_byte(0xff, (i - LENGTH_OFFSET) as nat)
                + f0.skip(i as int),
        decreases CHECKSUM_OFFSET - i,
    {
        frame.set(i, 0xff);
        i = i + 1;
        assert(frame@ =~= f0.take(LENGTH_OFFSET as int) + repeat_byte(0xff, (i - LENGTH_OFFSET) as nat)
            + f0.skip(i as int));
    }
    frame
}

/// `data` truncated to at most `MAX_FUZZ_INPUT` bytes.
pub fn clamp_input(data: &[u8]) -> (r: &[u8])
    ensures
        r@ == if data@.len() > MAX_FUZZ_INPUT {
            data@.take(MAX_FUZZ_INPUT as int)
        } else {
            data@
        },
{
    if data.len() > MAX_FUZZ_INPUT {
        slice_subrange(data, 0, MAX_FUZZ_INPUT)
    } else {
        data
    }
}

/// The layout of a frame: magic, command, length field, checksum, then the
/// payload, with a 24-byte header; the checksum is the first four bytes of
/// SHA256d of the payload.
pub proof fn law_frame_layout(magic: Seq<u8>, command: Seq<u8>, payload: Seq<u8>)
    requires
        magic.len() == 4,
        command.len() == 12,
        sha256_of(sha256_of(payload)).len() >= 4,
    ensures
        ({
            let f = frame_bytes(magic, command, payload);
            &&& f.len() == HEADER_LEN + payload.len()
            &&& f.subrange(0, 4) == magic
            &&& f.subrange(4, LENGTH_OFFSET as int) == command
            &&& f.subrange(LENGTH_OFFSET as int, CHECKSUM_OFFSET as int) == length_field(payload.len())
            &&& f.subrange(CHECKSUM_OFFSET as int, HEADER_LEN as int) == sha256_of(sha256_of(payload)).take(4)
            &&& f.skip(HEADER_LEN as int) == payload
        }),
{
    let f = frame_bytes(magic, command, payload);
    lemma_le_bytes_len(payload.len() % 0x1_0000_0000, 4);
    let c = sha256_of(sha256_of(payload)).take(4);
    let l = length_field(payload.len());
    assert(f =~= magic + command + l + c + payload);
    assert(f.subrange(0, 4) =~= magic);
    assert(f.subrange(4, 16) =~= command);
    assert(f.subrange(16, 20) =~= l);
    assert(f.subrange(20, 24) =~= c);
    assert(f.skip(24) =~= payload);
}

/// The frame with a bad checksum differs from the valid frame in exactly one
/// byte, the first checksum byte, so its checksum field is not SHA256d's.
pub proof fn law_bad_checksum_is_wrong(command: Seq<u8>, payload: Seq<u8>)
    requires
        command.len() == 12,
        sha256_of(sha256_of(payload)).len() >= 4,
    ensures
        ({
            let good = frame_bytes(MAINNET_MAGIC@, command, payload);
            let bad = good.update(CHECKSUM_OFFSET as int, good[CHECKSUM_OFFSET as int] ^ 0xff);
            &&& bad.len() == good.len()
            &&& forall|i: int| 0 <= i < good.len() && i != CHECKSUM_OFFSET ==> bad[i] == good[i]
            &&& bad.subrange(CHECKSUM_OFFSET as int, HEADER_LEN as int) != sha256_of(sha256_of(payload)).take(4)
        }),
{
    law_frame_layout(MAINNET_MAGIC@, command, payload);
    let good = frame_bytes(MAINNET_MAGIC@, command, payload);
    let b = good[CHECKSUM_OFFSET as int];
    let bad = good.update(CHECKSUM_OFFSET as int, b ^ 0xff);
    assert(b ^ 0xff != b) by (bit_vector);
    assert(bad.subrange(20, 24)[0] != good.subrange(20, 24)[0]);
}

/// The frame with an oversized length differs from the valid frame only in
/// its length field, which reads `u32::MAX`.
pub proof fn law_oversized_len_layout(command: Seq<u8>, payload: Seq<u8>)
    requires
        command.len() == 12,
        sha256_of(sha256_of(payload)).len() >= 4,
    ensures
        ({
            let good = frame_bytes(MAINNET_MAGIC@, command, payload);
            let over = good.take(LENGTH_OFFSET as int) + repeat_byte(0xff, 4) + good.skip(CHECKSUM_OFFSET as int);
            &&& over.len() == good.len()
            &&& over.subrange(LENGTH_OFFSET as int, CHECKSUM_OFFSET as int) == le_bytes(0xffff_ffff, 4)
            &&& forall|i: int|
                0 <= i < good.len() && !(LENGTH_OFFSET <= i < CHECKSUM_OFFSET) ==> over[i] == good[i]
        }),
{
    law_frame_layout(MAINNET_MAGIC@, command, payload);
    let good = frame_bytes(MAINNET_MAGIC@, command, payload);
    let over = good.take(16) + repeat_byte(0xff, 4) + good.skip(20);
    assert(le_bytes(0xffff_ffff, 4) =~= repeat_byte(0xff, 4)) by {
        reveal_with_fuel(le_bytes, 5);
    }
    assert(over.subrange(16, 20) =~= repeat_byte(0xff, 4));
    assert forall|i: int| 0 <= i < good.len() && !(LENGTH_OFFSET <= i < CHECKSUM_OFFSET) implies over[i] == good[i] by {
        if i >= 20 {
            assert(over[i] == good.skip(20)[i - 20]);
        }
    }
}

/// Clamping keeps a prefix of the input of at most `MAX_FUZZ_INPUT` bytes, and
/// leaves inputs within the limit unchanged.
pub proof fn law_clamp_is_bounded_prefix(data: Seq<u8>)
    ensures
        ({
            let r = if data.len() > MAX_FUZZ_INPUT { data.take(MAX_FUZZ_INPUT as int) } else { data };
            &&& r.len() <= MAX_FUZZ_INPUT
            &&& r == data.take(r.len() as int)
            &&& data.len() <= MAX_FUZZ_INPUT ==> r == data
        }),
{
    if data.len() <= MAX_FUZZ_INPUT {
        assert(data.take(data.len() as int) =~= data);
    }
}

/// The 12-byte command field for `name`: its first 12 bytes, zero-padded.
pub open spec fn command_field(name: Seq<u8>) -> Seq<u8> {
    if name.len() >= 12 {
        name.take(12)
    } else {
        name + zeros((12 - name.len()) as nat)
    }
}

/// The command field for a command name.
pub fn command_bytes(command_str: &str) -> (cmd: [u8; 12])
    ensures
        cmd@ == command_field(command_str.spec_bytes()),
{
    let mut cmd = [0u8; 12];
    let bytes = command_str.as_bytes();
    let len = if bytes.len() < 12 { bytes.len() } else { 12 };
    let mut i: usize = 0;
    while i < len
        invariant
            len <= 12,
            len <= bytes@.len(),
            i <= len,
            bytes@ == command_str.spec_bytes(),
            forall|j: int| 0 <= j < i ==> cmd@[j] == bytes@[j],
            forall|j: int| i <= j < 12 ==> cmd@[j] == 0,
        decreases len - i,
    {
        cmd[i] = bytes[i];
        i = i + 1;
    }
    assert(cmd@ =~= command_field(command_str.spec_bytes()));
    cmd
}

/// Wrap `payload` in a mainnet frame for the command `command_str` (its first
/// 12 bytes, zero-padded).
pub fn wrap_in_frame(command_str: &str, payload: &[u8]) -> (frame: Vec<u8>)
    ensures
        frame@ == frame_bytes(MAINNET_MAGIC@, command_field(command_str.spec_bytes()), payload@),
{
    let cmd = command_bytes(command_str);
    build_p2p_frame(&cmd, payload)
}

/// A minimal valid `version` payload: version 170100, services NODE_NETWORK,
/// timestamp 1700000000, two zeroed network addresses, a fixed nonce, an empty
/// user agent, start height 0 and relay set.
pub open spec fn version_seed() -> Seq<u8> {
    le_bytes(170_100, 4) + le_bytes(1, 8) + le_bytes(1_700_000_000, 8) + zeros(26) + zeros(26)
        + le_bytes(0xdeadbeef_cafebabe, 8) + seq![0x00u8] + le_bytes(0, 4) + seq![0x01u8]
}

/// A minimal valid `ping` payload (8-byte nonce).
pub open spec fn ping_seed() -> Seq<u8> {
    le_bytes(0x1234_5678_9abc_def0, 8)
}

/// A minimal valid `inv` payload with one TX entry.
pub open spec fn inv_seed() -> Seq<u8> {
    seq![0x01u8] + le_bytes(1, 4) + repeat_byte(0xab, 32)
}

/// Return a minimal valid `version` message payload (for corpus seeding).
pub fn seed_version_payload() -> (v: Vec<u8>)
    ensures
        v@ == version_seed(),
{
    let mut v: Vec<u8> = Vec::new();
    write_i32_le(&mut v, 170_100);
    write_u64_le(&mut v, 1);
    write_i64_le(&mut v, 1_700_000_000);
    push_repeat(&mut v, 0, 26);
    push_repeat(&mut v, 0, 26);
    write_u64_le(&mut v, 0xdeadbeef_cafebabe);
    v.push(0x00);
    write_i32_le(&mut v, 0);
    v.push(0x01);
    assert(repeat_byte(0, 26) =~= zeros(26));
    assert(v@ =~= version_seed());
    v
}

/// Return a minimal valid `ping` payload (8-byte nonce).
pub fn seed_ping_payload() -> (v: Vec<u8>)
    ensures
        v@ == ping_seed(),
{
    let mut v: Vec<u8> = Vec::new();
    write_u64_le(&mut v, 0x1234_5678_9abc_def0);
    assert(v@ =~= ping_seed());
    v
}

/// Return a minimal valid `inv` payload with one TX entry.
pub fn seed_inv_payload() -> (v: Vec<u8>)
    ensures
        v@ == inv_seed(),
{
    let mut v: Vec<u8> = Vec::new();
    v.push(0x01);
    write_u32_le(&mut v, 1);
    push_repeat(&mut v, 0xab, 32);
    assert(v@ =~= inv_seed());
    v
}

/// The bytes a `Bytes` buffer holds.
pub uninterp spec fn bytes_content(b: Bytes) -> Seq<u8>;

/// The `bytes` crate's immutable byte buffer.
#[verifier::external_type_specification]
#[verifier::external_body]
pub struct ExBytes(Bytes);

/// A `Bytes` buffer holding a copy of `data`.
///
/// Calls `bytes::Bytes::copy_from_slice`, which builds the buffer from
/// `data.to_vec()`; the contract states that it holds exactly `data`.
#[verifier::external_body]
pub fn as_bytes(data: &[u8]) -> (b: Bytes)
    ensures
        bytes_content(b) == data@,
{
    Bytes::copy_from_slice(data)
}

/// Errors of a round-trip check (deserialise, re-serialise, compare).
#[derive(Debug)]
pub enum RoundTripError {
    /// Deserialisation failed (expected for most fuzz inputs).
    DeserFailed {
        /// The underlying error message.
        reason: String,
    },
    /// Re-serialisation failed (unexpected; indicates a bug).
    SerFailed {
        /// The underlying error message.
        reason: String,
    },
    /// The re-serialised bytes differ from the original (consensus bug candidate).
    Divergence {
        /// Hex-encoded original bytes.
        original: String,
        /// Hex-encoded re-serialised bytes.
        reserialized: String,
    },
}

/// Whether two byte slices are equal.
pub fn bytes_equal(a: &[u8], b: &[u8]) -> (r: bool)
    ensures
        r == (a@ == b@),
{
    if a.len() != b.len() {
        return false;
    }
    let mut i: usize = 0;
    while i < a.len()
        invariant
            a@.len() == b@.len(),
            i <= a@.len(),
            forall|j: int| 0 <= j < i ==> a@[j] == b@[j],
        decreases a.len() - i,
    {
        if a[i] != b[i] {
            return false;
        }
        i = i + 1;
    }
    assert(a@ =~= b@);
    true
}

/// The comparison step of a round-trip check: the consumed prefix of `data`
/// must equal the re-serialised bytes, otherwise both are reported in hex.
pub fn roundtrip_compare(data: &[u8], consumed: usize, serialised: &[u8]) -> (r: Result<(), RoundTripError>)
    requires
        consumed <= data@.len(),
    ensures
        r is Ok <==> data@.take(consumed as int) == serialised@,
        r matches Err(e) ==> (e matches RoundTripError::Divergence { original, reserialized }
            && original@ == hex_lower(data@.take(consumed as int))
            && reserialized@ == hex_lower(serialised@)),
{
    let original_slice = slice_subrange(data, 0, consumed);
    if !bytes_equal(original_slice, serialised) {
        return Err(
            RoundTripError::Divergence {
                original: hex_encode(original_slice),
                reserialized: hex_encode(serialised),
            },
        );
    }
    Ok(())
}

} // verus!
