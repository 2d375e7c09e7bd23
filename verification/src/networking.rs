//! Wire-facing helpers for gossip topics and req/resp protocol IDs.
use vstd::arithmetic::power::pow;
use vstd::prelude::*;

use crate::constants::FULU_FORK_EPOCH;
use crate::containers::chain::{
    get_blob_parameters, spec_blob_parameters_in, spec_blob_schedule, ForkData,
};
use crate::error::TransitionError;
use crate::gossip::{compute_fork_version, spec_fork_version_byte};
use crate::primitives::{Epoch, ForkDigest, Root, SubnetId};
use crate::ssz::basic::spec_u64_le;
use crate::ssz::merkle::{sha256_digest, spec_merkleize, spec_merkleize_bytes, spec_sha256};

verus! {

/// Req/Resp protocol for block range requests.
pub const BEACON_BLOCKS_BY_RANGE_V2_PROTOCOL_ID: &'static str =
    "/eth2/beacon_chain/req/beacon_blocks_by_range/2/ssz_snappy";

/// Req/Resp protocol for block root requests.
pub const BEACON_BLOCKS_BY_ROOT_V2_PROTOCOL_ID: &'static str =
    "/eth2/beacon_chain/req/beacon_blocks_by_root/2/ssz_snappy";

/// Req/Resp protocol for execution payload envelope range requests.
pub const EXECUTION_PAYLOAD_ENVELOPES_BY_RANGE_V1_PROTOCOL_ID: &'static str =
    "/eth2/beacon_chain/req/execution_payload_envelopes_by_range/1/ssz_snappy";

/// Req/Resp protocol for execution payload envelope root requests.
pub const EXECUTION_PAYLOAD_ENVELOPES_BY_ROOT_V1_PROTOCOL_ID: &'static str =
    "/eth2/beacon_chain/req/execution_payload_envelopes_by_root/1/ssz_snappy";

/// Gossip encoding suffix used by consensus topics.
pub const GOSSIP_ENCODING_SSZ_SNAPPY: &'static str = "ssz_snappy";

/// Gossip topic name for beacon blocks.
pub const BEACON_BLOCK_TOPIC: &'static str = "beacon_block";

/// Gossip topic name for execution payload bids.
pub const EXECUTION_PAYLOAD_BID_TOPIC: &'static str = "execution_payload_bid";

/// Gossip topic name for execution payload envelopes.
pub const EXECUTION_PAYLOAD_TOPIC: &'static str = "execution_payload";

/// Gossip topic name for payload attestation messages.
pub const PAYLOAD_ATTESTATION_MESSAGE_TOPIC: &'static str = "payload_attestation_message";

/// Gossip topic name for proposer preferences.
pub const PROPOSER_PREFERENCES_TOPIC: &'static str = "proposer_preferences";

/// Gossip topic name for aggregate attestations and proofs.
pub const BEACON_AGGREGATE_AND_PROOF_TOPIC: &'static str = "beacon_aggregate_and_proof";

/// Gossip topic name stem for column sidecars, suffixed with the subnet id.
pub const DATA_COLUMN_SIDECAR_TOPIC: &'static str = "data_column_sidecar";

/// The lowercase hexadecimal digit for `n < 16`.
pub open spec fn spec_hex_digit(n: u8) -> char {
    if n < 10 {
        (48 + n) as char
    } else {
        (87 + n) as char
    }
}

/// Lowercase hex of `bytes`, two digits per byte, high nibble first.
pub open spec fn spec_hex(bytes: Seq<u8>) -> Seq<char>
    decreases bytes.len(),
{
    if bytes.len() == 0 {
        Seq::empty()
    } else {
        let last = bytes.last();
        spec_hex(bytes.drop_last()) + seq![spec_hex_digit(last / 16), spec_hex_digit(last % 16)]
    }
}

/// Decimal digits of `n`, most significant first, without leading zeros.
pub open spec fn spec_decimal(n: u64) -> Seq<char>
    decreases n,
{
    if n < 10 {
        seq![spec_hex_digit(n as u8)]
    } else {
        spec_decimal(n / 10) + seq![spec_hex_digit((n % 10) as u8)]
    }
}

/// The gossip topic path `/eth2/<digest hex>/<name>/ssz_snappy`.
pub open spec fn spec_gossip_topic(fork_digest: ForkDigest, name: Seq<char>) -> Seq<char> {
    "/eth2/"@ + spec_hex(fork_digest.0@) + "/"@ + name + "/"@ + GOSSIP_ENCODING_SSZ_SNAPPY@
}

/// The one-character string for a digit value below 16.
fn digit_str(n: u8) -> (r: &'static str)
    requires
        n < 16,
    ensures
        r@ == seq![spec_hex_digit(n)],
{
    proof {
        reveal_strlit("0");
        reveal_strlit("1");
        reveal_strlit("2");
        reveal_strlit("3");
        reveal_strlit("4");
        reveal_strlit("5");
        reveal_strlit("6");
        reveal_strlit("7");
        reveal_strlit("8");
        reveal_strlit("9");
        reveal_strlit("a");
        reveal_strlit("b");
        reveal_strlit("c");
        reveal_strlit("d");
        reveal_strlit("e");
        reveal_strlit("f");
    }
    let r = match n {
        0 => "0",
        1 => "1",
        2 => "2",
        3 => "3",
        4 => "4",
        5 => "5",
        6 => "6",
        7 => "7",
        8 => "8",
        9 => "9",
        10 => "a",
        11 => "b",
        12 => "c",
        13 => "d",
        14 => "e",
        _ => "f",
    };
    assert(r@ =~= seq![spec_hex_digit(n)]);
    r
}

/// Build a gossip topic path for `name` and `fork_digest`.
pub fn gossip_topic(fork_digest: ForkDigest, name: &str) -> (r: String)
    ensures
        r@ == spec_gossip_topic(fork_digest, name@),
{
    let hex = fork_digest_hex(fork_digest);
    let mut out = String::new();
    out.append("/eth2/");
    out.append(hex.as_str());
    out.append("/");
    out.append(name);
    out.append("/");
    out.append(GOSSIP_ENCODING_SSZ_SNAPPY);
    assert(out@ =~= spec_gossip_topic(fork_digest, name@));
    out
}

/// Lowercase hex string for a `ForkDigest`.
pub fn fork_digest_hex(fork_digest: ForkDigest) -> (r: String)
    ensures
        r@ == spec_hex(fork_digest.0@),
{
    let mut out = String::new();
    let mut i: usize = 0;
    while i < 4
        invariant
            i <= 4,
            out@ == spec_hex(fork_digest.0@.subrange(0, i as int)),
        decreases 4 - i,
    {
        let byte = fork_digest.0[i];
        out.append(digit_str(byte / 16));
        out.append(digit_str(byte % 16));
        assert(fork_digest.0@.subrange(0, i + 1).drop_last() =~= fork_digest.0@.subrange(0, i as int));
        i = i + 1;
    }
    assert(fork_digest.0@.subrange(0, 4) =~= fork_digest.0@);
    out
}

/// Decimal string of `n`.
fn decimal_string(n: u64) -> (r: String)
    ensures
        r@ == spec_decimal(n),
    decreases n,
{
    if n < 10 {
        let mut out = String::new();
        out.append(digit_str(n as u8));
        assert(out@ =~= spec_decimal(n));
        out
    } else {
        let mut out = decimal_string(n / 10);
        out.append(digit_str((n % 10) as u8));
        assert(out@ =~= spec_decimal(n));
        out
    }
}

/// Topic path for beacon blocks under `fork_digest`.
pub fn beacon_block_topic(fork_digest: ForkDigest) -> (r: String)
    ensures
        r@ == spec_gossip_topic(fork_digest, BEACON_BLOCK_TOPIC@),
{
    gossip_topic(fork_digest, BEACON_BLOCK_TOPIC)
}

/// Topic path for aggregate attestations and proofs under `fork_digest`.
pub fn beacon_aggregate_and_proof_topic(fork_digest: ForkDigest) -> (r: String)
    ensures
        r@ == spec_gossip_topic(fork_digest, BEACON_AGGREGATE_AND_PROOF_TOPIC@),
{
    gossip_topic(fork_digest, BEACON_AGGREGATE_AND_PROOF_TOPIC)
}

/// Topic path for execution payload bids under `fork_digest`.
pub fn execution_payload_bid_topic(fork_digest: ForkDigest) -> (r: String)
    ensures
        r@ == spec_gossip_topic(fork_digest, EXECUTION_PAYLOAD_BID_TOPIC@),
{
    gossip_topic(fork_digest, EXECUTION_PAYLOAD_BID_TOPIC)
}

/// Topic path for execution payload envelopes under `fork_digest`.
pub fn execution_payload_topic(fork_digest: ForkDigest) -> (r: String)
    ensures
        r@ == spec_gossip_topic(fork_digest, EXECUTION_PAYLOAD_TOPIC@),
{
    gossip_topic(fork_digest, EXECUTION_PAYLOAD_TOPIC)
}

/// Topic path for payload attestation messages under `fork_digest`.
pub fn payload_attestation_message_topic(fork_digest: ForkDigest) -> (r: String)
    ensures
        r@ == spec_gossip_topic(fork_digest, PAYLOAD_ATTESTATION_MESSAGE_TOPIC@),
{
    gossip_topic(fork_digest, PAYLOAD_ATTESTATION_MESSAGE_TOPIC)
}

/// Topic path for proposer preferences under `fork_digest`.
pub fn proposer_preferences_topic(fork_digest: ForkDigest) -> (r: String)
    ensures
        r@ == spec_gossip_topic(fork_digest, PROPOSER_PREFERENCES_TOPIC@),
{
    gossip_topic(fork_digest, PROPOSER_PREFERENCES_TOPIC)
}

/// Topic path for column sidecars on `subnet_id` under `fork_digest`.
pub fn data_column_sidecar_topic(fork_digest: ForkDigest, subnet_id: SubnetId) -> (r: String)
    ensures
        r@ == spec_gossip_topic(
            fork_digest,
            DATA_COLUMN_SIDECAR_TOPIC@ + "_"@ + spec_decimal(subnet_id.0),
        ),
{
    let mut name = String::new();
    name.append(DATA_COLUMN_SIDECAR_TOPIC);
    name.append("_");
    let digits = decimal_string(subnet_id.0);
    name.append(digits.as_str());
    gossip_topic(fork_digest, name.as_str())
}

/// First four bytes of a digest.
pub fn first_four_bytes(bytes: [u8; 32]) -> (r: [u8; 4])
    ensures
        r@ == bytes@.subrange(0, 4),
{
    let r = [bytes[0], bytes[1], bytes[2], bytes[3]];
    assert(r@ =~= bytes@.subrange(0, 4));
    r
}

/// Hash-tree-root of the fork data `(version, genesis_validators_root)`.
pub open spec fn spec_fork_data_root(version: Seq<u8>, genesis_validators_root: Seq<u8>) -> Seq<u8> {
    spec_merkleize(seq![spec_merkleize_bytes(version), spec_merkleize_bytes(genesis_validators_root)])
}

/// The four-byte fork digest for `genesis_validators_root` at `epoch`: the
/// head of the fork data root, mixed from the Fulu fork on with the hash of
/// the active blob parameters.
pub open spec fn spec_fork_digest(genesis_validators_root: Root, epoch: u64) -> Seq<u8> {
    let version = seq![spec_fork_version_byte(epoch), 0u8, 0u8, 0u8];
    let base = spec_fork_data_root(version, genesis_validators_root.0@);
    if epoch < FULU_FORK_EPOCH {
        base.subrange(0, 4)
    } else {
        let params = spec_blob_parameters_in(spec_blob_schedule(), epoch);
        let mix = spec_sha256(spec_u64_le(params.0) + spec_u64_le(params.1));
        Seq::new(4, |i: int| base[i] ^ mix[i])
    }
}

/// Hash-tree-root of the fork data that separates signing domains.
pub fn compute_fork_data_root(current_version: crate::primitives::Version, genesis_validators_root: Root) -> (r: Root)
    ensures
        r.0@ == spec_fork_data_root(current_version.0@, genesis_validators_root.0@),
{
    let data = ForkData { current_version, genesis_validators_root };
    match data.hash_tree_root() {
        Ok(node) => Root(node.0),
        Err(_) => Root([0u8; 32]),
    }
}

/// Return the fork digest for `genesis_validators_root` at `epoch`.
pub fn compute_fork_digest(genesis_validators_root: Root, epoch: Epoch) -> (r: Result<ForkDigest, TransitionError>)
    ensures
        r matches Ok(d) && d.0@ == spec_fork_digest(genesis_validators_root, epoch.0),
{
    let fork_version = compute_fork_version(epoch);
    let base_digest = compute_fork_data_root(fork_version, genesis_validators_root);
    if epoch.0 < FULU_FORK_EPOCH {
        return Ok(ForkDigest(first_four_bytes(base_digest.0)));
    }
    let blob_parameters = get_blob_parameters(epoch);
    let mut input: Vec<u8> = Vec::new();
    crate::ssz::basic::serialize_u64(blob_parameters.epoch.0, &mut input);
    crate::ssz::basic::serialize_u64(blob_parameters.max_blobs_per_block, &mut input);
    let parameter_digest = sha256_digest(input.as_slice());
    let mut digest = [0u8; 32];
    let mut i: usize = 0;
    while i < 32
        invariant
            i <= 32,
            forall|j: int| 0 <= j < i ==> digest@[j] == base_digest.0@[j] ^ parameter_digest@[j],
        decreases 32 - i,
    {
        digest[i] = base_digest.0[i] ^ parameter_digest[i];
        i = i + 1;
    }
    let d = ForkDigest(first_four_bytes(digest));
    assert(d.0@ =~= spec_fork_digest(genesis_validators_root, epoch.0));
    Ok(d)
}

/// The eight little-endian bytes of `x`, lowest first.
proof fn lemma_u64_le_by_division(x: u64)
    ensures
        spec_u64_le(x) == seq![
            (x % 0x100) as u8,
            ((x / 0x100) % 0x100) as u8,
            ((x / 0x1_0000) % 0x100) as u8,
            ((x / 0x100_0000) % 0x100) as u8,
            ((x / 0x1_0000_0000) % 0x100) as u8,
            ((x / 0x100_0000_0000) % 0x100) as u8,
            ((x / 0x1_0000_0000_0000) % 0x100) as u8,
            ((x / 0x100_0000_0000_0000) % 0x100) as u8,
        ],
{
    assert(((x >> 0) & 0xff) as u8 == (x % 0x100) as u8) by (bit_vector);
    assert(((x >> 8) & 0xff) as u8 == ((x / 0x100) % 0x100) as u8) by (bit_vector);
    assert(((x >> 16) & 0xff) as u8 == ((x / 0x1_0000) % 0x100) as u8) by (bit_vector);
    assert(((x >> 24) & 0xff) as u8 == ((x / 0x100_0000) % 0x100) as u8) by (bit_vector);
    assert(((x >> 32) & 0xff) as u8 == ((x / 0x1_0000_0000) % 0x100) as u8) by (bit_vector);
    assert(((x >> 40) & 0xff) as u8 == ((x / 0x100_0000_0000) % 0x100) as u8) by (bit_vector);
    assert(((x >> 48) & 0xff) as u8 == ((x / 0x1_0000_0000_0000) % 0x100) as u8) by (bit_vector);
    assert(((x >> 56) & 0xff) as u8 == ((x / 0x100_0000_0000_0000) % 0x100) as u8) by (bit_vector);
    assert(spec_u64_le(x) =~= seq![
        (x % 0x100) as u8,
        ((x / 0x100) % 0x100) as u8,
        ((x / 0x1_0000) % 0x100) as u8,
        ((x / 0x100_0000) % 0x100) as u8,
        ((x / 0x1_0000_0000) % 0x100) as u8,
        ((x / 0x100_0000_0000) % 0x100) as u8,
        ((x / 0x1_0000_0000_0000) % 0x100) as u8,
        ((x / 0x100_0000_0000_0000) % 0x100) as u8,
    ]);
}

/// From the Fulu fork on, the fork digest is the first four bytes of the
/// fork data root, each XORed with the SHA-256 digest of the active blob
/// parameters: sixteen bytes, the parameters' epoch and then their blob
/// limit, each little-endian with its lowest byte first.
pub proof fn lemma_fork_digest_mixes_blob_parameters(genesis_validators_root: Root, epoch: u64)
    requires
        epoch >= FULU_FORK_EPOCH,
    ensures
        ({
            let version = seq![spec_fork_version_byte(epoch), 0u8, 0u8, 0u8];
            let base = spec_fork_data_root(version, genesis_validators_root.0@);
            let params = spec_blob_parameters_in(spec_blob_schedule(), epoch);
            let e = params.0;
            let m = params.1;
            let input = Seq::new(
                16,
                |i: int|
                    if i < 8 {
                        ((e as int / pow(256, i as nat)) % 256) as u8
                    } else {
                        ((m as int / pow(256, (i - 8) as nat)) % 256) as u8
                    },
            );
            spec_fork_digest(genesis_validators_root, epoch) == Seq::new(
                4,
                |i: int| base[i] ^ spec_sha256(input)[i],
            )
        }),
{
    let params = spec_blob_parameters_in(spec_blob_schedule(), epoch);
    let e = params.0;
    let m = params.1;
    lemma_u64_le_by_division(e);
    lemma_u64_le_by_division(m);
    reveal_with_fuel(pow, 8);
    let input = Seq::new(
        16,
        |i: int|
            if i < 8 {
                ((e as int / pow(256, i as nat)) % 256) as u8
            } else {
                ((m as int / pow(256, (i - 8) as nat)) % 256) as u8
            },
    );
    assert(pow(256, 0) == 1);
    assert(pow(256, 1) == 0x100);
    assert(pow(256, 2) == 0x1_0000);
    assert(pow(256, 3) == 0x100_0000);
    assert(pow(256, 4) == 0x1_0000_0000);
    assert(pow(256, 5) == 0x100_0000_0000);
    assert(pow(256, 6) == 0x1_0000_0000_0000);
    assert(pow(256, 7) == 0x100_0000_0000_0000);
    assert(spec_u64_le(e) + spec_u64_le(m) =~= input);
}

/// Before the Fulu fork the fork digest is the first four bytes of the fork
/// data root, unmixed.
pub proof fn lemma_fork_digest_before_fulu(genesis_validators_root: Root, epoch: u64)
    requires
        epoch < FULU_FORK_EPOCH,
    ensures
        spec_fork_digest(genesis_validators_root, epoch) == spec_fork_data_root(
            seq![spec_fork_version_byte(epoch), 0u8, 0u8, 0u8],
            genesis_validators_root.0@,
        ).subrange(0, 4),
{
}

/// The blob parameters in force at an epoch: before the first scheduled
/// step, the Electra fork epoch with its blob limit of 9; from epoch 412672,
/// that epoch with a limit of 15; from epoch 419072, that epoch with a limit
/// of 21.
pub proof fn lemma_active_blob_parameters(epoch: u64)
    ensures
        epoch < 412_672 ==> spec_blob_parameters_in(spec_blob_schedule(), epoch) == (364_032u64, 9u64),
        412_672 <= epoch < 419_072 ==> spec_blob_parameters_in(spec_blob_schedule(), epoch) == (412_672u64, 15u64),
        419_072 <= epoch ==> spec_blob_parameters_in(spec_blob_schedule(), epoch) == (419_072u64, 21u64),
{
    let schedule = spec_blob_schedule();
    assert(schedule.drop_last() =~= seq![(412_672u64, 15u64)]);
    assert(schedule.drop_last().drop_last() =~= Seq::<(u64, u64)>::empty());
    reveal_with_fuel(spec_blob_parameters_in, 3);
}

} // verus!
