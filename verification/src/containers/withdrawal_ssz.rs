//! SSZ for the withdrawal containers with list, bitlist or nested fields.
//!
//! Each container encodes as a head of fixed-size fields and offsets
//! followed by its variable-size fields, decodes by cutting the input along
//! its field layout, and roots to the merkle root of its fields' roots.
use vstd::prelude::*;
use vstd::slice::slice_subrange;

use crate::ssz::codec::SszCodec;
use crate::ssz::container::{
    encode_fixed_field, encode_variable_field, lemma_container_all_fixed,
    lemma_container_part_bounds, lemma_so_far_done, spec_container_encoding, spec_head_pieces,
    spec_head_pos, spec_layout_head_len, spec_layout_matches, spec_ranges_fit, spec_tail_pieces,
    split_container, decode_field, FieldPart,
};
use crate::ssz::merkle::{merkleize_roots, roots_view, spec_merkleize};
use crate::ssz::{Bitlist, Bitvector, DeserializeError, List, MerkleizationError, Node, SerializeError, Vector};

use crate::constants::{DEPOSIT_PROOF_LEN, MAX_BUILDER_DEPOSIT_REQUESTS_PER_PAYLOAD, MAX_BUILDER_EXIT_REQUESTS_PER_PAYLOAD, MAX_CONSOLIDATION_REQUESTS_PER_PAYLOAD, MAX_DEPOSIT_REQUESTS_PER_PAYLOAD, MAX_WITHDRAWAL_REQUESTS_PER_PAYLOAD};
use crate::containers::withdrawal::{BuilderDepositRequest, BuilderExitRequest, ConsolidationRequest, Deposit, DepositData, DepositRequest, ExecutionRequests, WithdrawalRequest};

verus! {

impl Deposit {
    /// The fields' places in the encoding: whether each is variable-size,
    /// and its encoding.
    #[verifier::opaque]
    pub open spec fn spec_parts(&self) -> Seq<FieldPart> {
        seq![
            (false, self.proof.spec_encoding()),
            (false, self.data.spec_encoding()),
        ]
    }

    /// Each field's fixed size, or zero for a variable-size field.
    pub open spec fn spec_layout() -> Seq<usize> {
        seq![1056usize, 184usize]
    }

    /// The SSZ encoding: fixed-size fields and offsets, then variable-size
    /// fields.
    #[verifier::opaque]
    pub open spec fn spec_ssz(&self) -> Seq<u8> {
        spec_container_encoding(self.spec_parts(), 1240)
    }

    /// The hash-tree-roots of the fields in order.
    #[verifier::opaque]
    pub open spec fn spec_field_roots(&self) -> Seq<Seq<u8>> {
        seq![
            self.proof.spec_tree_root(),
            self.data.spec_tree_root(),
        ]
    }

    /// The hash-tree-root: the merkle root of the field roots.
    pub open spec fn spec_root(&self) -> Seq<u8> {
        spec_merkleize(self.spec_field_roots())
    }

    /// Whether every field respects its bounds.
    #[verifier::opaque]
    pub open spec fn spec_fields_wf(&self) -> bool {
        &&& self.proof.spec_wf()
        &&& self.data.spec_wf()
    }

    /// Whether the container has a variable-size encoding.
    pub fn is_variable_size() -> (r: bool)
        ensures
            r == false,
    {
        false
    }

    /// The bytes taken by the fixed-size fields.
    pub fn size_hint() -> (r: usize)
        ensures
            r == 1240,
    {
        1240
    }

    /// Append the encoding.
    #[verifier::spinoff_prover]
    #[verifier::rlimit(100)]
    pub fn serialize(&self, buffer: &mut Vec<u8>) -> (r: Result<usize, SerializeError>)
        requires
            self.spec_fields_wf(),
            self.spec_ssz().len() <= u32::MAX,
        ensures
            r == Ok::<usize, SerializeError>(self.spec_ssz().len() as usize),
            final(buffer)@ == old(buffer)@ + self.spec_ssz(),
    {
        let ghost parts = self.spec_parts();
        proof {
            reveal(Deposit::spec_ssz);
            reveal(Deposit::spec_parts);
            reveal(Deposit::spec_fields_wf);
            assert(parts.len() == 2);
            SszCodec::lemma_shape(&self.proof);
            SszCodec::lemma_shape(&self.data);
            assert(spec_layout_matches(Self::spec_layout(), parts));
            assert(spec_layout_head_len(Self::spec_layout()) == 1240) by {
                reveal_with_fuel(spec_head_pos, 3);
            }
            assert(spec_head_pieces(parts, 1240int).subrange(0, 0) =~= Seq::<Seq<u8>>::empty());
            assert(spec_tail_pieces(parts).subrange(0, 0) =~= Seq::<Seq<u8>>::empty());
        }
        let mut head: Vec<u8> = Vec::new();
        let mut tail: Vec<u8> = Vec::new();
        encode_fixed_field(&self.proof, &mut head, &tail, Ghost(Self::spec_layout()), Ghost(parts), Ghost(0int));
        encode_fixed_field(&self.data, &mut head, &tail, Ghost(Self::spec_layout()), Ghost(parts), Ghost(1int));
        proof {
            reveal(Deposit::spec_ssz);
            reveal(Deposit::spec_parts);
            reveal(Deposit::spec_fields_wf);
            lemma_so_far_done(parts, 1240int);
            assert(head@.len() + tail@.len() == self.spec_ssz().len());
        }
        let n = head.len() + tail.len();
        head.append(&mut tail);
        buffer.append(&mut head);
        Ok(n)
    }

    /// Decode from exactly the given bytes.
    #[verifier::spinoff_prover]
    #[verifier::rlimit(100)]
    pub fn deserialize(encoding: &[u8]) -> (r: Result<Self, DeserializeError>)
        ensures
            r matches Ok(v) ==> v.spec_fields_wf() && v.spec_ssz() == encoding@,
            encoding@.len() <= u32::MAX && (exists|v: Self| v.spec_fields_wf() && #[trigger] v.spec_ssz() == encoding@)
                ==> r is Ok,
    {
        let sizes: [usize; 2] = [1056usize, 184usize];
        proof {
            assert(sizes@ =~= Self::spec_layout());
            lemma_deposit_head_len();
        }
        let ghost has_witness = encoding@.len() <= u32::MAX
            && exists|v: Self| v.spec_fields_wf() && #[trigger] v.spec_ssz() == encoding@;
        let ghost w = choose|v: Self| v.spec_fields_wf() && #[trigger] v.spec_ssz() == encoding@;
        proof {
            if has_witness {
                lemma_deposit_layout(w);
                reveal(Deposit::spec_ssz);
            }
        }
        let ranges = match split_container(encoding, &sizes) {
            Ok(r) => r,
            Err(e) => {
                return Err(e);
            },
        };
        proof {
            if has_witness {
                reveal(Deposit::spec_fields_wf);
                lemma_deposit_fields_fit(encoding@, ranges@, w);
            }
        }
        let proof = match decode_field::<Vector<[u8; 32], DEPOSIT_PROOF_LEN>>(encoding, &ranges, 0, Ghost(if has_witness { Some(w.proof) } else { None })) {
            Ok(x) => x,
            Err(e) => {
                return Err(e);
            },
        };
        let data = match decode_field::<DepositData>(encoding, &ranges, 1, Ghost(if has_witness { Some(w.data) } else { None })) {
            Ok(x) => x,
            Err(e) => {
                return Err(e);
            },
        };
        let v = Deposit { proof, data };
        proof {
            reveal(Deposit::spec_ssz);
            reveal(Deposit::spec_fields_wf);
            assert(v.spec_fields_wf());
            lemma_deposit_layout(v);
            lemma_deposit_fields_fit(encoding@, ranges@, v);
        }
        Ok(v)
    }

    /// The merkle root of the field roots.
    #[verifier::spinoff_prover]
    #[verifier::rlimit(100)]
    pub fn hash_tree_root(&self) -> (r: Result<Node, MerkleizationError>)
        requires
            self.spec_fields_wf(),
        ensures
            r matches Ok(n) && n.0@ == self.spec_root(),
    {
        proof {
            reveal(Deposit::spec_fields_wf);
            reveal(Deposit::spec_field_roots);
        }
        let r0 = self.proof.ssz_root();
        let r1 = self.data.ssz_root();
        let roots = [r0, r1];
        assert(roots_view(roots@) =~= self.spec_field_roots());
        Ok(merkleize_roots(roots.as_slice()))
    }

    /// A container is a composite type.
    pub fn is_composite_type() -> (r: bool)
        ensures
            r,
    {
        true
    }
}

/// The head of a `Deposit` encoding is 1240 bytes.
proof fn lemma_deposit_head_len()
    ensures
        spec_layout_head_len(Deposit::spec_layout()) == 1240,
{
    reveal_with_fuel(spec_head_pos, 3);
}

/// The parts of a `Deposit` fit its field layout.
#[verifier::spinoff_prover]
#[verifier::rlimit(100)]
proof fn lemma_deposit_layout(x: Deposit)
    requires
        x.spec_fields_wf(),
    ensures
        spec_layout_matches(Deposit::spec_layout(), x.spec_parts()),
{
    reveal(Deposit::spec_parts);
    reveal(Deposit::spec_fields_wf);
    SszCodec::lemma_shape(&x.proof);
    SszCodec::lemma_shape(&x.data);
    let parts = x.spec_parts();
    let layout = Deposit::spec_layout();
    assert forall|i: int| 0 <= i < parts.len() implies (#[trigger] parts[i].0 <==> layout[i] == 0)
        && (layout[i] > 0 ==> parts[i].1.len() == layout[i]) by {
        if i == 0 { } else if i == 1 { }
    }
}

/// The parts of a `Deposit` fit byte ranges exactly when each field's
/// encoding is the bytes of its range.
#[verifier::spinoff_prover]
#[verifier::rlimit(100)]
proof fn lemma_deposit_fields_fit(encoding: Seq<u8>, ranges: Seq<(usize, usize)>, v: Deposit)
    requires
        ranges.len() == 2,
    ensures
        spec_ranges_fit(encoding, Deposit::spec_layout(), ranges, v.spec_parts()) ==> (v.proof.spec_encoding() == encoding.subrange(ranges[0].0 as int, ranges[0].1 as int)
            && v.data.spec_encoding() == encoding.subrange(ranges[1].0 as int, ranges[1].1 as int)),
        spec_layout_matches(Deposit::spec_layout(), v.spec_parts()) && (v.proof.spec_encoding() == encoding.subrange(ranges[0].0 as int, ranges[0].1 as int)
            && v.data.spec_encoding() == encoding.subrange(ranges[1].0 as int, ranges[1].1 as int))
            ==> spec_ranges_fit(encoding, Deposit::spec_layout(), ranges, v.spec_parts()),
{
    reveal(Deposit::spec_parts);
    let parts = v.spec_parts();
    if spec_ranges_fit(encoding, Deposit::spec_layout(), ranges, parts) {
        assert(parts[0].1 == encoding.subrange(ranges[0].0 as int, ranges[0].1 as int));
        assert(parts[1].1 == encoding.subrange(ranges[1].0 as int, ranges[1].1 as int));
    }
    if spec_layout_matches(Deposit::spec_layout(), parts) && (v.proof.spec_encoding() == encoding.subrange(ranges[0].0 as int, ranges[0].1 as int)
            && v.data.spec_encoding() == encoding.subrange(ranges[1].0 as int, ranges[1].1 as int)) {
        assert forall|i: int| 0 <= i < parts.len() implies #[trigger] parts[i].1 == encoding.subrange(ranges[i].0 as int, ranges[i].1 as int) by {
            if i == 0 { assert(parts[0].1 == v.proof.spec_encoding()); } else if i == 1 { assert(parts[1].1 == v.data.spec_encoding()); }
        }
    }
}

impl SszCodec for Deposit {
    open spec fn spec_fixed_size() -> Option<nat> {
        Some(1240)
    }

    open spec fn spec_packed() -> bool {
        false
    }

    open spec fn spec_wf(&self) -> bool {
        self.spec_fields_wf()
    }

    open spec fn spec_encoding(&self) -> Seq<u8> {
        self.spec_ssz()
    }

    open spec fn spec_tree_root(&self) -> Seq<u8> {
        self.spec_root()
    }

    proof fn lemma_layout() {
    }

    proof fn lemma_shape(x: &Self) {
        reveal(Deposit::spec_ssz);
        reveal(Deposit::spec_parts);
        reveal(Deposit::spec_fields_wf);
        SszCodec::lemma_shape(&x.proof);
        SszCodec::lemma_shape(&x.data);
        assert(spec_layout_matches(Self::spec_layout(), x.spec_parts()));
        assert(spec_layout_head_len(Self::spec_layout()) == 1240) by {
            reveal_with_fuel(spec_head_pos, 3);
        }
        lemma_container_all_fixed(Self::spec_layout(), x.spec_parts());
    }

    fn ssz_fixed_size() -> (r: Option<usize>) {
        Some(1240)
    }

    fn ssz_packed() -> (r: bool) {
        false
    }

    fn ssz_encode(&self, buffer: &mut Vec<u8>) {
        let _ = self.serialize(buffer);
    }

    fn ssz_decode(bytes: &[u8]) -> (r: Result<Self, DeserializeError>) {
        Self::deserialize(bytes)
    }

    fn ssz_root(&self) -> (r: Node) {
        match self.hash_tree_root() {
            Ok(n) => n,
            Err(_) => Node([0u8; 32]),
        }
    }
}

impl ExecutionRequests {
    /// The fields' places in the encoding: whether each is variable-size,
    /// and its encoding.
    #[verifier::opaque]
    pub open spec fn spec_parts(&self) -> Seq<FieldPart> {
        seq![
            (true, self.deposits.spec_encoding()),
            (true, self.withdrawals.spec_encoding()),
            (true, self.consolidations.spec_encoding()),
            (true, self.builder_deposits.spec_encoding()),
            (true, self.builder_exits.spec_encoding()),
        ]
    }

    /// Each field's fixed size, or zero for a variable-size field.
    pub open spec fn spec_layout() -> Seq<usize> {
        seq![0usize, 0usize, 0usize, 0usize, 0usize]
    }

    /// The SSZ encoding: fixed-size fields and offsets, then variable-size
    /// fields.
    #[verifier::opaque]
    pub open spec fn spec_ssz(&self) -> Seq<u8> {
        spec_container_encoding(self.spec_parts(), 20)
    }

    /// The hash-tree-roots of the fields in order.
    #[verifier::opaque]
    pub open spec fn spec_field_roots(&self) -> Seq<Seq<u8>> {
        seq![
            self.deposits.spec_tree_root(),
            self.withdrawals.spec_tree_root(),
            self.consolidations.spec_tree_root(),
            self.builder_deposits.spec_tree_root(),
            self.builder_exits.spec_tree_root(),
        ]
    }

    /// The hash-tree-root: the merkle root of the field roots.
    pub open spec fn spec_root(&self) -> Seq<u8> {
        spec_merkleize(self.spec_field_roots())
    }

    /// Whether every field respects its bounds.
    #[verifier::opaque]
    pub open spec fn spec_fields_wf(&self) -> bool {
        &&& self.deposits.spec_wf()
        &&& self.withdrawals.spec_wf()
        &&& self.consolidations.spec_wf()
        &&& self.builder_deposits.spec_wf()
        &&& self.builder_exits.spec_wf()
    }

    /// Whether the container has a variable-size encoding.
    pub fn is_variable_size() -> (r: bool)
        ensures
            r == true,
    {
        true
    }

    /// The bytes taken by the fixed-size fields.
    pub fn size_hint() -> (r: usize)
        ensures
            r == 0,
    {
        0
    }

    /// Append the encoding.
    #[verifier::spinoff_prover]
    #[verifier::rlimit(100)]
    pub fn serialize(&self, buffer: &mut Vec<u8>) -> (r: Result<usize, SerializeError>)
        requires
            self.spec_fields_wf(),
            self.spec_ssz().len() <= u32::MAX,
        ensures
            r == Ok::<usize, SerializeError>(self.spec_ssz().len() as usize),
            final(buffer)@ == old(buffer)@ + self.spec_ssz(),
    {
        let ghost parts = self.spec_parts();
        proof {
            reveal(ExecutionRequests::spec_ssz);
            reveal(ExecutionRequests::spec_parts);
            reveal(ExecutionRequests::spec_fields_wf);
            assert(parts.len() == 5);

            assert(spec_layout_matches(Self::spec_layout(), parts));
            assert(spec_layout_head_len(Self::spec_layout()) == 20) by {
                reveal_with_fuel(spec_head_pos, 6);
            }
            assert(spec_head_pieces(parts, 20int).subrange(0, 0) =~= Seq::<Seq<u8>>::empty());
            assert(spec_tail_pieces(parts).subrange(0, 0) =~= Seq::<Seq<u8>>::empty());
        }
        let mut head: Vec<u8> = Vec::new();
        let mut tail: Vec<u8> = Vec::new();
        encode_variable_field(&self.deposits, &mut head, &mut tail, 20, Ghost(Self::spec_layout()), Ghost(parts), Ghost(0int));
        encode_variable_field(&self.withdrawals, &mut head, &mut tail, 20, Ghost(Self::spec_layout()), Ghost(parts), Ghost(1int));
        encode_variable_field(&self.consolidations, &mut head, &mut tail, 20, Ghost(Self::spec_layout()), Ghost(parts), Ghost(2int));
        encode_variable_field(&self.builder_deposits, &mut head, &mut tail, 20, Ghost(Self::spec_layout()), Ghost(parts), Ghost(3int));
        encode_variable_field(&self.builder_exits, &mut head, &mut tail, 20, Ghost(Self::spec_layout()), Ghost(parts), Ghost(4int));
        proof {
            reveal(ExecutionRequests::spec_ssz);
            reveal(ExecutionRequests::spec_parts);
            reveal(ExecutionRequests::spec_fields_wf);
            lemma_so_far_done(parts, 20int);
            assert(head@.len() + tail@.len() == self.spec_ssz().len());
        }
        let n = head.len() + tail.len();
        head.append(&mut tail);
        buffer.append(&mut head);
        Ok(n)
    }

    /// Decode from exactly the given bytes.
    #[verifier::spinoff_prover]
    #[verifier::rlimit(100)]
    pub fn deserialize(encoding: &[u8]) -> (r: Result<Self, DeserializeError>)
        ensures
            r matches Ok(v) ==> v.spec_fields_wf() && v.spec_ssz() == encoding@,
            encoding@.len() <= u32::MAX && (exists|v: Self| v.spec_fields_wf() && #[trigger] v.spec_ssz() == encoding@)
                ==> r is Ok,
    {
        let sizes: [usize; 5] = [0usize, 0usize, 0usize, 0usize, 0usize];
        proof {
            assert(sizes@ =~= Self::spec_layout());
            lemma_execution_requests_head_len();
        }
        let ghost has_witness = encoding@.len() <= u32::MAX
            && exists|v: Self| v.spec_fields_wf() && #[trigger] v.spec_ssz() == encoding@;
        let ghost w = choose|v: Self| v.spec_fields_wf() && #[trigger] v.spec_ssz() == encoding@;
        proof {
            if has_witness {
                lemma_execution_requests_layout(w);
                reveal(ExecutionRequests::spec_ssz);
            }
        }
        let ranges = match split_container(encoding, &sizes) {
            Ok(r) => r,
            Err(e) => {
                return Err(e);
            },
        };
        proof {
            if has_witness {
                reveal(ExecutionRequests::spec_fields_wf);
                lemma_execution_requests_fields_fit(encoding@, ranges@, w);
            }
        }
        let deposits = match decode_field::<List<DepositRequest, MAX_DEPOSIT_REQUESTS_PER_PAYLOAD>>(encoding, &ranges, 0, Ghost(if has_witness { Some(w.deposits) } else { None })) {
            Ok(x) => x,
            Err(e) => {
                return Err(e);
            },
        };
        let withdrawals = match decode_field::<List<WithdrawalRequest, MAX_WITHDRAWAL_REQUESTS_PER_PAYLOAD>>(encoding, &ranges, 1, Ghost(if has_witness { Some(w.withdrawals) } else { None })) {
            Ok(x) => x,
            Err(e) => {
                return Err(e);
            },
        };
        let consolidations = match decode_field::<List<ConsolidationRequest, MAX_CONSOLIDATION_REQUESTS_PER_PAYLOAD>>(encoding, &ranges, 2, Ghost(if has_witness { Some(w.consolidations) } else { None })) {
            Ok(x) => x,
            Err(e) => {
                return Err(e);
            },
        };
        let builder_deposits = match decode_field::<List<BuilderDepositRequest, MAX_BUILDER_DEPOSIT_REQUESTS_PER_PAYLOAD>>(encoding, &ranges, 3, Ghost(if has_witness { Some(w.builder_deposits) } else { None })) {
            Ok(x) => x,
            Err(e) => {
                return Err(e);
            },
        };
        let builder_exits = match decode_field::<List<BuilderExitRequest, MAX_BUILDER_EXIT_REQUESTS_PER_PAYLOAD>>(encoding, &ranges, 4, Ghost(if has_witness { Some(w.builder_exits) } else { None })) {
            Ok(x) => x,
            Err(e) => {
                return Err(e);
            },
        };
        let v = ExecutionRequests { deposits, withdrawals, consolidations, builder_deposits, builder_exits };
        proof {
            reveal(ExecutionRequests::spec_ssz);
            reveal(ExecutionRequests::spec_fields_wf);
            assert(v.spec_fields_wf());
            lemma_execution_requests_layout(v);
            lemma_execution_requests_fields_fit(encoding@, ranges@, v);
        }
        Ok(v)
    }

    /// The merkle root of the field roots.
    #[verifier::spinoff_prover]
    #[verifier::rlimit(100)]
    pub fn hash_tree_root(&self) -> (r: Result<Node, MerkleizationError>)
        requires
            self.spec_fields_wf(),
        ensures
            r matches Ok(n) && n.0@ == self.spec_root(),
    {
        proof {
            reveal(ExecutionRequests::spec_fields_wf);
            reveal(ExecutionRequests::spec_field_roots);
        }
        let r0 = self.deposits.ssz_root();
        let r1 = self.withdrawals.ssz_root();
        let r2 = self.consolidations.ssz_root();
        let r3 = self.builder_deposits.ssz_root();
        let r4 = self.builder_exits.ssz_root();
        let roots = [r0, r1, r2, r3, r4];
        assert(roots_view(roots@) =~= self.spec_field_roots());
        Ok(merkleize_roots(roots.as_slice()))
    }

    /// A container is a composite type.
    pub fn is_composite_type() -> (r: bool)
        ensures
            r,
    {
        true
    }
}

/// The head of a `ExecutionRequests` encoding is 20 bytes.
proof fn lemma_execution_requests_head_len()
    ensures
        spec_layout_head_len(ExecutionRequests::spec_layout()) == 20,
{
    reveal_with_fuel(spec_head_pos, 6);
}

/// The parts of a `ExecutionRequests` fit its field layout.
#[verifier::spinoff_prover]
#[verifier::rlimit(100)]
proof fn lemma_execution_requests_layout(x: ExecutionRequests)
    requires
        x.spec_fields_wf(),
    ensures
        spec_layout_matches(ExecutionRequests::spec_layout(), x.spec_parts()),
{
    reveal(ExecutionRequests::spec_parts);
    reveal(ExecutionRequests::spec_fields_wf);

    let parts = x.spec_parts();
    let layout = ExecutionRequests::spec_layout();
    assert forall|i: int| 0 <= i < parts.len() implies (#[trigger] parts[i].0 <==> layout[i] == 0)
        && (layout[i] > 0 ==> parts[i].1.len() == layout[i]) by {
        if i == 0 { } else if i == 1 { } else if i == 2 { } else if i == 3 { } else if i == 4 { }
    }
}

/// The parts of a `ExecutionRequests` fit byte ranges exactly when each field's
/// encoding is the bytes of its range.
#[verifier::spinoff_prover]
#[verifier::rlimit(100)]
proof fn lemma_execution_requests_fields_fit(encoding: Seq<u8>, ranges: Seq<(usize, usize)>, v: ExecutionRequests)
    requires
        ranges.len() == 5,
    ensures
        spec_ranges_fit(encoding, ExecutionRequests::spec_layout(), ranges, v.spec_parts()) ==> (v.deposits.spec_encoding() == encoding.subrange(ranges[0].0 as int, ranges[0].1 as int)
            && v.withdrawals.spec_encoding() == encoding.subrange(ranges[1].0 as int, ranges[1].1 as int)
            && v.consolidations.spec_encoding() == encoding.subrange(ranges[2].0 as int, ranges[2].1 as int)
            && v.builder_deposits.spec_encoding() == encoding.subrange(ranges[3].0 as int, ranges[3].1 as int)
            && v.builder_exits.spec_encoding() == encoding.subrange(ranges[4].0 as int, ranges[4].1 as int)),
        spec_layout_matches(ExecutionRequests::spec_layout(), v.spec_parts()) && (v.deposits.spec_encoding() == encoding.subrange(ranges[0].0 as int, ranges[0].1 as int)
            && v.withdrawals.spec_encoding() == encoding.subrange(ranges[1].0 as int, ranges[1].1 as int)
            && v.consolidations.spec_encoding() == encoding.subrange(ranges[2].0 as int, ranges[2].1 as int)
            && v.builder_deposits.spec_encoding() == encoding.subrange(ranges[3].0 as int, ranges[3].1 as int)
            && v.builder_exits.spec_encoding() == encoding.subrange(ranges[4].0 as int, ranges[4].1 as int))
            ==> spec_ranges_fit(encoding, ExecutionRequests::spec_layout(), ranges, v.spec_parts()),
{
    reveal(ExecutionRequests::spec_parts);
    let parts = v.spec_parts();
    if spec_ranges_fit(encoding, ExecutionRequests::spec_layout(), ranges, parts) {
        assert(parts[0].1 == encoding.subrange(ranges[0].0 as int, ranges[0].1 as int));
        assert(parts[1].1 == encoding.subrange(ranges[1].0 as int, ranges[1].1 as int));
        assert(parts[2].1 == encoding.subrange(ranges[2].0 as int, ranges[2].1 as int));
        assert(parts[3].1 == encoding.subrange(ranges[3].0 as int, ranges[3].1 as int));
        assert(parts[4].1 == encoding.subrange(ranges[4].0 as int, ranges[4].1 as int));
    }
    if spec_layout_matches(ExecutionRequests::spec_layout(), parts) && (v.deposits.spec_encoding() == encoding.subrange(ranges[0].0 as int, ranges[0].1 as int)
            && v.withdrawals.spec_encoding() == encoding.subrange(ranges[1].0 as int, ranges[1].1 as int)
            && v.consolidations.spec_encoding() == encoding.subrange(ranges[2].0 as int, ranges[2].1 as int)
            && v.builder_deposits.spec_encoding() == encoding.subrange(ranges[3].0 as int, ranges[3].1 as int)
            && v.builder_exits.spec_encoding() == encoding.subrange(ranges[4].0 as int, ranges[4].1 as int)) {
        assert forall|i: int| 0 <= i < parts.len() implies #[trigger] parts[i].1 == encoding.subrange(ranges[i].0 as int, ranges[i].1 as int) by {
            if i == 0 { assert(parts[0].1 == v.deposits.spec_encoding()); } else if i == 1 { assert(parts[1].1 == v.withdrawals.spec_encoding()); } else if i == 2 { assert(parts[2].1 == v.consolidations.spec_encoding()); } else if i == 3 { assert(parts[3].1 == v.builder_deposits.spec_encoding()); } else if i == 4 { assert(parts[4].1 == v.builder_exits.spec_encoding()); }
        }
    }
}

impl SszCodec for ExecutionRequests {
    open spec fn spec_fixed_size() -> Option<nat> {
        None
    }

    open spec fn spec_packed() -> bool {
        false
    }

    open spec fn spec_wf(&self) -> bool {
        self.spec_fields_wf()
    }

    open spec fn spec_encoding(&self) -> Seq<u8> {
        self.spec_ssz()
    }

    open spec fn spec_tree_root(&self) -> Seq<u8> {
        self.spec_root()
    }

    proof fn lemma_layout() {
    }

    proof fn lemma_shape(x: &Self) {

    }

    fn ssz_fixed_size() -> (r: Option<usize>) {
        None
    }

    fn ssz_packed() -> (r: bool) {
        false
    }

    fn ssz_encode(&self, buffer: &mut Vec<u8>) {
        let _ = self.serialize(buffer);
    }

    fn ssz_decode(bytes: &[u8]) -> (r: Result<Self, DeserializeError>) {
        Self::deserialize(bytes)
    }

    fn ssz_root(&self) -> (r: Node) {
        match self.hash_tree_root() {
            Ok(n) => n,
            Err(_) => Node([0u8; 32]),
        }
    }
}

} // verus!
