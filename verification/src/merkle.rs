use vstd::prelude::*;

use crate::error::Error;

verus! {

/// One typed operation of a chain-native inclusion proof: a type tag, a
/// key, and opaque proof data.
#[derive(Clone, Debug, PartialEq, Eq)]
pub struct ProofOp {
    pub field_type: String,
    pub key: Vec<u8>,
    pub data: Vec<u8>,
}

impl View for ProofOp {
    type V = (Seq<char>, Seq<u8>, Seq<u8>);

    open spec fn view(&self) -> (Seq<char>, Seq<u8>, Seq<u8>) {
        (self.field_type@, self.key@, self.data@)
    }
}

/// A chain-native inclusion proof: an ordered list of typed operations.
#[derive(Clone, Debug, PartialEq, Eq)]
pub struct ProofOps {
    pub ops: Vec<ProofOp>,
}

/// The views of a list of proof operations.
pub open spec fn ops_view(s: Seq<ProofOp>) -> Seq<(Seq<char>, Seq<u8>, Seq<u8>)> {
    Seq::new(s.len(), |i: int| s[i]@)
}

/// The protocol's canonical commitment proof: the ordered list of the
/// operations' proof data, each a well-formed canonical commitment-proof
/// encoding, usable for light-client state verification.
#[derive(Clone, Debug, PartialEq, Eq)]
pub struct MerkleProof {
    pub proofs: Vec<Vec<u8>>,
}

impl View for MerkleProof {
    type V = Seq<Seq<u8>>;

    open spec fn view(&self) -> Seq<Seq<u8>> {
        Seq::new(self.proofs@.len(), |i: int| self.proofs@[i]@)
    }
}

/// Whether a byte string is a well-formed canonical commitment proof.
pub uninterp spec fn commitment_proof_wf(data: Seq<u8>) -> bool;

/// Relies on ics23's `CommitmentProof` protobuf decoding (through prost):
/// whether the bytes decode is a function of the bytes alone.
#[verifier::external_body]
fn commitment_proof_decodable(data: &Vec<u8>) -> (r: bool)
    ensures
        r == commitment_proof_wf(data@),
{
    <ics23::CommitmentProof as prost::Message>::decode(&data[..]).is_ok()
}

/// What translating a chain-native proof yields: the field-for-field copy
/// of the operations' data when every operation is well formed for the
/// canonical encoding, an error otherwise.
pub open spec fn spec_translate(ops: Seq<(Seq<char>, Seq<u8>, Seq<u8>)>) -> Option<Seq<Seq<u8>>>
    decreases ops.len(),
{
    if ops.len() == 0 {
        Some(Seq::empty())
    } else {
        match spec_translate(ops.drop_last()) {
            Some(prefix) => if commitment_proof_wf(ops.last().2) {
                Some(prefix.push(ops.last().2))
            } else {
                None
            },
            None => None,
        }
    }
}

/// Translates a chain-native multi-op proof into the canonical
/// commitment-proof structure.
///
/// The translation is a structural re-encoding — each operation's data is
/// copied field-for-field into the canonical operation list; no
/// cryptographic re-verification happens here.  It fails with a proof
/// conversion error if any operation is malformed for the target encoding.
pub fn convert_proof(ops: &ProofOps) -> (r: Result<MerkleProof, Error>)
    ensures
        r is Ok <==> spec_translate(ops_view(ops.ops@)) is Some,
        r is Ok ==> Some(r->Ok_0@) == spec_translate(ops_view(ops.ops@)),
        r is Err ==> r->Err_0 == Error::ProofConversion,
{
    let mut proofs: Vec<Vec<u8>> = Vec::new();
    let n = ops.ops.len();
    let mut i: usize = 0;
    while i < n
        invariant
            0 <= i <= n,
            n == ops.ops@.len(),
            Some(
                Seq::new(proofs@.len(), |j: int| proofs@[j]@),
            ) == spec_translate(ops_view(ops.ops@.subrange(0, i as int))),
        decreases n - i,
    {
        proof {
            assert(ops_view(ops.ops@.subrange(0, i + 1)).drop_last() =~= ops_view(
                ops.ops@.subrange(0, i as int),
            ));
            assert(ops_view(ops.ops@.subrange(0, i + 1)).last() == ops.ops@[i as int]@);
        }
        if !commitment_proof_decodable(&ops.ops[i].data) {
            proof {
                assert(spec_translate(ops_view(ops.ops@.subrange(0, i + 1))) is None);
                assert(ops_view(ops.ops@).subrange(0, i + 1) =~= ops_view(
                    ops.ops@.subrange(0, i + 1),
                ));
                lemma_translate_error_persists(ops_view(ops.ops@), i + 1, ops.ops@.len() as int);
                assert(ops_view(ops.ops@).subrange(0, ops.ops@.len() as int) =~= ops_view(
                    ops.ops@,
                ));
            }
            return Err(Error::ProofConversion);
        }
        proofs.push(ops.ops[i].data.clone());
        proof {
            assert(Seq::new(proofs@.len(), |j: int| proofs@[j]@) =~= spec_translate(
                ops_view(ops.ops@.subrange(0, i + 1)),
            )->Some_0);
        }
        i += 1;
    }
    proof {
        assert(ops.ops@.subrange(0, n as int) =~= ops.ops@);
    }
    let m = MerkleProof { proofs };
    proof {
        assert(m@ =~= spec_translate(ops_view(ops.ops@))->Some_0);
    }
    Ok(m)
}

/// Once translation has failed on a prefix, it fails on the whole.
proof fn lemma_translate_error_persists(ops: Seq<(Seq<char>, Seq<u8>, Seq<u8>)>, i: int, j: int)
    requires
        0 <= i <= j <= ops.len(),
        spec_translate(ops.subrange(0, i)) is None,
    ensures
        spec_translate(ops.subrange(0, j)) is None,
    decreases j - i,
{
    if i < j {
        assert(ops.subrange(0, i + 1).drop_last() =~= ops.subrange(0, i));
        lemma_translate_error_persists(ops, i + 1, j);
    }
}

} // verus!
