//! Tasks, task types, and the artifact produced for one sub-input.

use vstd::prelude::*;
use vstd::string::StringExecFns;
use crate::hashing::{hash_bytes, hex_of, keccak256_of};

verus! {

/// An artifact produced by the external computation engine for one sub-input,
/// represented by its canonical serialized byte form. The pipeline never looks
/// inside an artifact except to hash these bytes.
pub struct Proof {
    pub bytes: Vec<u8>,
}

impl View for Proof {
    type V = Seq<u8>;

    open spec fn view(&self) -> Seq<u8> {
        self.bytes@
    }
}

impl Clone for Proof {
    fn clone(&self) -> (r: Self)
        ensures
            r@ == self@,
    {
        Proof { bytes: self.bytes.clone() }
    }
}

/// The combination-policy tag of a task.
#[derive(Clone, Copy, PartialEq, Eq, Structural)]
pub enum TaskType {
    Individual,
    ProofHash,
    AllProofHashes,
}

/// A unit of work: a program identifier, a combination-policy tag, and an
/// ordered sequence of raw sub-input byte buffers. Immutable once handed to
/// the pipeline.
pub struct Task {
    pub program_id: String,
    pub task_type: TaskType,
    pub inputs: Vec<Vec<u8>>,
}

/// The concatenation of the characters of a sequence of strings, in order.
pub open spec fn concat_chars(strings: Seq<String>) -> Seq<char>
    decreases strings.len(),
{
    if strings.len() == 0 {
        Seq::empty()
    } else {
        concat_chars(strings.drop_last()) + strings.last()@
    }
}

impl Task {
    /// The raw sub-input buffers, in origin-index order.
    pub fn all_inputs(&self) -> (r: &[Vec<u8>])
        ensures
            r@ == self.inputs@,
    {
        self.inputs.as_slice()
    }

    /// The deterministic, order-sensitive combination primitive: the
    /// Keccak-256 hash of the UTF-8 bytes of the concatenated hash strings,
    /// in lowercase hexadecimal. The same ordered list always yields the same
    /// result.
    pub fn combine_proof_hashes(proof_hashes: &[String]) -> (r: String)
        ensures
            r@ == hex_of(keccak256_of(vstd::utf8::encode_utf8(concat_chars(proof_hashes@)))),
            r@.len() == 64,
    {
        let mut joined = String::new();
        let mut i: usize = 0;
        while i < proof_hashes.len()
            invariant
                i <= proof_hashes@.len(),
                joined@ == concat_chars(proof_hashes@.take(i as int)),
            decreases proof_hashes@.len() - i,
        {
            joined.append(proof_hashes[i].as_str());
            proof {
                assert(proof_hashes@.take(i + 1).drop_last() =~= proof_hashes@.take(i as int));
                assert(proof_hashes@.take(i + 1).last() == proof_hashes@[i as int]);
            }
            i = i + 1;
        }
        proof {
            assert(proof_hashes@.take(proof_hashes@.len() as int) =~= proof_hashes@);
        }
        hash_bytes(joined.as_str().as_bytes())
    }
}

} // verus!
