//! The proving pipeline: task validation, per-unit failure classification and
//! reporting decisions, the bounded-concurrency dispatcher, and the
//! task-type-dependent hash-combination policy.

use vstd::prelude::*;
use vstd::string::StringExecFns;
use crate::hashing::{hash_bytes, hex_char_of, hex_digit_str, hex_of, keccak256_of};
use crate::task::{concat_chars, Proof, Task, TaskType};
use crate::types::ProverError;

verus! {

/// The decimal rendering of a natural number, most significant digit first.
pub open spec fn dec_seq(n: nat) -> Seq<char>
    decreases n,
{
    if n < 10 {
        seq![hex_char_of(n as u8)]
    } else {
        dec_seq(n / 10) + seq![hex_char_of((n % 10) as u8)]
    }
}

/// Renders a number in decimal.
pub fn dec_string(n: usize) -> (r: String)
    ensures
        r@ == dec_seq(n as nat),
    decreases n,
{
    if n < 10 {
        hex_digit_str(n as u8).to_owned()
    } else {
        let mut s = dec_string(n / 10);
        s.append(hex_digit_str((n % 10) as u8));
        s
    }
}

/// The number of filled slots.
pub open spec fn count_some<T>(s: Seq<Option<T>>) -> nat
    decreases s.len(),
{
    if s.len() == 0 {
        0
    } else {
        count_some(s.drop_last()) + (if s.last() is Some {
            1nat
        } else {
            0nat
        })
    }
}

proof fn lemma_count_some_le<T>(s: Seq<Option<T>>)
    ensures
        count_some(s) <= s.len(),
    decreases s.len(),
{
    if s.len() > 0 {
        lemma_count_some_le(s.drop_last());
    }
}

proof fn lemma_count_some_full<T>(s: Seq<Option<T>>)
    requires
        count_some(s) == s.len(),
    ensures
        forall|i: int| 0 <= i < s.len() ==> s[i] is Some,
    decreases s.len(),
{
    if s.len() > 0 {
        lemma_count_some_le(s.drop_last());
        lemma_count_some_full(s.drop_last());
        assert forall|i: int| 0 <= i < s.len() implies s[i] is Some by {
            if i < s.len() - 1 {
                assert(s.drop_last()[i] == s[i]);
            } else {
                assert(s[i] == s.last());
            }
        }
    }
}

proof fn lemma_count_some_update<T>(s: Seq<Option<T>>, i: int, v: T)
    requires
        0 <= i < s.len(),
        s[i] is None,
    ensures
        count_some(s.update(i, Some(v))) == count_some(s) + 1,
    decreases s.len(),
{
    let s2 = s.update(i, Some(v));
    if i == s.len() - 1 {
        assert(s2.drop_last() =~= s.drop_last());
        assert(s2.last() == Some(v));
        assert(s.last() is None);
    } else {
        assert(s2.drop_last() =~= s.drop_last().update(i, Some(v)));
        assert(s2.last() == s.last());
        lemma_count_some_update(s.drop_last(), i, v);
    }
}

/// Collects the results of concurrently processed sub-inputs.
///
/// Each sub-input is started in order of its origin index, at most `budget`
/// at a time, and may complete in any order. The first failure is kept and
/// every later result is discarded; on an all-success run every slot is
/// filled with the artifact and hash of the sub-input of that origin index.
pub struct Dispatcher {
    pub budget: usize,
    pub next_index: usize,
    pub in_flight: usize,
    pub slots: Vec<Option<(Proof, String)>>,
    pub error: Option<ProverError>,
}

impl Dispatcher {
    /// The number of sub-inputs this dispatcher was created for.
    pub open spec fn total(self) -> nat {
        self.slots@.len()
    }

    /// The dispatcher's internal invariant: the budget is at least one, at
    /// most `budget` started units are unresolved, and while no failure has
    /// been seen every started unit is either unresolved or has filled its
    /// slot.
    pub open spec fn wf(self) -> bool {
        &&& self.budget >= 1
        &&& self.next_index <= self.total()
        &&& self.in_flight <= self.budget
        &&& self.in_flight <= self.next_index
        &&& (self.error is None ==> count_some(self.slots@) + self.in_flight == self.next_index)
    }

    /// Whether one more sub-input may be started: none has failed, some
    /// remain, and the concurrency window is not full.
    pub open spec fn spec_can_start(self) -> bool {
        &&& self.error is None
        &&& self.next_index < self.total()
        &&& self.in_flight < self.budget
    }

    /// Whether every started unit has resolved and no further unit will be
    /// started.
    pub open spec fn done(self) -> bool {
        self.in_flight == 0 && (self.error is Some || self.next_index == self.total())
    }

    /// Creates a dispatcher for `total` sub-inputs under the given worker
    /// budget.
    pub fn new(total: usize, num_workers: usize) -> (r: Dispatcher)
        requires
            num_workers >= 1,
        ensures
            r.wf(),
            r.budget == num_workers,
            r.total() == total,
            r.next_index == 0,
            r.in_flight == 0,
            r.error is None,
            forall|i: int| 0 <= i < total ==> r.slots@[i] is None,
    {
        let mut slots: Vec<Option<(Proof, String)>> = Vec::new();
        let mut i: usize = 0;
        while i < total
            invariant
                i <= total,
                slots@.len() == i,
                count_some(slots@) == 0,
                forall|j: int| 0 <= j < i ==> slots@[j] is None,
            decreases total - i,
        {
            let ghost prev = slots@;
            slots.push(None);
            proof {
                assert(slots@.drop_last() =~= prev);
            }
            i = i + 1;
        }
        Dispatcher { budget: num_workers, next_index: 0, in_flight: 0, slots, error: None }
    }

    /// Whether one more sub-input may be started now.
    pub fn can_start(&self) -> (r: bool)
        ensures
            r == self.spec_can_start(),
    {
        self.error.is_none() && self.next_index < self.slots.len() && self.in_flight < self.budget
    }

    /// Starts the next sub-input into the concurrency window and returns its
    /// origin index.
    pub fn start_next(&mut self) -> (r: usize)
        requires
            old(self).wf(),
            old(self).spec_can_start(),
        ensures
            final(self).wf(),
            r == old(self).next_index,
            final(self).next_index == old(self).next_index + 1,
            final(self).in_flight == old(self).in_flight + 1,
            final(self).budget == old(self).budget,
            final(self).slots@ == old(self).slots@,
            final(self).error == old(self).error,
    {
        let i = self.next_index;
        let n = self.slots.len();
        proof {
            assert(i < n);
        }
        self.next_index = i + 1;
        self.in_flight = self.in_flight + 1;
        i
    }

    /// Records the successful completion of the started unit at `index`. If
    /// a failure was already seen, the result is discarded.
    pub fn on_success(&mut self, index: usize, proof: Proof, hash: String)
        requires
            old(self).wf(),
            index < old(self).next_index,
            old(self).in_flight >= 1,
            old(self).error is None ==> old(self).slots@[index as int] is None,
        ensures
            final(self).wf(),
            final(self).budget == old(self).budget,
            final(self).next_index == old(self).next_index,
            final(self).in_flight == old(self).in_flight - 1,
            final(self).error == old(self).error,
            old(self).error is None ==> final(self).slots@ == old(self).slots@.update(
                index as int,
                Some((proof, hash)),
            ),
            old(self).error is Some ==> final(self).slots@ == old(self).slots@,
    {
        self.in_flight = self.in_flight - 1;
        if self.error.is_none() {
            proof {
                lemma_count_some_update(self.slots@, index as int, (proof, hash));
            }
            self.slots[index] = Some((proof, hash));
        }
    }

    /// Records the failed completion of an started unit. The first failure
    /// becomes the dispatcher's result; later failures are discarded.
    pub fn on_failure(&mut self, error: ProverError)
        requires
            old(self).wf(),
            old(self).in_flight >= 1,
        ensures
            final(self).wf(),
            final(self).budget == old(self).budget,
            final(self).next_index == old(self).next_index,
            final(self).in_flight == old(self).in_flight - 1,
            final(self).slots@ == old(self).slots@,
            old(self).error is None ==> final(self).error == Some(error),
            old(self).error is Some ==> final(self).error == old(self).error,
    {
        self.in_flight = self.in_flight - 1;
        if self.error.is_none() {
            self.error = Some(error);
        }
    }

    /// Whether every started unit has resolved and no further unit will be
    /// started.
    pub fn is_done(&self) -> (r: bool)
        ensures
            r == self.done(),
    {
        self.in_flight == 0 && (self.error.is_some() || self.next_index == self.slots.len())
    }

    /// Resolves the dispatch: the first failure if any unit failed, otherwise
    /// the artifacts and per-input hashes in origin-index order together
    /// with the combined task hash.
    pub fn finish(self, task: &Task) -> (r: Result<(Vec<Proof>, String, Vec<String>), ProverError>)
        requires
            self.wf(),
            self.done(),
        ensures
            match r {
                Ok(out) => {
                    &&& self.error is None
                    &&& out.0@.len() == self.total()
                    &&& out.2@.len() == self.total()
                    &&& forall|i: int| 0 <= i < self.total() ==> (#[trigger] self.slots@[i]) is Some
                    &&& forall|i: int|
                        0 <= i < self.total() ==> (#[trigger] out.0@[i])@
                            == self.slots@[i]->Some_0.0@
                    &&& forall|i: int|
                        0 <= i < self.total() ==> (#[trigger] out.2@[i]) == self.slots@[i]->Some_0.1
                    &&& out.1@ == ProvingPipeline::spec_task_hash(task.task_type, out.2@)
                },
                Err(e) => self.error == Some(e),
            },
    {
        match self.error {
            Some(e) => Err(e),
            None => {
                proof {
                    lemma_count_some_full(self.slots@);
                }
                let mut proofs: Vec<Proof> = Vec::new();
                let mut hashes: Vec<String> = Vec::new();
                let mut i: usize = 0;
                while i < self.slots.len()
                    invariant
                        i <= self.slots@.len(),
                        proofs@.len() == i,
                        hashes@.len() == i,
                        forall|j: int| 0 <= j < self.slots@.len() ==> self.slots@[j] is Some,
                        forall|j: int|
                            0 <= j < i ==> (#[trigger] proofs@[j])@ == self.slots@[j]->Some_0.0@,
                        forall|j: int|
                            0 <= j < i ==> #[trigger] hashes@[j] == self.slots@[j]->Some_0.1,
                    decreases self.slots@.len() - i,
                {
                    match &self.slots[i] {
                        Some(pair) => {
                            proofs.push(pair.0.clone());
                            hashes.push(pair.1.clone());
                        },
                        None => {
                            proof {
                                assert(false);
                            }
                        },
                    }
                    i = i + 1;
                }
                proof {
                    assert forall|j: int|
                        0 <= j < self.slots@.len() implies proofs@[j]@
                        == self.slots@[j]->Some_0.0@ by {
                        assert(proofs@[j]@ == self.slots@[j]->Some_0.0@);
                    }
                }
                let task_hash = ProvingPipeline::combine_proof_hashes(task, hashes.as_slice());
                Ok((proofs, task_hash, hashes))
            },
        }
    }
}

/// Orchestrates the complete proving pipeline.
pub struct ProvingPipeline;

impl ProvingPipeline {
    /// Whether a program identifier is recognized by the pipeline.
    pub open spec fn supported_program(id: Seq<char>) -> bool {
        id == "fib_input_initial"@
    }

    /// Rejects a task whose program identifier is unrecognized or whose
    /// sub-input sequence is empty, before any engine work. Exactly the
    /// remaining tasks pass.
    pub fn validate_task(task: &Task) -> (r: Result<(), ProverError>)
        ensures
            match r {
                Ok(_) => Self::supported_program(task.program_id@) && task.inputs@.len() > 0,
                Err(e) => {
                    &&& !Self::supported_program(task.program_id@) || task.inputs@.len() == 0
                    &&& !Self::supported_program(task.program_id@) ==> (e matches
                        ProverError::MalformedTask(m) && m@ == "Unsupported program ID: "@
                        + task.program_id@)
                    &&& Self::supported_program(task.program_id@) ==> (e matches
                        ProverError::MalformedTask(m) && m@ == "No inputs provided for task"@)
                },
            },
    {
        let expected: String = "fib_input_initial".to_owned();
        if !task.program_id.eq(&expected) {
            let mut m: String = "Unsupported program ID: ".to_owned();
            m.append(task.program_id.as_str());
            Err(ProverError::MalformedTask(m))
        } else if task.inputs.len() == 0 {
            Err(ProverError::MalformedTask("No inputs provided for task".to_owned()))
        } else {
            Ok(())
        }
    }

    /// Hashes one artifact: the Keccak-256 digest of its canonical bytes in
    /// lowercase hexadecimal. Identical artifact bytes always yield the same
    /// hash string.
    pub fn generate_proof_hash(proof: &Proof) -> (r: String)
        ensures
            r@ == hex_of(keccak256_of(proof@)),
            r@.len() == 64,
    {
        hash_bytes(proof.bytes.as_slice())
    }

    /// Hash determinism: any two results of hashing artifacts with identical
    /// canonical bytes are identical hash strings, within a run and across
    /// runs and machines.
    pub proof fn lemma_proof_hash_deterministic(p1: Proof, p2: Proof, h1: String, h2: String)
        requires
            p1@ == p2@,
            call_ensures(Self::generate_proof_hash, (&p1,), h1),
            call_ensures(Self::generate_proof_hash, (&p2,), h2),
        ensures
            h1@ == h2@,
    {
    }

    /// The task hash required by the combination policy: the combined hash of
    /// the full ordered list for `ProofHash` and `AllProofHashes` tasks, and
    /// the first per-input hash (or empty, if there is none) otherwise.
    pub open spec fn spec_task_hash(task_type: TaskType, hashes: Seq<String>) -> Seq<char> {
        match task_type {
            TaskType::AllProofHashes | TaskType::ProofHash => hex_of(
                keccak256_of(vstd::utf8::encode_utf8(concat_chars(hashes))),
            ),
            _ => if hashes.len() == 0 {
                Seq::empty()
            } else {
                hashes[0]@
            },
        }
    }

    /// Combines the ordered per-input hashes into the task hash according to
    /// the task's combination-policy tag.
    pub fn combine_proof_hashes(task: &Task, proof_hashes: &[String]) -> (r: String)
        ensures
            r@ == Self::spec_task_hash(task.task_type, proof_hashes@),
    {
        match task.task_type {
            TaskType::AllProofHashes | TaskType::ProofHash => Task::combine_proof_hashes(
                proof_hashes,
            ),
            _ => if proof_hashes.len() == 0 {
                String::new()
            } else {
                proof_hashes[0].clone()
            },
        }
    }

    /// The text of a detached failure report for the unit at `index`.
    pub open spec fn spec_failure_message(index: nat, e: ProverError) -> Seq<char> {
        "Input "@ + dec_seq(index) + ": "@ + e.spec_message()
    }

    /// Decides whether a unit's failure is reported: computation failures and
    /// guest-program failures yield exactly one report message, embedding the
    /// unit's origin index; any other error kind yields none.
    pub fn report_for_failure(e: &ProverError, input_index: usize) -> (r: Option<String>)
        ensures
            match r {
                Some(m) => e.spec_should_report() && m@ == Self::spec_failure_message(
                    input_index as nat,
                    *e,
                ),
                None => !e.spec_should_report(),
            },
    {
        if e.should_report() {
            let mut m: String = "Input ".to_owned();
            m.append(dec_string(input_index).as_str());
            m.append(": ");
            m.append(e.message().as_str());
            Some(m)
        } else {
            None
        }
    }
}

/// A completion order is feasible for `len` sub-inputs under `workers`
/// concurrent units when it lists each origin index exactly once and never
/// completes a unit before it can have been started under the budget.
pub open spec fn feasible_order(order: Seq<usize>, len: nat, workers: nat) -> bool {
    &&& order.len() == len
    &&& forall|t: int|
        0 <= t < order.len() ==> (#[trigger] order[t]) < len && (order[t] as int) < t + workers
    &&& forall|t1: int, t2: int| 0 <= t1 < t2 < order.len() ==> order[t1] != order[t2]
}

/// A successful dispatch outcome: every unit succeeded, the artifact and hash
/// lists have one entry per sub-input in origin-index order, and the task hash
/// follows the combination policy.
pub open spec fn dispatch_ok(
    task: Task,
    results: Seq<Result<(Proof, String), ProverError>>,
    out: (Vec<Proof>, String, Vec<String>),
) -> bool {
    &&& forall|k: int| 0 <= k < results.len() ==> (#[trigger] results[k]) is Ok
    &&& out.0@.len() == results.len()
    &&& out.2@.len() == results.len()
    &&& forall|k: int|
        0 <= k < results.len() ==> (#[trigger] out.0@[k])@ == results[k]->Ok_0.0@
    &&& forall|k: int| 0 <= k < results.len() ==> (#[trigger] out.2@[k]) == results[k]->Ok_0.1
    &&& out.1@ == ProvingPipeline::spec_task_hash(task.task_type, out.2@)
}

/// A failed dispatch outcome: the error is the first failure in completion
/// order, and every unit completed before it had succeeded.
pub open spec fn dispatch_failed(
    results: Seq<Result<(Proof, String), ProverError>>,
    order: Seq<usize>,
    e: ProverError,
) -> bool {
    exists|t: int|
        {
            &&& 0 <= t < order.len()
            &&& (#[trigger] order[t]) < results.len()
            &&& results[order[t] as int] == Err::<(Proof, String), ProverError>(e)
            &&& forall|t2: int| 0 <= t2 < t ==> (#[trigger] results[order[t2] as int]) is Ok
        }
}

impl ProvingPipeline {
    /// Runs the dispatcher over the per-unit outcomes of one task, completing
    /// units in the given order: each unit is started in origin-index order,
    /// at most `num_workers` at a time, and the next completion always is a
    /// started unit. On all-success the artifacts and hashes come back in
    /// origin-index order whatever the completion order was; the first failure in
    /// completion order aborts the dispatch with that error alone.
    #[verifier::loop_isolation(false)]
    pub fn dispatch_units(
        task: &Task,
        results: &Vec<Result<(Proof, String), ProverError>>,
        order: &Vec<usize>,
        num_workers: usize,
    ) -> (r: Result<(Vec<Proof>, String, Vec<String>), ProverError>)
        requires
            num_workers >= 1,
            results@.len() >= 1,
            feasible_order(order@, results@.len(), num_workers as nat),
        ensures
            match r {
                Ok(out) => dispatch_ok(*task, results@, out),
                Err(e) => dispatch_failed(results@, order@, e),
            },
    {
        let l = results.len();
        let mut disp = Dispatcher::new(l, num_workers);
        let mut t: usize = 0;
        while t < order.len()
            invariant
                t <= l,
                disp.wf(),
                disp.budget == num_workers,
                disp.total() == l,
                disp.error is None,
                disp.in_flight == disp.next_index - t,
                forall|i: int|
                    0 <= i < l ==> ((#[trigger] disp.slots@[i]) is Some <==> exists|j: int|
                        0 <= j < t && order@[j] == i),
                forall|j: int| 0 <= j < t ==> (#[trigger] results@[order@[j] as int]) is Ok,
                forall|j: int|
                    0 <= j < t ==> ((#[trigger] disp.slots@[order@[j] as int])->Some_0.0@
                        == results@[order@[j] as int]->Ok_0.0@ && disp.slots@[order@[j] as int]->Some_0.1
                        == results@[order@[j] as int]->Ok_0.1),
            decreases l - t,
        {
            let ghost slots_snap = disp.slots@;
            while disp.can_start()
                invariant
                    disp.wf(),
                    disp.budget == num_workers,
                    disp.total() == l,
                    disp.error is None,
                    disp.slots@ == slots_snap,
                    disp.in_flight == disp.next_index - t,
                decreases num_workers - disp.in_flight,
            {
                disp.start_next();
            }
            let idx = order[t];
            proof {
                assert((idx as int) < l && (idx as int) < t + num_workers);
                assert(disp.next_index == l || disp.in_flight == num_workers);
                assert((idx as int) < disp.next_index);
                assert(disp.next_index >= t + 1);
                assert forall|j: int| 0 <= j < t implies order@[j] != idx by {
                    assert(order@[j] != order@[t as int]);
                }
                assert(!(disp.slots@[idx as int] is Some));
            }
            match &results[idx] {
                Ok(pair) => {
                    let ghost pre = disp.slots@;
                    disp.on_success(idx, pair.0.clone(), pair.1.clone());
                    proof {
                        assert(results@[idx as int] == Ok::<(Proof, String), ProverError>(*pair));
                        assert forall|i: int|
                            0 <= i < l implies ((#[trigger] disp.slots@[i]) is Some <==> exists|j: int|
                            0 <= j < t + 1 && order@[j] == i) by {
                            if i == idx as int {
                                assert(disp.slots@[i] is Some);
                                assert(order@[t as int] == idx);
                            } else {
                                assert(disp.slots@[i] == pre[i]);
                                if disp.slots@[i] is Some {
                                    let j = choose|j: int| 0 <= j < t && order@[j] == i;
                                    assert(0 <= j < t + 1 && order@[j] == i);
                                } else {
                                    if exists|j: int| 0 <= j < t + 1 && order@[j] == i {
                                        let j = choose|j: int| 0 <= j < t + 1 && order@[j] == i;
                                        assert(j < t);
                                    }
                                }
                            }
                        }
                        assert forall|j: int|
                            0 <= j < t + 1 implies ((#[trigger] disp.slots@[order@[j] as int])->Some_0.0@
                            == results@[order@[j] as int]->Ok_0.0@ && disp.slots@[order@[j] as int]->Some_0.1
                            == results@[order@[j] as int]->Ok_0.1) by {
                            if j < t {
                                assert(order@[j] != idx);
                                assert(disp.slots@[order@[j] as int] == pre[order@[j] as int]);
                            } else {
                                assert(order@[j] == idx);
                            }
                        }
                    }
                },
                Err(e) => {
                    let first_error = e.clone();
                    proof {
                        assert(results@[idx as int] == Err::<(Proof, String), ProverError>(
                            first_error,
                        ));
                        assert(dispatch_failed(results@, order@, first_error));
                    }
                    return Err(first_error);
                },
            }
            t = t + 1;
        }
        proof {
            assert(disp.next_index == l);
            assert(disp.in_flight == 0);
            assert(count_some(disp.slots@) == l);
            lemma_count_some_full(disp.slots@);
            assert forall|k: int|
                0 <= k < l implies (#[trigger] results@[k]) is Ok && disp.slots@[k] is Some
                && disp.slots@[k]->Some_0.0@ == results@[k]->Ok_0.0@ && disp.slots@[k]->Some_0.1
                == results@[k]->Ok_0.1 by {
                assert(disp.slots@[k] is Some);
                let j = choose|j: int| 0 <= j < l && order@[j] == k;
                assert(results@[order@[j] as int] is Ok);
                assert(disp.slots@[order@[j] as int]->Some_0.0@ == results@[order@[j] as int]->Ok_0.0@);
            }
        }
        let r = disp.finish(task);
        proof {
            let ghost rg = r;
            match rg {
                Ok(out) => {
                    assert forall|k: int|
                        0 <= k < results@.len() implies (#[trigger] out.0@[k])@
                        == results@[k]->Ok_0.0@ by {
                        assert(out.0@[k]@ == disp.slots@[k]->Some_0.0@);
                        assert(disp.slots@[k]->Some_0.0@ == results@[k]->Ok_0.0@);
                    }
                    assert forall|k: int|
                        0 <= k < results@.len() implies (#[trigger] out.2@[k])
                        == results@[k]->Ok_0.1 by {
                        assert(out.2@[k] == disp.slots@[k]->Some_0.1);
                    }
                },
                Err(_) => {},
            }
        }
        r
    }

    /// The complete pipeline decision on one task: an unrecognized program
    /// identifier or an empty sub-input sequence is rejected as a malformed
    /// task before any unit runs; otherwise the units' outcomes are dispatched
    /// under the worker budget and combined.
    pub fn prove_task(
        task: &Task,
        results: &Vec<Result<(Proof, String), ProverError>>,
        order: &Vec<usize>,
        num_workers: usize,
    ) -> (r: Result<(Vec<Proof>, String, Vec<String>), ProverError>)
        requires
            num_workers >= 1,
            results@.len() == task.inputs@.len(),
            Self::supported_program(task.program_id@) && task.inputs@.len() > 0
                ==> feasible_order(order@, results@.len(), num_workers as nat),
        ensures
            match r {
                Ok(out) => {
                    &&& Self::supported_program(task.program_id@)
                    &&& task.inputs@.len() > 0
                    &&& dispatch_ok(*task, results@, out)
                },
                Err(e) => {
                    &&& !Self::supported_program(task.program_id@) ==> (e matches
                        ProverError::MalformedTask(m) && m@ == "Unsupported program ID: "@
                        + task.program_id@)
                    &&& (Self::supported_program(task.program_id@) && task.inputs@.len() == 0)
                        ==> (e matches ProverError::MalformedTask(m) && m@
                        == "No inputs provided for task"@)
                    &&& (Self::supported_program(task.program_id@) && task.inputs@.len() > 0)
                        ==> dispatch_failed(results@, order@, e)
                },
            },
    {
        match Self::validate_task(task) {
            Err(e) => Err(e),
            Ok(_) => Self::dispatch_units(task, results, order, num_workers),
        }
    }
}

} // verus!

