use proving_pipeline::pipeline::{Dispatcher, ProvingPipeline};
use proving_pipeline::task::{Proof, Task, TaskType};
use proving_pipeline::types::ProverError;

fn fib_task(task_type: TaskType, inputs: Vec<Vec<u8>>) -> Task {
    Task { program_id: "fib_input_initial".to_string(), task_type, inputs }
}

fn ok_unit(bytes: &[u8]) -> Result<(Proof, String), ProverError> {
    let proof = Proof { bytes: bytes.to_vec() };
    let hash = ProvingPipeline::generate_proof_hash(&proof);
    Ok((proof, hash))
}

fn unit_results(inputs: &[Vec<u8>]) -> Vec<Result<(Proof, String), ProverError>> {
    inputs.iter().map(|b| ok_unit(b)).collect()
}

// Ordering and length for every worker budget and several completion orders.
#[test]
fn ordered_output_for_all_budgets_and_orders() {
    let inputs = vec![vec![1u8], vec![2u8], vec![3u8], vec![4u8]];
    let task = fib_task(TaskType::Individual, inputs.clone());
    let expected_hashes: Vec<String> = inputs
        .iter()
        .map(|b| ProvingPipeline::generate_proof_hash(&Proof { bytes: b.clone() }))
        .collect();
    // Each order is feasible for the budget it is paired with.
    let cases: Vec<(usize, Vec<usize>)> = vec![
        (1, vec![0, 1, 2, 3]),
        (2, vec![1, 0, 3, 2]),
        (3, vec![2, 0, 1, 3]),
        (4, vec![3, 2, 1, 0]),
    ];
    for (workers, order) in cases {
        let results = unit_results(&inputs);
        let out = ProvingPipeline::prove_task(&task, &results, &order, workers)
            .expect("all units succeeded");
        let (proofs, _task_hash, hashes) = out;
        assert_eq!(proofs.len(), 4);
        assert_eq!(hashes.len(), 4);
        for (i, input) in inputs.iter().enumerate() {
            assert_eq!(&proofs[i].bytes, input);
            assert_eq!(hashes[i], expected_hashes[i]);
        }
    }
}

// An unrecognized program identifier is rejected as a malformed task.
#[test]
fn unrecognized_program_is_malformed() {
    let task = Task {
        program_id: "unknown_program".to_string(),
        task_type: TaskType::Individual,
        inputs: vec![vec![1u8]],
    };
    let results = unit_results(&task.inputs);
    let r = ProvingPipeline::prove_task(&task, &results, &vec![0], 1);
    match r {
        Err(ProverError::MalformedTask(m)) => {
            assert_eq!(m, "Unsupported program ID: unknown_program");
        }
        other => panic!("expected MalformedTask, got {:?}", other.is_ok()),
    }
}

// An empty input sequence is rejected as a malformed task.
#[test]
fn empty_inputs_are_malformed() {
    let task = fib_task(TaskType::Individual, vec![]);
    let results: Vec<Result<(Proof, String), ProverError>> = vec![];
    let r = ProvingPipeline::prove_task(&task, &results, &vec![], 2);
    match r {
        Err(ProverError::MalformedTask(m)) => {
            assert_eq!(m, "No inputs provided for task");
        }
        other => panic!("expected MalformedTask, got {:?}", other.is_ok()),
    }
}

// The first failing unit's error is the overall result; no artifacts come back.
#[test]
fn failing_unit_aborts_with_its_error() {
    let inputs = vec![vec![1u8], vec![2u8], vec![3u8]];
    let task = fib_task(TaskType::Individual, inputs.clone());
    let mut results = unit_results(&inputs);
    results[1] = Err(ProverError::GuestProgram("exit code 1".to_string()));
    let r = ProvingPipeline::prove_task(&task, &results, &vec![0, 1, 2], 2);
    match r {
        Err(ProverError::GuestProgram(m)) => assert_eq!(m, "exit code 1"),
        _ => panic!("expected the guest program error"),
    }
}

// With several failures, the first in completion order wins.
#[test]
fn first_failure_in_completion_order_wins() {
    let inputs = vec![vec![1u8], vec![2u8], vec![3u8]];
    let task = fib_task(TaskType::Individual, inputs.clone());
    let mut results = unit_results(&inputs);
    results[0] = Err(ProverError::Stwo("proof invalid".to_string()));
    results[2] = Err(ProverError::Other("out of memory".to_string()));
    // Unit 2 completes before unit 0.
    let r = ProvingPipeline::prove_task(&task, &results, &vec![1, 2, 0], 3);
    match r {
        Err(ProverError::Other(m)) => assert_eq!(m, "out of memory"),
        _ => panic!("expected the error of the unit that completed first"),
    }
}

// Reporting decisions: computation and guest-program failures are reported
// exactly once, with the origin index embedded; other kinds are not.
#[test]
fn reporting_policy_by_error_kind() {
    let stwo = ProverError::Stwo("constraint mismatch".to_string());
    let guest = ProverError::GuestProgram("panic".to_string());
    let parse = ProverError::Parse("bad bytes".to_string());
    let malformed = ProverError::MalformedTask("empty".to_string());
    let other = ProverError::Other("io".to_string());

    let m = ProvingPipeline::report_for_failure(&stwo, 0).expect("stwo is reported");
    assert_eq!(m, "Input 0: Stwo prover error: constraint mismatch");
    let m = ProvingPipeline::report_for_failure(&guest, 1).expect("guest failure is reported");
    assert_eq!(m, "Input 1: Guest program error: panic");
    assert!(ProvingPipeline::report_for_failure(&parse, 0).is_none());
    assert!(ProvingPipeline::report_for_failure(&malformed, 0).is_none());
    assert!(ProvingPipeline::report_for_failure(&other, 2).is_none());
}

// The origin index is rendered in decimal, also past one digit.
#[test]
fn report_message_renders_large_indices() {
    let e = ProverError::Stwo("x".to_string());
    let m = ProvingPipeline::report_for_failure(&e, 1234).expect("reported");
    assert_eq!(m, "Input 1234: Stwo prover error: x");
}

// Hashing the same artifact bytes twice yields the same string.
#[test]
fn hash_is_deterministic() {
    let p1 = Proof { bytes: vec![5u8, 6, 7] };
    let p2 = Proof { bytes: vec![5u8, 6, 7] };
    let h1 = ProvingPipeline::generate_proof_hash(&p1);
    let h2 = ProvingPipeline::generate_proof_hash(&p2);
    assert_eq!(h1, h2);
    let p3 = Proof { bytes: vec![5u8, 6, 8] };
    assert_ne!(h1, ProvingPipeline::generate_proof_hash(&p3));
}

// Known Keccak-256 answers: the artifact hash really is the digest in
// lowercase hexadecimal, not the input handed back.
#[test]
fn hash_matches_known_keccak_vectors() {
    let empty = Proof { bytes: vec![] };
    assert_eq!(
        ProvingPipeline::generate_proof_hash(&empty),
        "c5d2460186f7233c927e7db2dcc703c0e500b653ca82273b7bfad8045d85a470"
    );
    let abc = Proof { bytes: b"abc".to_vec() };
    assert_eq!(
        ProvingPipeline::generate_proof_hash(&abc),
        "4e03657aea45a94fc7d47ba826c8d667c0d1e6e33a64a036ec44f58fa12d6c45"
    );
}

fn keccak_hex(data: &[u8]) -> String {
    let digest = <sha3::Keccak256 as sha3::Digest>::digest(data);
    let mut s = String::new();
    for b in digest.iter() {
        s.push_str(&format!("{:02x}", b));
    }
    s
}

// The combination primitive hashes the concatenated hash strings.
#[test]
fn combine_primitive_hashes_concatenation() {
    let hashes = vec!["ab".to_string(), "cd".to_string()];
    let combined = Task::combine_proof_hashes(&hashes);
    assert_eq!(combined, keccak_hex(b"abcd"));
    // Order-sensitive: the reversed list combines differently.
    let reversed = vec!["cd".to_string(), "ab".to_string()];
    assert_ne!(Task::combine_proof_hashes(&reversed), combined);
    // Deterministic: the same list combines identically twice.
    assert_eq!(Task::combine_proof_hashes(&hashes), combined);
}

// Combination policy: ProofHash and AllProofHashes combine the full list; any
// other task type takes the first per-input hash.
#[test]
fn combination_policy_by_task_type() {
    let hashes = vec!["aa".to_string(), "bb".to_string(), "cc".to_string()];
    let combined = Task::combine_proof_hashes(&hashes);
    let all = fib_task(TaskType::AllProofHashes, vec![vec![0u8]]);
    let single = fib_task(TaskType::ProofHash, vec![vec![0u8]]);
    let individual = fib_task(TaskType::Individual, vec![vec![0u8]]);
    assert_eq!(ProvingPipeline::combine_proof_hashes(&all, &hashes), combined);
    assert_eq!(ProvingPipeline::combine_proof_hashes(&single, &hashes), combined);
    assert_eq!(ProvingPipeline::combine_proof_hashes(&individual, &hashes), "aa");
    let none: Vec<String> = vec![];
    assert_eq!(ProvingPipeline::combine_proof_hashes(&individual, &none), "");
}

// Scenario A: three inputs, recognized program, Individual, two workers.
#[test]
fn scenario_individual_three_inputs() {
    let inputs = vec![vec![10u8], vec![20u8], vec![30u8]];
    let task = fib_task(TaskType::Individual, inputs.clone());
    let results = unit_results(&inputs);
    let (proofs, task_hash, hashes) =
        ProvingPipeline::prove_task(&task, &results, &vec![1, 0, 2], 2).expect("succeeds");
    assert_eq!(proofs.len(), 3);
    assert_eq!(hashes.len(), 3);
    for (i, input) in inputs.iter().enumerate() {
        assert_eq!(&proofs[i].bytes, input);
    }
    assert_eq!(task_hash, hashes[0]);
}

// Scenario B: the same task with AllProofHashes combines the full list.
#[test]
fn scenario_all_proof_hashes() {
    let inputs = vec![vec![10u8], vec![20u8], vec![30u8]];
    let task = fib_task(TaskType::AllProofHashes, inputs.clone());
    let results = unit_results(&inputs);
    let (_proofs, task_hash, hashes) =
        ProvingPipeline::prove_task(&task, &results, &vec![1, 0, 2], 2).expect("succeeds");
    assert_eq!(task_hash, Task::combine_proof_hashes(&hashes));
}

// Scenario D: a guest-program failure at index 1 aborts with that error and
// is reported once, referencing index 1.
#[test]
fn scenario_guest_failure_at_index_one() {
    let inputs = vec![vec![10u8], vec![20u8], vec![30u8]];
    let task = fib_task(TaskType::Individual, inputs.clone());
    let mut results = unit_results(&inputs);
    results[1] = Err(ProverError::GuestProgram("guest trap".to_string()));
    let r = ProvingPipeline::prove_task(&task, &results, &vec![0, 1, 2], 2);
    let err = match r {
        Err(e) => e,
        Ok(_) => panic!("expected failure"),
    };
    let report = ProvingPipeline::report_for_failure(&err, 1);
    let reports: Vec<String> = report.into_iter().collect();
    assert_eq!(reports.len(), 1);
    assert_eq!(reports[0], "Input 1: Guest program error: guest trap");
}

// Driving the dispatcher directly: out-of-order completions fill the right
// slots, and results after a failure are discarded.
#[test]
fn dispatcher_discards_after_failure() {
    let mut disp = Dispatcher::new(3, 3);
    assert!(disp.can_start());
    let a = disp.start_next();
    let b = disp.start_next();
    let c = disp.start_next();
    assert_eq!((a, b, c), (0, 1, 2));
    assert!(!disp.can_start());
    disp.on_failure(ProverError::Other("boom".to_string()));
    assert!(!disp.is_done());
    // Late completions run to completion but their results are discarded.
    disp.on_success(0, Proof { bytes: vec![1u8] }, "h0".to_string());
    disp.on_success(2, Proof { bytes: vec![3u8] }, "h2".to_string());
    assert!(disp.is_done());
    let task = fib_task(TaskType::Individual, vec![vec![1u8], vec![2u8], vec![3u8]]);
    match disp.finish(&task) {
        Err(ProverError::Other(m)) => assert_eq!(m, "boom"),
        _ => panic!("expected the first failure"),
    }
}

#[test]
fn dispatcher_respects_budget_and_reorders() {
    let mut disp = Dispatcher::new(3, 2);
    let first = disp.start_next();
    let second = disp.start_next();
    assert_eq!((first, second), (0, 1));
    // The window is full until a unit completes.
    assert!(!disp.can_start());
    disp.on_success(1, Proof { bytes: vec![2u8] }, "h1".to_string());
    assert!(disp.can_start());
    let third = disp.start_next();
    assert_eq!(third, 2);
    disp.on_success(2, Proof { bytes: vec![3u8] }, "h2".to_string());
    disp.on_success(0, Proof { bytes: vec![1u8] }, "h0".to_string());
    assert!(disp.is_done());
    let task = fib_task(TaskType::Individual, vec![vec![1u8], vec![2u8], vec![3u8]]);
    let (proofs, task_hash, hashes) = disp.finish(&task).expect("all units succeeded");
    assert_eq!(proofs[0].bytes, vec![1u8]);
    assert_eq!(proofs[1].bytes, vec![2u8]);
    assert_eq!(proofs[2].bytes, vec![3u8]);
    assert_eq!(hashes, vec!["h0".to_string(), "h1".to_string(), "h2".to_string()]);
    assert_eq!(task_hash, "h0");
}

// Validation passes a well-formed task through to the units.
#[test]
fn validate_accepts_supported_nonempty_task() {
    let task = fib_task(TaskType::ProofHash, vec![vec![1u8]]);
    assert!(ProvingPipeline::validate_task(&task).is_ok());
}

#[test]
fn error_messages_render_by_kind() {
    assert_eq!(
        ProverError::Parse("short".to_string()).message(),
        "Failed to parse input: short"
    );
    assert_eq!(ProverError::Other("io".to_string()).message(), "Error: io");
}

// The hexadecimal rendering pads every byte to two lowercase digits.
#[test]
fn hex_rendering_pads_each_byte() {
    assert_eq!(proving_pipeline::hashing::to_hex(&[]), "");
    assert_eq!(proving_pipeline::hashing::to_hex(&[0u8, 1, 255, 16]), "0001ff10");
}

// A single input under a budget of one still flows through the pipeline.
#[test]
fn single_input_single_worker() {
    let inputs = vec![vec![42u8]];
    let task = fib_task(TaskType::ProofHash, inputs.clone());
    let results = unit_results(&inputs);
    let (proofs, task_hash, hashes) =
        ProvingPipeline::prove_task(&task, &results, &vec![0], 1).expect("succeeds");
    assert_eq!(proofs.len(), 1);
    assert_eq!(task_hash, Task::combine_proof_hashes(&hashes));
}
