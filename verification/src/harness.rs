//! What the test harness decides between its reads and its runs: which run
//! was asked for, which fixtures are skipped, where they lie, and whether the
//! output of a run is the expected one.

use crate::cli::fork::Fork;
use crate::operation::OperationName;
use vstd::prelude::*;
use vstd::string::StringExecFns;

verus! {

/// What is done with the guest program.
#[derive(Debug, Clone, Copy, PartialEq, Eq, Structural)]
pub enum RunKind {
    /// Run it and compare its output.
    Execute,
    /// Prove its run and verify the proof.
    Prove,
}

/// Where the inputs come from.
#[derive(Debug, Clone, Copy, PartialEq, Eq, Structural)]
pub enum Flow {
    /// The fixtures of the consensus tests.
    EfTest,
    /// A state and the blocks to replay on it.
    Replay,
}

/// The run that the two flags ask for: exactly one of them must be set.
pub fn select_run(execute: bool, prove: bool) -> (out: Option<RunKind>)
    ensures
        out == if execute == prove {
            None
        } else if execute {
            Some(RunKind::Execute)
        } else {
            Some(RunKind::Prove)
        },
{
    if execute == prove {
        None
    } else if execute {
        Some(RunKind::Execute)
    } else {
        Some(RunKind::Prove)
    }
}

/// The flow that the two flags ask for: exactly one of them must be set.
pub fn select_flow(ef_test: bool, replay: bool) -> (out: Option<Flow>)
    ensures
        out == if ef_test == replay {
            None
        } else if ef_test {
            Some(Flow::EfTest)
        } else {
            Some(Flow::Replay)
        },
{
    if ef_test == replay {
        None
    } else if ef_test {
        Some(Flow::EfTest)
    } else {
        Some(Flow::Replay)
    }
}

/// The names that a list of strings holds.
pub open spec fn names_view(names: Seq<String>) -> Seq<Seq<char>> {
    Seq::new(names.len(), |k: int| names[k]@)
}

/// Whether a test case is among the excluded ones.
pub fn is_excluded(excluded: &Vec<String>, test_case: &String) -> (out: bool)
    ensures
        out == names_view(excluded@).contains(test_case@),
{
    let mut k: usize = 0;
    while k < excluded.len()
        invariant
            k <= excluded@.len(),
            forall|j: int| 0 <= j < k ==> excluded@[j]@ != test_case@,
        decreases excluded@.len() - k,
    {
        if excluded[k] == *test_case {
            assert(names_view(excluded@)[k as int] == test_case@);
            return true;
        }
        k = k + 1;
    }
    false
}

/// The directories from the root of the fixtures down to the test cases of
/// an operation.
pub open spec fn spec_cases_path(fork: Fork, operation: OperationName) -> Seq<Seq<char>> {
    seq![fork.spec_name(), "operations"@, operation.spec_name(), "pyspec_tests"@]
}

/// The directories from the root of the fixtures down to the test cases of
/// an operation.
pub fn cases_path(fork: Fork, operation: OperationName) -> (out: Vec<String>)
    ensures
        names_view(out@) == spec_cases_path(fork, operation),
{
    let mut out: Vec<String> = Vec::new();
    out.push(fork.name());
    out.push(String::from_str("operations"));
    out.push(operation.name());
    out.push(String::from_str("pyspec_tests"));
    assert(names_view(out@) =~= spec_cases_path(fork, operation));
    out
}

/// The name of the file that holds an operation's input.
pub fn input_file_name(operation: OperationName) -> (out: String)
    ensures
        out@ == operation.spec_input_name() + ".ssz_snappy"@,
{
    operation.to_input_name().concat(".ssz_snappy")
}

/// The state that a run must give: the fixture's post-state, or the
/// pre-state where the fixture has none, as the operation is then to be
/// rejected and the state left alone.
pub open spec fn spec_expected_state(pre: Seq<u8>, post: Option<Seq<u8>>) -> Seq<u8> {
    match post {
        Some(state) => state,
        None => pre,
    }
}

/// Whether the output of a run is the expected state.
#[verifier::loop_isolation(false)]
pub fn execution_is_correct(output: &Vec<u8>, pre: &Vec<u8>, post: &Option<Vec<u8>>) -> (out: bool)
    ensures
        out == (output@ == spec_expected_state(
            pre@,
            match post {
                Some(state) => Some(state@),
                None => None,
            },
        )),
{
    let expected: &Vec<u8> = match post {
        Some(state) => state,
        None => pre,
    };
    let ghost want = spec_expected_state(
        pre@,
        match post {
            Some(state) => Some(state@),
            None => None,
        },
    );
    if output.len() != expected.len() {
        return false;
    }
    let mut k: usize = 0;
    while k < output.len()
        invariant
            k <= output@.len(),
            expected@ == want,
            output@.len() == expected@.len(),
            output@.subrange(0, k as int) == expected@.subrange(0, k as int),
        decreases output@.len() - k,
    {
        if output[k] != expected[k] {
            return false;
        }
        assert(output@.subrange(0, k + 1) == output@.subrange(0, k as int).push(output@[k as int]));
        assert(expected@.subrange(0, k + 1) == expected@.subrange(0, k as int).push(
            expected@[k as int],
        ));
        k = k + 1;
    }
    assert(output@ == output@.subrange(0, k as int));
    assert(expected@ == expected@.subrange(0, k as int));
    true
}

} // verus!
