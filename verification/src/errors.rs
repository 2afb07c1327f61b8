//! Errors and per-call outcome classifications for the test generator.

use crate::tests::ExtensionType;
use vstd::prelude::*;

verus! {

/// Errors in the data- and feedback-driven test generation pipeline.
#[derive(Debug, PartialEq, Eq, Clone)]
pub enum DFError {
    /// Error reading a spec file produced by an earlier pipeline stage.
    SpecFileError,
    /// Error reading the mined data file.
    MinedDataFileError,
    /// Error in the mined data, with an error message.
    InvalidMinedData(String),
    /// Error printing a test file (with the file path).
    WritingTestError(String),
    /// Error deleting a test file (with the file path).
    DeletingTestError(String),
    /// Error running a test (for example, a timeout).
    TestRunningError,
    /// Error parsing the test output.
    TestOutputParseError,
    /// Invalid test extension option.
    InvalidTestExtensionOption,
    /// Error during test generation.
    TestGenError(TestGenError),
}

/// Errors in the test generation itself.
#[derive(Debug, PartialEq, Eq, Structural, Clone, Copy)]
pub enum TestGenError {
    /// Type mismatch between an argument value and the declared argument type.
    ArgTypeValMismatch,
    /// Trying to set a property of an argument value that is still unset.
    ArgValNotSetYet,
}

impl From<TestGenError> for DFError {
    fn from(tge: TestGenError) -> (r: Self) {
        Self::TestGenError(tge)
    }
}

impl vstd::std_specs::convert::FromSpecImpl<TestGenError> for DFError {
    open spec fn obeys_from_spec() -> bool {
        true
    }

    open spec fn from_spec(tge: TestGenError) -> Self {
        Self::TestGenError(tge)
    }
}

/// Callback-related outcomes of a single executed call.
#[derive(Debug, PartialEq, Eq, Structural, Clone, Copy, Hash)]
pub enum SingleCallCallbackTestResult {
    /// The callback was called and executed synchronously, with no error.
    CallbackCalledSync,
    /// The callback was called and executed asynchronously, with no error.
    CallbackCalledAsync,
    /// The callback was not called, and there was no error.
    NoCallbackCalled,
}

/// Possible results of one function execution.
#[derive(Debug, PartialEq, Eq, Structural, Clone, Copy, Hash)]
pub enum FunctionCallResult {
    /// Whether a callback argument was executed when the function was called.
    SingleCallback(SingleCallCallbackTestResult),
    /// There was an error in the execution of the function.
    ExecutionError,
}

impl FunctionCallResult {
    /// Whether a call with this result can serve as an extension point of the
    /// given extension type: an execution error rules out every extension, and
    /// a call whose callback never fired cannot be nested into.
    pub fn can_be_extended(&self, ext_type: ExtensionType) -> (r: bool)
        ensures
            r == self.spec_can_be_extended(ext_type),
    {
        match (self, ext_type) {
            (Self::ExecutionError, _) => false,
            (
                Self::SingleCallback(SingleCallCallbackTestResult::NoCallbackCalled),
                ExtensionType::Nested,
            ) => false,
            (_, _) => true,
        }
    }

    /// Specification of `can_be_extended`: exactly the legal extension pairs.
    pub open spec fn spec_can_be_extended(self, ext_type: ExtensionType) -> bool {
        match (self, ext_type) {
            (Self::ExecutionError, _) => false,
            (
                Self::SingleCallback(SingleCallCallbackTestResult::NoCallbackCalled),
                ExtensionType::Nested,
            ) => false,
            (_, _) => true,
        }
    }
}

/// Nesting legality: a call whose callback never fired is never a valid
/// nested extension point, but remains a valid sequential one; a call that
/// ended in an execution error extends nothing.
pub proof fn lemma_nesting_legality()
    ensures
        !FunctionCallResult::SingleCallback(
            SingleCallCallbackTestResult::NoCallbackCalled,
        ).spec_can_be_extended(ExtensionType::Nested),
        FunctionCallResult::SingleCallback(
            SingleCallCallbackTestResult::NoCallbackCalled,
        ).spec_can_be_extended(ExtensionType::Sequential),
        forall|et: ExtensionType|
            !FunctionCallResult::ExecutionError.spec_can_be_extended(et),
{
}

} // verus!
