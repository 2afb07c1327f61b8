//! Configuration values for the test generator.

use vstd::prelude::*;

verus! {

/// Number of tests generated per function in the API discovery phase.
pub const DISCOVERY_PHASE_TESTING_BUDGET: i32 = 10;

/// Timeout (in seconds) after which an executing test is killed.
pub const TEST_TIMEOUT_SECONDS: u64 = 30;

/// If a nested extension is requested but no test can be extended that way:
/// `false` means error, `true` means just return a fresh test.
pub const FRESH_TEST_IF_CANT_EXTEND: bool = true;

/// Allow generating multiple callback arguments to the same function?
pub const ALLOW_MULTIPLE_CALLBACK_ARGS: bool = false;

/// Allow the `any` type in randomly generated signatures?
pub const ALLOW_ANY_TYPE_ARGS: bool = true;

/// Upper bound (inclusive) on the magnitude of generated random numbers.
pub const MAX_GENERATED_NUM: i64 = 1000;

/// Upper bound (inclusive) for the length of generated random arrays.
pub const MAX_GENERATED_ARRAY_LENGTH: usize = 10;

/// Upper bound (inclusive) for the number of fields of generated random objects.
pub const MAX_GENERATED_OBJ_LENGTH: usize = 5;

/// Upper bound (inclusive) for the length of generated random strings.
pub const RANDOM_STRING_LENGTH: usize = 5;

/// Upper bound (inclusive) on the number of arguments generated for functions
/// with an unspecified number of arguments.
pub const DEFAULT_MAX_ARG_LENGTH: usize = 5;

/// Chance, in percent, of generating a new (not previously tested) signature.
pub const CHOOSE_NEW_SIG_PCT: u64 = 50;

/// After a function is chosen, its weight is multiplied by this percentage.
pub const RECHOOSE_LIB_FCT_WEIGHT_FACTOR: u64 = 80;

/// After a signature is chosen, its weight is multiplied by this percentage.
pub const RECHOOSE_FCT_SIG_WEIGHT_FACTOR: u64 = 80;

/// Chance, in percent, of using a mined nesting example when one is available.
pub const USE_MINED_NESTING_EXAMPLE: u64 = 50;

/// Chance, in percent, of using a mined API call signature when available.
pub const USE_MINED_API_CALL_SIG: u64 = 50;

/// The starting weight of every function and signature in the weighted tables.
pub const INITIAL_WEIGHT: u64 = 1000000;

/// Name of the directory the generated tests are written into.
pub const TEST_DIR_PATH: &'static str = "test";

/// Prefix for the file names of the generated tests.
pub const TEST_FILE_PREFIX: &'static str = "test";

} // verus!
