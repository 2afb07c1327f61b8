//! The fixed code fragments used by the test renderer: the basic callback and
//! the instrumentation header and footer. The templates that print whole call
//! trees are the renderer's own and live outside the verified core.

use crate::strutil::spec_decimal;
use vstd::prelude::*;

verus! {

/// The simplest callback: it just prints that it has executed.
pub fn basic_callback() -> (r: &'static str)
    ensures
        r@ == "let cb = function() { console.log({\"callback_exec\": true}); }"@,
{
    "let cb = function() { console.log({\"callback_exec\": true}); }"
}

/// The basic callback, printing a unique ID when it executes.
pub fn basic_callback_with_id(cur_call_uniq_id: String) -> (r: String)
    ensures
        r@ == "let cb = function() { console.log({\"callback_exec_"@ + cur_call_uniq_id@
            + "\": true}); }"@,
{
    let mut r = String::new();
    r.append("let cb = function() { console.log({\"callback_exec_");
    r.append(cur_call_uniq_id.as_str());
    r.append("\": true}); }");
    assert(r@ =~= "let cb = function() { console.log({\"callback_exec_"@ + cur_call_uniq_id@
        + "\": true}); }"@);
    r
}

/// JS code that redefines `console.log` to push its argument onto an array,
/// so that what is printed, and in what order, can be tracked.
pub fn get_instrumented_header() -> (r: &'static str)
    ensures
        r@.len() > 0,
{
    proof {
        reveal_strlit(
            "\nlet orig_log = console.log;\nlet output_log = [];\nconsole.log = function(e) {\n\toutput_log.push(e);\n}\nfunction getTypeDiffObjFromPromise(val) {\n    if (val.toString() === \"[object Promise]\") {\n        return \"DIFFTYPE_Promise\";\n    }\n    return typeof val;\n}\n",
        );
    }
    "\nlet orig_log = console.log;\nlet output_log = [];\nconsole.log = function(e) {\n\toutput_log.push(e);\n}\nfunction getTypeDiffObjFromPromise(val) {\n    if (val.toString() === \"[object Promise]\") {\n        return \"DIFFTYPE_Promise\";\n    }\n    return typeof val;\n}\n"
}

/// JS code that prints the tracked array once, at process exit.
pub fn get_instrumented_footer() -> (r: &'static str)
    ensures
        r@.len() > 0,
{
    proof {
        reveal_strlit(
            "\nprocess.on(\"exit\", function f() {\n\torig_log(JSON.stringify(output_log));\n})",
        );
    }
    "\nprocess.on(\"exit\", function f() {\n\torig_log(JSON.stringify(output_log));\n})"
}

/// One `describe` block of the meta test driver, for test number `i`.
pub open spec fn spec_meta_block(i: nat) -> Seq<char> {
    "\ndescribe('test"@ + spec_decimal(i) + "!', function () {\n\tit('', async () => {\n\t\tawait require('./test"@
        + spec_decimal(i) + ".js')();\n\t});\n});"@
}

/// The meta test blocks for tests `1..=n`, in order.
pub open spec fn spec_meta_blocks(n: nat) -> Seq<char>
    decreases n,
{
    if n == 0 {
        Seq::empty()
    } else {
        spec_meta_blocks((n - 1) as nat) + spec_meta_block(n)
    }
}

/// The driver code for a `mocha` test suite over `num_tests` generated tests:
/// an async error handler, then one `describe` block per test.
pub fn get_meta_test_code(num_tests: i32) -> (r: String)
    ensures
        num_tests >= 0 ==> r@
            == "if (!process.hasUncaughtExceptionCaptureCallback()) process.setUncaughtExceptionCaptureCallback(() => {\n\tconsole.log(\"{\\\"async_error_in_test\\\": true}\");\n});"@
            + spec_meta_blocks(num_tests as nat),
        num_tests < 0 ==> r@
            == "if (!process.hasUncaughtExceptionCaptureCallback()) process.setUncaughtExceptionCaptureCallback(() => {\n\tconsole.log(\"{\\\"async_error_in_test\\\": true}\");\n});"@,
{
    let mut r = String::new();
    r.append(
        "if (!process.hasUncaughtExceptionCaptureCallback()) process.setUncaughtExceptionCaptureCallback(() => {\n\tconsole.log(\"{\\\"async_error_in_test\\\": true}\");\n});",
    );
    let ghost header = r@;
    if num_tests < 0 {
        return r;
    }
    let n: usize = num_tests as usize;
    let mut i: usize = 1;
    assert(r@ =~= header + spec_meta_blocks(0));
    while i <= n
        invariant
            n <= 0x7fffffff,
            1 <= i <= n + 1,
            r@ == header + spec_meta_blocks((i - 1) as nat),
        decreases n + 1 - i,
    {
        let d = crate::strutil::usize_to_string(i);
        r.append("\ndescribe('test");
        r.append(d.as_str());
        r.append("!', function () {\n\tit('', async () => {\n\t\tawait require('./test");
        r.append(d.as_str());
        r.append(".js')();\n\t});\n});");
        assert(r@ =~= header + spec_meta_blocks((i - 1) as nat) + spec_meta_block(i as nat));
        i = i + 1;
    }
    r
}

} // verus!
