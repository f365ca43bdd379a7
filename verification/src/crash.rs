//! Crash triage: classification of sanitiser reports, severity scores,
//! remediation advice, deduplication and report summaries.

use vstd::prelude::*;
use crate::digest::{hex_lower, sha256_hex, sha256_of};
use crate::text::{chars_contain, chars_of, has_sub};
use vstd::string::StrSliceExecFns;

verus! {

/// Exploitability classification, most severe first.
#[derive(Clone, Copy, Debug, PartialEq, Eq, Structural)]
pub enum Exploitability {
    /// Remote code execution: attacker controls the instruction pointer.
    Rce,
    /// Denial of service: crash or hang without code execution.
    Dos,
    /// Information leak: out-of-bounds read.
    InfoLeak,
    /// Logic or consensus bug: the node reaches an inconsistent state.
    Logic,
    /// Unknown: requires further manual analysis.
    Unknown,
}

/// Crash type classification.
#[derive(Clone, Copy, Debug, PartialEq, Eq, Structural)]
pub enum CrashType {
    /// AddressSanitizer: heap buffer overflow.
    HeapBufferOverflow,
    /// AddressSanitizer: stack buffer overflow.
    StackBufferOverflow,
    /// AddressSanitizer: use-after-free.
    UseAfterFree,
    /// AddressSanitizer: heap use-after-free.
    HeapUseAfterFree,
    /// MemorySanitizer: use of uninitialised value.
    UninitMemory,
    /// UndefinedBehaviourSanitizer: integer overflow.
    IntegerOverflow,
    /// UndefinedBehaviourSanitizer: null pointer dereference.
    NullDeref,
    /// UndefinedBehaviourSanitizer: misaligned access.
    MisalignedAccess,
    /// ThreadSanitizer: data race.
    DataRace,
    /// Out of memory (allocation failure).
    OutOfMemory,
    /// Stack overflow (infinite recursion).
    StackOverflow,
    /// Assertion failure.
    AssertionFailure,
    /// Controlled panic (expected for invalid input).
    ControlledPanic,
    /// Timeout (potential infinite loop).
    Timeout,
    /// Unknown crash type.
    Unknown,
}

/// The position of an exploitability rating in severity order (0 is most severe).
pub open spec fn exploitability_rank(e: Exploitability) -> int {
    match e {
        Exploitability::Rce => 0,
        Exploitability::Dos => 1,
        Exploitability::InfoLeak => 2,
        Exploitability::Logic => 3,
        Exploitability::Unknown => 4,
    }
}

/// Number of exploitability ratings.
pub const EXPLOITABILITY_KINDS: usize = 5;

/// The severity position of an exploitability rating.
pub fn severity_rank(e: Exploitability) -> (r: usize)
    ensures
        r == exploitability_rank(e),
        r < EXPLOITABILITY_KINDS,
{
    match e {
        Exploitability::Rce => 0,
        Exploitability::Dos => 1,
        Exploitability::InfoLeak => 2,
        Exploitability::Logic => 3,
        Exploitability::Unknown => 4,
    }
}

/// How a crash is classified from its stderr text `s`, exit code, and whether
/// it timed out: the first matching rule wins, in this order.
pub open spec fn crash_verdict(s: Seq<char>, exit_code: Option<i32>, timed_out: bool) -> (CrashType, Exploitability) {
    if timed_out {
        (CrashType::Timeout, Exploitability::Dos)
    } else if has_sub(s, "heap-buffer-overflow"@) {
        (CrashType::HeapBufferOverflow, Exploitability::Rce)
    } else if has_sub(s, "stack-buffer-overflow"@) {
        (CrashType::StackBufferOverflow, Exploitability::Rce)
    } else if has_sub(s, "heap-use-after-free"@) {
        (CrashType::HeapUseAfterFree, Exploitability::Rce)
    } else if has_sub(s, "use-after-free"@) {
        (CrashType::UseAfterFree, Exploitability::Rce)
    } else if has_sub(s, "MemorySanitizer"@) || has_sub(s, "use-of-uninitialized-value"@) {
        (CrashType::UninitMemory, Exploitability::InfoLeak)
    } else if has_sub(s, "integer overflow"@) || has_sub(s, "signed integer overflow"@) {
        (CrashType::IntegerOverflow, Exploitability::Dos)
    } else if has_sub(s, "null pointer"@) || has_sub(s, "null-pointer-dereference"@) {
        (CrashType::NullDeref, Exploitability::Dos)
    } else if has_sub(s, "misaligned"@) {
        (CrashType::MisalignedAccess, Exploitability::Dos)
    } else if has_sub(s, "ThreadSanitizer"@) || has_sub(s, "DATA RACE"@) {
        (CrashType::DataRace, Exploitability::Logic)
    } else if has_sub(s, "out of memory"@) || has_sub(s, "cannot allocate"@) {
        (CrashType::OutOfMemory, Exploitability::Dos)
    } else if has_sub(s, "stack overflow"@) || (has_sub(s, "SIGSEGV"@) && has_sub(s, "stack"@)) {
        (CrashType::StackOverflow, Exploitability::Dos)
    } else if has_sub(s, "assertion failed"@) || has_sub(s, "assertion `"@) {
        (CrashType::AssertionFailure, Exploitability::Dos)
    } else if has_sub(s, "thread 'main' panicked"@) || has_sub(s, "panicked at"@) {
        (CrashType::ControlledPanic, Exploitability::Dos)
    } else {
        signal_verdict(exit_code)
    }
}

/// Classification from a negative exit code: minus the signal number.
pub open spec fn signal_verdict(exit_code: Option<i32>) -> (CrashType, Exploitability) {
    match exit_code {
        Some(code) => if code < 0 && -code == 11 {
            (CrashType::NullDeref, Exploitability::Dos)
        } else if code < 0 && -code == 6 {
            (CrashType::AssertionFailure, Exploitability::Dos)
        } else if code < 0 && -code == 8 {
            (CrashType::IntegerOverflow, Exploitability::Dos)
        } else {
            (CrashType::Unknown, Exploitability::Unknown)
        },
        None => (CrashType::Unknown, Exploitability::Unknown),
    }
}

/// The CVSS estimates, in tenths: RCE scores 9.8 for heap overflows and heap
/// use-after-free, 9.0 for stack overflows, 8.8 for use-after-free and 8.0
/// otherwise; information leaks 7.5; DoS 7.5 for out-of-memory and stack
/// overflow, 6.5 for timeouts and 5.9 otherwise; logic bugs 6.5; unknown 4.0.
pub proof fn law_cvss_table(t: CrashType)
    ensures
        cvss_tenths(CrashType::HeapBufferOverflow, Exploitability::Rce) == 98,
        cvss_tenths(CrashType::HeapUseAfterFree, Exploitability::Rce) == 98,
        cvss_tenths(CrashType::StackBufferOverflow, Exploitability::Rce) == 90,
        cvss_tenths(CrashType::UseAfterFree, Exploitability::Rce) == 88,
        t != CrashType::HeapBufferOverflow && t != CrashType::HeapUseAfterFree && t
            != CrashType::StackBufferOverflow && t != CrashType::UseAfterFree ==> cvss_tenths(
            t,
            Exploitability::Rce,
        ) == 80,
        cvss_tenths(t, Exploitability::InfoLeak) == 75,
        cvss_tenths(CrashType::OutOfMemory, Exploitability::Dos) == 75,
        cvss_tenths(CrashType::StackOverflow, Exploitability::Dos) == 75,
        cvss_tenths(CrashType::Timeout, Exploitability::Dos) == 65,
        t != CrashType::OutOfMemory && t != CrashType::StackOverflow && t != CrashType::Timeout
            ==> cvss_tenths(t, Exploitability::Dos) == 59,
        cvss_tenths(t, Exploitability::Logic) == 65,
        cvss_tenths(t, Exploitability::Unknown) == 40,
{
}

/// Findings are ordered by exploitability, most severe first: remote code
/// execution, then denial of service, information leak, logic, unknown.
pub proof fn law_exploitability_order()
    ensures
        exploitability_rank(Exploitability::Rce) < exploitability_rank(Exploitability::Dos),
        exploitability_rank(Exploitability::Dos) < exploitability_rank(Exploitability::InfoLeak),
        exploitability_rank(Exploitability::InfoLeak) < exploitability_rank(Exploitability::Logic),
        exploitability_rank(Exploitability::Logic) < exploitability_rank(Exploitability::Unknown),
        exploitability_rank(Exploitability::Rce) == 0,
        exploitability_rank(Exploitability::Unknown) == EXPLOITABILITY_KINDS - 1,
{
}

/// Remote-code-execution findings always score above every other finding,
/// and every score lies between 4.0 and 9.8.
pub proof fn law_cvss_ordering(t1: CrashType, t2: CrashType, e: Exploitability)
    requires
        e != Exploitability::Rce,
    ensures
        cvss_tenths(t1, Exploitability::Rce) > cvss_tenths(t2, e),
        40 <= cvss_tenths(t2, e) <= 98,
        40 <= cvss_tenths(t1, Exploitability::Rce) <= 98,
{
}

/// A replay that timed out is a timeout, whatever its output; otherwise a
/// sanitiser's heap-buffer-overflow report is always a remote-code-execution
/// finding.
pub proof fn law_classification_priorities(s: Seq<char>, exit_code: Option<i32>)
    ensures
        crash_verdict(s, exit_code, true) == (CrashType::Timeout, Exploitability::Dos),
        has_sub(s, "heap-buffer-overflow"@) ==> crash_verdict(s, exit_code, false) == (
            CrashType::HeapBufferOverflow,
            Exploitability::Rce,
        ),
{
}

/// The classification rules in priority order. A replay that timed out is a
/// timeout. Otherwise the first sanitiser pattern found in the stderr text
/// decides, in this order: heap and stack buffer overflows and use-after-free
/// (RCE); uninitialised memory (information leak); integer overflow, null
/// pointer and misaligned access (DoS); data races (logic); out of memory or
/// "cannot allocate", stack overflow, assertion failures and panics (DoS).
/// With none of them, a signal exit code decides: SIGSEGV (-11) is a null
/// dereference, SIGABRT (-6) an assertion failure, SIGFPE (-8) an integer
/// overflow; anything else is unknown.
pub proof fn law_classification_rules(s: Seq<char>, exit_code: Option<i32>)
    ensures
        ({
            let r = crash_verdict(s, exit_code, false);
            let hbo = has_sub(s, "heap-buffer-overflow"@);
            let sbo = has_sub(s, "stack-buffer-overflow"@);
            let huaf = has_sub(s, "heap-use-after-free"@);
            let uaf = has_sub(s, "use-after-free"@);
            let msan = has_sub(s, "MemorySanitizer"@) || has_sub(s, "use-of-uninitialized-value"@);
            let int_ov = has_sub(s, "integer overflow"@) || has_sub(s, "signed integer overflow"@);
            let null = has_sub(s, "null pointer"@) || has_sub(s, "null-pointer-dereference"@);
            let mis = has_sub(s, "misaligned"@);
            let tsan = has_sub(s, "ThreadSanitizer"@) || has_sub(s, "DATA RACE"@);
            let oom = has_sub(s, "out of memory"@) || has_sub(s, "cannot allocate"@);
            let so = has_sub(s, "stack overflow"@) || (has_sub(s, "SIGSEGV"@) && has_sub(s, "stack"@));
            let assertion = has_sub(s, "assertion failed"@) || has_sub(s, "assertion `"@);
            let panic = has_sub(s, "thread 'main' panicked"@) || has_sub(s, "panicked at"@);
            let rce_before = hbo || sbo || huaf || uaf;
            let before_oom = rce_before || msan || int_ov || null || mis || tsan;
            let any = before_oom || oom || so || assertion || panic;
            &&& hbo ==> r == (CrashType::HeapBufferOverflow, Exploitability::Rce)
            &&& !hbo && sbo ==> r == (CrashType::StackBufferOverflow, Exploitability::Rce)
            &&& !hbo && !sbo && huaf ==> r == (CrashType::HeapUseAfterFree, Exploitability::Rce)
            &&& !hbo && !sbo && !huaf && uaf ==> r == (CrashType::UseAfterFree, Exploitability::Rce)
            &&& !rce_before && msan ==> r == (CrashType::UninitMemory, Exploitability::InfoLeak)
            &&& !rce_before && !msan && int_ov ==> r == (CrashType::IntegerOverflow, Exploitability::Dos)
            &&& !rce_before && !msan && !int_ov && null ==> r == (CrashType::NullDeref, Exploitability::Dos)
            &&& !rce_before && !msan && !int_ov && !null && mis ==> r == (
                CrashType::MisalignedAccess,
                Exploitability::Dos,
            )
            &&& !rce_before && !msan && !int_ov && !null && !mis && tsan ==> r == (
                CrashType::DataRace,
                Exploitability::Logic,
            )
            &&& !before_oom && oom ==> r == (CrashType::OutOfMemory, Exploitability::Dos)
            &&& !before_oom && !oom && so ==> r == (CrashType::StackOverflow, Exploitability::Dos)
            &&& !before_oom && !oom && !so && assertion ==> r == (
                CrashType::AssertionFailure,
                Exploitability::Dos,
            )
            &&& !before_oom && !oom && !so && !assertion && panic ==> r == (
                CrashType::ControlledPanic,
                Exploitability::Dos,
            )
            &&& !any && exit_code == Some(-11i32) ==> r == (CrashType::NullDeref, Exploitability::Dos)
            &&& !any && exit_code == Some(-6i32) ==> r == (CrashType::AssertionFailure, Exploitability::Dos)
            &&& !any && exit_code == Some(-8i32) ==> r == (CrashType::IntegerOverflow, Exploitability::Dos)
            &&& !any && exit_code != Some(-11i32) && exit_code != Some(-6i32) && exit_code != Some(-8i32)
                ==> r == (CrashType::Unknown, Exploitability::Unknown)
        }),
{
}

/// Classify a crash based on stderr output and exit code.
pub fn classify_crash(stderr: &str, exit_code: Option<i32>, timed_out: bool) -> (r: (CrashType, Exploitability))
    ensures
        r == crash_verdict(stderr@, exit_code, timed_out),
{
    if timed_out {
        return (CrashType::Timeout, Exploitability::Dos);
    }
    let s = chars_of(stderr);
    if chars_contain(&s, "heap-buffer-overflow") {
        return (CrashType::HeapBufferOverflow, Exploitability::Rce);
    }
    if chars_contain(&s, "stack-buffer-overflow") {
        return (CrashType::StackBufferOverflow, Exploitability::Rce);
    }
    if chars_contain(&s, "heap-use-after-free") {
        return (CrashType::HeapUseAfterFree, Exploitability::Rce);
    }
    if chars_contain(&s, "use-after-free") {
        return (CrashType::UseAfterFree, Exploitability::Rce);
    }
    if chars_contain(&s, "MemorySanitizer") || chars_contain(&s, "use-of-uninitialized-value") {
        return (CrashType::UninitMemory, Exploitability::InfoLeak);
    }
    if chars_contain(&s, "integer overflow") || chars_contain(&s, "signed integer overflow") {
        return (CrashType::IntegerOverflow, Exploitability::Dos);
    }
    if chars_contain(&s, "null pointer") || chars_contain(&s, "null-pointer-dereference") {
        return (CrashType::NullDeref, Exploitability::Dos);
    }
    if chars_contain(&s, "misaligned") {
        return (CrashType::MisalignedAccess, Exploitability::Dos);
    }
    if chars_contain(&s, "ThreadSanitizer") || chars_contain(&s, "DATA RACE") {
        return (CrashType::DataRace, Exploitability::Logic);
    }
    if chars_contain(&s, "out of memory") || chars_contain(&s, "cannot allocate") {
        return (CrashType::OutOfMemory, Exploitability::Dos);
    }
    if chars_contain(&s, "stack overflow") || (chars_contain(&s, "SIGSEGV") && chars_contain(&s, "stack")) {
        return (CrashType::StackOverflow, Exploitability::Dos);
    }
    if chars_contain(&s, "assertion failed") || chars_contain(&s, "assertion `") {
        return (CrashType::AssertionFailure, Exploitability::Dos);
    }
    if chars_contain(&s, "thread 'main' panicked") || chars_contain(&s, "panicked at") {
        return (CrashType::ControlledPanic, Exploitability::Dos);
    }
    match exit_code {
        Some(code) => {
            if code == -11 {
                (CrashType::NullDeref, Exploitability::Dos)
            } else if code == -6 {
                (CrashType::AssertionFailure, Exploitability::Dos)
            } else if code == -8 {
                (CrashType::IntegerOverflow, Exploitability::Dos)
            } else {
                (CrashType::Unknown, Exploitability::Unknown)
            }
        },
        None => (CrashType::Unknown, Exploitability::Unknown),
    }
}

/// The CVSS 3.1 base-score estimate, in tenths of a point.
pub open spec fn cvss_tenths(t: CrashType, e: Exploitability) -> int {
    match e {
        Exploitability::Rce => match t {
            CrashType::HeapBufferOverflow | CrashType::HeapUseAfterFree => 98,
            CrashType::StackBufferOverflow => 90,
            CrashType::UseAfterFree => 88,
            _ => 80,
        },
        Exploitability::InfoLeak => 75,
        Exploitability::Dos => match t {
            CrashType::OutOfMemory | CrashType::StackOverflow => 75,
            CrashType::Timeout => 65,
            _ => 59,
        },
        Exploitability::Logic => 65,
        Exploitability::Unknown => 40,
    }
}

/// Compute a CVSS 3.1 base score estimate, in tenths of a point (98 is 9.8).
pub fn estimate_cvss_tenths(crash_type: &CrashType, exploitability: &Exploitability) -> (s: u8)
    ensures
        s == cvss_tenths(*crash_type, *exploitability),
{
    match exploitability {
        Exploitability::Rce => match crash_type {
            CrashType::HeapBufferOverflow | CrashType::HeapUseAfterFree => 98,
            CrashType::StackBufferOverflow => 90,
            CrashType::UseAfterFree => 88,
            _ => 80,
        },
        Exploitability::InfoLeak => 75,
        Exploitability::Dos => match crash_type {
            CrashType::OutOfMemory | CrashType::StackOverflow => 75,
            CrashType::Timeout => 65,
            _ => 59,
        },
        Exploitability::Logic => 65,
        Exploitability::Unknown => 40,
    }
}

/// The remediation guidance for a crash type.
pub open spec fn remediation_text(t: CrashType) -> Seq<char> {
    match t {
        CrashType::HeapBufferOverflow | CrashType::StackBufferOverflow => "Add bounds checking before indexing. Use safe Rust slice operations. Consider replacing unsafe pointer arithmetic with safe alternatives."@,
        CrashType::UseAfterFree | CrashType::HeapUseAfterFree => "Audit ownership and lifetime annotations. Ensure no Arc/Rc cycles. Review all unsafe blocks that store raw pointers."@,
        CrashType::UninitMemory => "Initialise all memory before use. Replace MaybeUninit with safe alternatives where possible. Add MSAN CI checks."@,
        CrashType::IntegerOverflow => "Use checked arithmetic (checked_add, checked_mul) for all attacker-controlled values. Enable overflow-checks = true in Cargo.toml profiles."@,
        CrashType::NullDeref => "Replace raw pointer dereferences with safe Option-based patterns. Add null checks before all FFI calls."@,
        CrashType::OutOfMemory => "Add allocation size limits before Vec::reserve and Vec::with_capacity calls. Validate compact-size fields against MAX_PAYLOAD_SIZE before allocating."@,
        CrashType::DataRace => "Add appropriate synchronisation (Mutex, RwLock, or atomic operations). Review all shared mutable state accessed from multiple threads."@,
        CrashType::Timeout => "Add timeout guards to all parsing loops. Ensure no unbounded iteration over attacker-controlled data."@,
        CrashType::AssertionFailure => "Replace debug_assert! with proper error handling in production code paths. Ensure assertions are not reachable from network input."@,
        _ => "Perform manual root cause analysis. Review the sanitiser report and stack trace to identify the vulnerable code path."@,
    }
}

/// The remediation advice per crash type: buffer overflows share one text,
/// use-after-free kinds another, misaligned access, controlled panics and
/// unknown crashes get the manual-analysis text, and each other type its own.
pub proof fn law_remediation_table(t: CrashType)
    ensures
        (t == CrashType::HeapBufferOverflow || t == CrashType::StackBufferOverflow) ==> remediation_text(t)
            == "Add bounds checking before indexing. Use safe Rust slice operations. Consider replacing unsafe pointer arithmetic with safe alternatives."@,
        (t == CrashType::UseAfterFree || t == CrashType::HeapUseAfterFree) ==> remediation_text(t)
            == "Audit ownership and lifetime annotations. Ensure no Arc/Rc cycles. Review all unsafe blocks that store raw pointers."@,
        t == CrashType::UninitMemory ==> remediation_text(t)
            == "Initialise all memory before use. Replace MaybeUninit with safe alternatives where possible. Add MSAN CI checks."@,
        t == CrashType::IntegerOverflow ==> remediation_text(t)
            == "Use checked arithmetic (checked_add, checked_mul) for all attacker-controlled values. Enable overflow-checks = true in Cargo.toml profiles."@,
        t == CrashType::NullDeref ==> remediation_text(t)
            == "Replace raw pointer dereferences with safe Option-based patterns. Add null checks before all FFI calls."@,
        t == CrashType::OutOfMemory ==> remediation_text(t)
            == "Add allocation size limits before Vec::reserve and Vec::with_capacity calls. Validate compact-size fields against MAX_PAYLOAD_SIZE before allocating."@,
        t == CrashType::DataRace ==> remediation_text(t)
            == "Add appropriate synchronisation (Mutex, RwLock, or atomic operations). Review all shared mutable state accessed from multiple threads."@,
        t == CrashType::Timeout ==> remediation_text(t)
            == "Add timeout guards to all parsing loops. Ensure no unbounded iteration over attacker-controlled data."@,
        t == CrashType::AssertionFailure ==> remediation_text(t)
            == "Replace debug_assert! with proper error handling in production code paths. Ensure assertions are not reachable from network input."@,
        (t == CrashType::MisalignedAccess || t == CrashType::StackOverflow || t == CrashType::ControlledPanic
            || t == CrashType::Unknown) ==> remediation_text(t)
            == "Perform manual root cause analysis. Review the sanitiser report and stack trace to identify the vulnerable code path."@,
{
}

/// Generate remediation guidance.
pub fn remediation_guidance(crash_type: &CrashType) -> (r: String)
    ensures
        r@ == remediation_text(*crash_type),
{
    let text: &str = match crash_type {
        CrashType::HeapBufferOverflow | CrashType::StackBufferOverflow => "Add bounds checking before indexing. Use safe Rust slice operations. Consider replacing unsafe pointer arithmetic with safe alternatives.",
        CrashType::UseAfterFree | CrashType::HeapUseAfterFree => "Audit ownership and lifetime annotations. Ensure no Arc/Rc cycles. Review all unsafe blocks that store raw pointers.",
        CrashType::UninitMemory => "Initialise all memory before use. Replace MaybeUninit with safe alternatives where possible. Add MSAN CI checks.",
        CrashType::IntegerOverflow => "Use checked arithmetic (checked_add, checked_mul) for all attacker-controlled values. Enable overflow-checks = true in Cargo.toml profiles.",
        CrashType::NullDeref => "Replace raw pointer dereferences with safe Option-based patterns. Add null checks before all FFI calls.",
        CrashType::OutOfMemory => "Add allocation size limits before Vec::reserve and Vec::with_capacity calls. Validate compact-size fields against MAX_PAYLOAD_SIZE before allocating.",
        CrashType::DataRace => "Add appropriate synchronisation (Mutex, RwLock, or atomic operations). Review all shared mutable state accessed from multiple threads.",
        CrashType::Timeout => "Add timeout guards to all parsing loops. Ensure no unbounded iteration over attacker-controlled data.",
        CrashType::AssertionFailure => "Replace debug_assert! with proper error handling in production code paths. Ensure assertions are not reachable from network input.",
        _ => "Perform manual root cause analysis. Review the sanitiser report and stack trace to identify the vulnerable code path.",
    };
    text.to_owned()
}

/// Longest stderr excerpt kept in a finding, in characters.
pub const EXCERPT_CHARS: usize = 500;

/// The first `EXCERPT_CHARS` characters of a harness's stderr.
pub fn stderr_excerpt(stderr: &str) -> (r: String)
    ensures
        r@ == if stderr@.len() > EXCERPT_CHARS {
            stderr@.take(EXCERPT_CHARS as int)
        } else {
            stderr@
        },
{
    let len = stderr.unicode_len();
    let n = if len > EXCERPT_CHARS { EXCERPT_CHARS } else { len };
    let part = stderr.substring_char(0, n);
    assert(stderr@.subrange(0, len as int) =~= stderr@);
    part.to_owned()
}

/// Whether a replay counts as timed out: it took at least the timeout.
pub open spec fn replay_timed_out(elapsed_ms: nat, timeout_secs: nat) -> bool {
    elapsed_ms >= timeout_secs * 1000
}

/// A single triaged crash finding; the CVSS score is kept in tenths of a point.
pub struct CrashFinding {
    /// Unique identifier (hex SHA-256 of the crash input).
    pub id: String,
    /// Path to the crash input file.
    pub input_path: String,
    /// Size of the crash input in bytes.
    pub input_size: usize,
    /// Crash type classification.
    pub crash_type: CrashType,
    /// Exploitability rating.
    pub exploitability: Exploitability,
    /// Exit code of the harness process.
    pub exit_code: Option<i32>,
    /// Signal that killed the process (if any).
    pub signal: Option<i32>,
    /// First characters of stderr output (sanitiser report).
    pub stderr_excerpt: String,
    /// Whether the crash is reproducible.
    pub reproducible: bool,
    /// Time to reproduce in milliseconds.
    pub reproduction_time_ms: u64,
    /// Suggested CVSS 3.1 base score, in tenths.
    pub cvss_tenths: u8,
    /// Remediation notes.
    pub remediation: String,
}

/// Build the finding for one crash input from the outcome of its replay:
/// classify it (timed out when it took at least `timeout_secs`), score it and
/// attach the remediation advice.
pub fn triage_finding(
    input: &[u8],
    input_path: String,
    exit_code: Option<i32>,
    stderr_excerpt: String,
    reproducible: bool,
    elapsed_ms: u64,
    timeout_secs: u64,
) -> (f: CrashFinding)
    requires
        timeout_secs * 1000 <= u64::MAX,
    ensures
        f.id@ == hex_lower(sha256_of(input@)),
        f.input_path == input_path,
        f.input_size == input@.len(),
        (f.crash_type, f.exploitability) == crash_verdict(
            stderr_excerpt@,
            exit_code,
            replay_timed_out(elapsed_ms as nat, timeout_secs as nat),
        ),
        f.exit_code == exit_code,
        f.signal is None,
        f.stderr_excerpt == stderr_excerpt,
        f.reproducible == reproducible,
        f.reproduction_time_ms == elapsed_ms,
        f.cvss_tenths == cvss_tenths(f.crash_type, f.exploitability),
        f.remediation@ == remediation_text(f.crash_type),
{
    let id = sha256_hex(input);
    let timed_out = elapsed_ms >= timeout_secs * 1000;
    let (crash_type, exploitability) = classify_crash(stderr_excerpt.as_str(), exit_code, timed_out);
    let cvss = estimate_cvss_tenths(&crash_type, &exploitability);
    let remediation = remediation_guidance(&crash_type);
    CrashFinding {
        id,
        input_path,
        input_size: input.len(),
        crash_type,
        exploitability,
        exit_code,
        signal: None,
        stderr_excerpt,
        reproducible,
        reproduction_time_ms: elapsed_ms,
        cvss_tenths: cvss,
        remediation,
    }
}

/// The content hashes already triaged, for deduplication.
pub struct SeenHashes {
    hashes: Vec<String>,
}

impl SeenHashes {
    /// The set of hashes seen so far.
    pub closed spec fn seen(&self) -> Set<Seq<char>> {
        self.hashes@.map_values(|h: String| h@).to_set()
    }

    /// No hash seen yet.
    pub fn new() -> (s: SeenHashes)
        ensures
            s.seen() == Set::<Seq<char>>::empty(),
    {
        let s = SeenHashes { hashes: Vec::new() };
        assert(s.seen() =~= Set::<Seq<char>>::empty());
        s
    }

    /// Records `hash`; returns whether it was new (so the input should be triaged).
    pub fn insert(&mut self, hash: &String) -> (is_new: bool)
        ensures
            is_new == !old(self).seen().contains(hash@),
            final(self).seen() == old(self).seen().insert(hash@),
    {
        let ghost hv = self.hashes@.map_values(|h: String| h@);
        let mut i: usize = 0;
        while i < self.hashes.len()
            invariant
                i <= self.hashes@.len(),
                hv == self.hashes@.map_values(|h: String| h@),
                forall|j: int| 0 <= j < i ==> #[trigger] self.hashes@[j]@ != hash@,
            decreases self.hashes.len() - i,
        {
            if self.hashes[i] == *hash {
                proof {
                    assert(hv[i as int] == hash@);
                    assert(hv.to_set().contains(hash@));
                    assert(self.seen().insert(hash@) =~= self.seen());
                }
                return false;
            }
            i = i + 1;
        }
        proof {
            if hv.to_set().contains(hash@) {
                let j = choose|j: int| 0 <= j < hv.len() && hv[j] == hash@;
                assert(self.hashes@[j]@ == hash@);
            }
        }
        self.hashes.push(hash.clone());
        proof {
            let nv = self.hashes@.map_values(|h: String| h@);
            assert(nv =~= hv.push(hash@));
            assert(nv.to_set() =~= hv.to_set().insert(hash@)) by {
                assert forall|x: Seq<char>| nv.to_set().contains(x) implies hv.to_set().insert(hash@).contains(x) by {
                    let j = choose|j: int| 0 <= j < nv.len() && nv[j] == x;
                    if j < hv.len() {
                        assert(hv[j] == x);
                    }
                }
                assert forall|x: Seq<char>| hv.to_set().insert(hash@).contains(x) implies nv.to_set().contains(x) by {
                    if x == hash@ {
                        assert(nv[hv.len() as int] == x);
                    } else {
                        let j = choose|j: int| 0 <= j < hv.len() && hv[j] == x;
                        assert(nv[j] == x);
                    }
                }
            }
        }
        true
    }
}

/// Indices `i < n` with `ranks[i] == r`, in increasing order.
pub open spec fn indices_with_rank(ranks: Seq<int>, r: int, n: int) -> Seq<int>
    decreases n,
{
    if n <= 0 {
        Seq::empty()
    } else if ranks[n - 1] == r {
        indices_with_rank(ranks, r, n - 1).push(n - 1)
    } else {
        indices_with_rank(ranks, r, n - 1)
    }
}

/// All indices grouped by rank `0..k`, each group in increasing order: the
/// order a stable sort by rank produces.
pub open spec fn stable_rank_order(ranks: Seq<int>, k: int) -> Seq<int>
    decreases k,
{
    if k <= 0 {
        Seq::empty()
    } else {
        stable_rank_order(ranks, k - 1) + indices_with_rank(ranks, k - 1, ranks.len() as int)
    }
}

/// The severity ranks of a list of findings.
pub open spec fn finding_ranks(f: Seq<CrashFinding>) -> Seq<int> {
    f.map_values(|x: CrashFinding| exploitability_rank(x.exploitability))
}

/// The order in which findings are reported: most severe first, and in input
/// order among findings of the same exploitability (a stable sort).
pub fn severity_order(findings: &Vec<CrashFinding>) -> (order: Vec<usize>)
    ensures
        order@.map_values(|i: usize| i as int) == stable_rank_order(
            finding_ranks(findings@),
            EXPLOITABILITY_KINDS as int,
        ),
{
    let ghost ranks = finding_ranks(findings@);
    let mut order: Vec<usize> = Vec::new();
    let mut r: usize = 0;
    while r < EXPLOITABILITY_KINDS
        invariant
            r <= EXPLOITABILITY_KINDS,
            ranks == finding_ranks(findings@),
            order@.map_values(|i: usize| i as int) == stable_rank_order(ranks, r as int),
        decreases EXPLOITABILITY_KINDS - r,
    {
        let ghost base = order@.map_values(|i: usize| i as int);
        let mut i: usize = 0;
        while i < findings.len()
            invariant
                i <= findings@.len(),
                r < EXPLOITABILITY_KINDS,
                ranks == finding_ranks(findings@),
                base == stable_rank_order(ranks, r as int),
                order@.map_values(|i: usize| i as int) == base + indices_with_rank(ranks, r as int, i as int),
            decreases findings.len() - i,
        {
            let ghost before = order@.map_values(|i: usize| i as int);
            if severity_rank(findings[i].exploitability) == r {
                order.push(i);
                assert(order@.map_values(|i: usize| i as int) =~= before.push(i as int));
            }
            i = i + 1;
        }
        r = r + 1;
    }
    order
}

/// How many of the first `n` entries have rank `r`.
pub open spec fn rank_count(ranks: Seq<int>, r: int, n: int) -> int
    decreases n,
{
    if n <= 0 {
        0
    } else {
        rank_count(ranks, r, n - 1) + if ranks[n - 1] == r { 1int } else { 0int }
    }
}

/// The number of findings of each exploitability, indexed by severity rank.
pub fn exploitability_counts(findings: &Vec<CrashFinding>) -> (counts: Vec<usize>)
    ensures
        counts@.len() == EXPLOITABILITY_KINDS,
        forall|r: int| 0 <= r < EXPLOITABILITY_KINDS ==> #[trigger] counts@[r] == rank_count(
            finding_ranks(findings@),
            r,
            findings@.len() as int,
        ),
{
    let ghost ranks = finding_ranks(findings@);
    let mut counts: Vec<usize> = Vec::new();
    let mut k: usize = 0;
    while k < EXPLOITABILITY_KINDS
        invariant
            k <= EXPLOITABILITY_KINDS,
            counts@.len() == k,
            forall|r: int| 0 <= r < k ==> #[trigger] counts@[r] == 0,
        decreases EXPLOITABILITY_KINDS - k,
    {
        counts.push(0);
        k = k + 1;
    }
    let mut i: usize = 0;
    while i < findings.len()
        invariant
            i <= findings@.len(),
            ranks == finding_ranks(findings@),
            counts@.len() == EXPLOITABILITY_KINDS,
            forall|r: int| 0 <= r < EXPLOITABILITY_KINDS ==> #[trigger] counts@[r] == rank_count(ranks, r, i as int),
            forall|r: int| 0 <= r < EXPLOITABILITY_KINDS ==> #[trigger] counts@[r] <= i,
        decreases findings.len() - i,
    {
        let r = severity_rank(findings[i].exploitability);
        let c = counts[r];
        counts.set(r, c + 1);
        i = i + 1;
    }
    counts
}

/// The position of a crash type in declaration order.
pub open spec fn crash_type_rank(t: CrashType) -> int {
    match t {
        CrashType::HeapBufferOverflow => 0,
        CrashType::StackBufferOverflow => 1,
        CrashType::UseAfterFree => 2,
        CrashType::HeapUseAfterFree => 3,
        CrashType::UninitMemory => 4,
        CrashType::IntegerOverflow => 5,
        CrashType::NullDeref => 6,
        CrashType::MisalignedAccess => 7,
        CrashType::DataRace => 8,
        CrashType::OutOfMemory => 9,
        CrashType::StackOverflow => 10,
        CrashType::AssertionFailure => 11,
        CrashType::ControlledPanic => 12,
        CrashType::Timeout => 13,
        CrashType::Unknown => 14,
    }
}

/// Number of crash types.
pub const CRASH_TYPE_KINDS: usize = 15;

/// The declaration-order position of a crash type.
pub fn type_rank(t: CrashType) -> (r: usize)
    ensures
        r == crash_type_rank(t),
        r < CRASH_TYPE_KINDS,
{
    match t {
        CrashType::HeapBufferOverflow => 0,
        CrashType::StackBufferOverflow => 1,
        CrashType::UseAfterFree => 2,
        CrashType::HeapUseAfterFree => 3,
        CrashType::UninitMemory => 4,
        CrashType::IntegerOverflow => 5,
        CrashType::NullDeref => 6,
        CrashType::MisalignedAccess => 7,
        CrashType::DataRace => 8,
        CrashType::OutOfMemory => 9,
        CrashType::StackOverflow => 10,
        CrashType::AssertionFailure => 11,
        CrashType::ControlledPanic => 12,
        CrashType::Timeout => 13,
        CrashType::Unknown => 14,
    }
}

/// The crash-type positions of a list of findings.
pub open spec fn finding_type_ranks(f: Seq<CrashFinding>) -> Seq<int> {
    f.map_values(|x: CrashFinding| crash_type_rank(x.crash_type))
}

/// The number of findings of each crash type, indexed by declaration order.
pub fn crash_type_counts(findings: &Vec<CrashFinding>) -> (counts: Vec<usize>)
    ensures
        counts@.len() == CRASH_TYPE_KINDS,
        forall|r: int| 0 <= r < CRASH_TYPE_KINDS ==> #[trigger] counts@[r] == rank_count(
            finding_type_ranks(findings@),
            r,
            findings@.len() as int,
        ),
{
    let ghost ranks = finding_type_ranks(findings@);
    let mut counts: Vec<usize> = Vec::new();
    let mut k: usize = 0;
    while k < CRASH_TYPE_KINDS
        invariant
            k <= CRASH_TYPE_KINDS,
            counts@.len() == k,
            forall|r: int| 0 <= r < k ==> #[trigger] counts@[r] == 0,
        decreases CRASH_TYPE_KINDS - k,
    {
        counts.push(0);
        k = k + 1;
    }
    let mut i: usize = 0;
    while i < findings.len()
        invariant
            i <= findings@.len(),
            ranks == finding_type_ranks(findings@),
            counts@.len() == CRASH_TYPE_KINDS,
            forall|r: int| 0 <= r < CRASH_TYPE_KINDS ==> #[trigger] counts@[r] == rank_count(ranks, r, i as int),
            forall|r: int| 0 <= r < CRASH_TYPE_KINDS ==> #[trigger] counts@[r] <= i,
        decreases findings.len() - i,
    {
        let r = type_rank(findings[i].crash_type);
        let c = counts[r];
        counts.set(r, c + 1);
        i = i + 1;
    }
    counts
}

/// What to do while waiting for a replayed harness.
#[derive(Clone, Copy, Debug, PartialEq, Eq, Structural)]
pub enum WaitStep {
    /// The process exited.
    Exited,
    /// The timeout passed; stop waiting.
    TimedOut,
    /// Sleep briefly and poll again.
    Poll,
}

/// One step of waiting for a process with a timeout (times in nanoseconds).
pub fn wait_step(exited: bool, elapsed_nanos: u128, timeout_nanos: u128) -> (s: WaitStep)
    ensures
        s == if exited {
            WaitStep::Exited
        } else if elapsed_nanos >= timeout_nanos {
            WaitStep::TimedOut
        } else {
            WaitStep::Poll
        },
{
    if exited {
        WaitStep::Exited
    } else if elapsed_nanos >= timeout_nanos {
        WaitStep::TimedOut
    } else {
        WaitStep::Poll
    }
}

/// Facts about the indices of one rank: in range, of that rank, increasing,
/// and complete.
pub proof fn lemma_indices_with_rank(ranks: Seq<int>, r: int, n: int)
    requires
        0 <= n <= ranks.len(),
    ensures
        forall|a: int|
            0 <= a < indices_with_rank(ranks, r, n).len() ==> 0 <= #[trigger] indices_with_rank(
                ranks,
                r,
                n,
            )[a] < n && ranks[indices_with_rank(ranks, r, n)[a]] == r,
        forall|a: int, b: int|
            0 <= a < b < indices_with_rank(ranks, r, n).len() ==> #[trigger] indices_with_rank(
                ranks,
                r,
                n,
            )[a] < #[trigger] indices_with_rank(ranks, r, n)[b],
        forall|i: int| 0 <= i < n && ranks[i] == r ==> #[trigger] indices_with_rank(ranks, r, n).contains(i),
    decreases n,
{
    if n > 0 {
        lemma_indices_with_rank(ranks, r, n - 1);
        let p = indices_with_rank(ranks, r, n - 1);
        if ranks[n - 1] == r {
            assert(indices_with_rank(ranks, r, n) == p.push(n - 1));
            assert forall|i: int| 0 <= i < n && ranks[i] == r implies #[trigger] indices_with_rank(ranks, r, n).contains(i) by {
                if i < n - 1 {
                    assert(indices_with_rank(ranks, r, n - 1).contains(i));
                    let a = choose|a: int| 0 <= a < p.len() && p[a] == i;
                    assert(indices_with_rank(ranks, r, n)[a] == i);
                } else {
                    assert(indices_with_rank(ranks, r, n)[p.len() as int] == i);
                }
            }
        } else {
            assert forall|i: int| 0 <= i < n && ranks[i] == r implies #[trigger] indices_with_rank(ranks, r, n).contains(i) by {
                assert(i < n - 1);
                assert(indices_with_rank(ranks, r, n - 1).contains(i));
            }
        }
    }
}

/// Facts about the grouped order over ranks `0..k`: every index in range with
/// a rank below `k`, no index twice, every such index present, and ranks
/// non-decreasing along the order.
pub proof fn lemma_stable_rank_order(ranks: Seq<int>, k: int)
    requires
        0 <= k,
    ensures
        ({
            let o = stable_rank_order(ranks, k);
            &&& forall|a: int|
                0 <= a < o.len() ==> 0 <= #[trigger] o[a] < ranks.len() && 0 <= ranks[o[a]] < k
            &&& o.no_duplicates()
            &&& forall|i: int| 0 <= i < ranks.len() && 0 <= ranks[i] < k ==> #[trigger] o.contains(i)
            &&& forall|a: int, b: int| 0 <= a <= b < o.len() ==> ranks[#[trigger] o[a]] <= ranks[#[trigger] o[b]]
        }),
    decreases k,
{
    if k > 0 {
        lemma_stable_rank_order(ranks, k - 1);
        let n = ranks.len() as int;
        lemma_indices_with_rank(ranks, k - 1, n);
        let p = stable_rank_order(ranks, k - 1);
        let q = indices_with_rank(ranks, k - 1, n);
        let o = p + q;
        assert(stable_rank_order(ranks, k) == o);
        assert forall|a: int| 0 <= a < o.len() implies 0 <= #[trigger] o[a] < ranks.len() && 0 <= ranks[o[a]] < k by {
            if a >= p.len() {
                assert(o[a] == q[a - p.len()]);
            }
        }
        assert forall|a: int, b: int| 0 <= a < o.len() && 0 <= b < o.len() && a != b implies o[a] != o[b] by {
            if a < p.len() && b >= p.len() {
                assert(o[b] == q[b - p.len()]);
            } else if a >= p.len() && b < p.len() {
                assert(o[a] == q[a - p.len()]);
            } else if a >= p.len() && b >= p.len() {
                assert(o[a] == q[a - p.len()]);
                assert(o[b] == q[b - p.len()]);
            }
        }
        assert forall|i: int| 0 <= i < ranks.len() && 0 <= ranks[i] < k implies #[trigger] o.contains(i) by {
            if ranks[i] < k - 1 {
                assert(p.contains(i));
                let a = choose|a: int| 0 <= a < p.len() && p[a] == i;
                assert(o[a] == i);
            } else {
                assert(q.contains(i));
                let a = choose|a: int| 0 <= a < q.len() && q[a] == i;
                assert(o[p.len() + a] == i);
            }
        }
        assert forall|a: int, b: int| 0 <= a <= b < o.len() implies ranks[#[trigger] o[a]] <= ranks[#[trigger] o[b]] by {
            if b >= p.len() {
                assert(o[b] == q[b - p.len()]);
                if a >= p.len() {
                    assert(o[a] == q[a - p.len()]);
                }
            }
        }
    }
}

/// The report order lists every finding exactly once, most severe first.
pub proof fn law_severity_order(f: Seq<CrashFinding>)
    ensures
        ({
            let ranks = finding_ranks(f);
            let o = stable_rank_order(ranks, EXPLOITABILITY_KINDS as int);
            &&& o.no_duplicates()
            &&& forall|a: int| 0 <= a < o.len() ==> 0 <= #[trigger] o[a] < f.len()
            &&& forall|i: int| 0 <= i < f.len() ==> #[trigger] o.contains(i)
            &&& forall|a: int, b: int|
                0 <= a <= b < o.len() ==> exploitability_rank(f[#[trigger] o[a]].exploitability)
                    <= exploitability_rank(f[#[trigger] o[b]].exploitability)
        }),
{
    let ranks = finding_ranks(f);
    lemma_stable_rank_order(ranks, EXPLOITABILITY_KINDS as int);
    let o = stable_rank_order(ranks, EXPLOITABILITY_KINDS as int);
    assert forall|i: int| 0 <= i < f.len() implies #[trigger] o.contains(i) by {
        assert(ranks[i] == exploitability_rank(f[i].exploitability));
        assert(0 <= ranks[i] < EXPLOITABILITY_KINDS);
    }
    assert forall|a: int, b: int| 0 <= a <= b < o.len() implies exploitability_rank(f[#[trigger] o[a]].exploitability)
        <= exploitability_rank(f[#[trigger] o[b]].exploitability) by {
        assert(ranks[o[a]] <= ranks[o[b]]);
    }
}

/// The sum of the counts of ranks `0..k` over the first `n` entries.
pub open spec fn counts_total(ranks: Seq<int>, k: int, n: int) -> int
    decreases k,
{
    if k <= 0 {
        0
    } else {
        counts_total(ranks, k - 1, n) + rank_count(ranks, k - 1, n)
    }
}

/// Adding one entry adds one to the count of its rank only.
proof fn lemma_counts_total_step(ranks: Seq<int>, k: int, n: int)
    requires
        0 < n <= ranks.len(),
        0 <= k,
    ensures
        counts_total(ranks, k, n) == counts_total(ranks, k, n - 1) + if 0 <= ranks[n - 1] < k {
            1int
        } else {
            0int
        },
    decreases k,
{
    if k > 0 {
        lemma_counts_total_step(ranks, k - 1, n);
    }
}

/// The per-exploitability counts add up to the number of findings.
pub proof fn law_counts_total(f: Seq<CrashFinding>)
    ensures
        counts_total(finding_ranks(f), EXPLOITABILITY_KINDS as int, f.len() as int) == f.len(),
{
    lemma_counts_total_prefix(finding_ranks(f), EXPLOITABILITY_KINDS as int, f.len() as int);
}

/// The per-crash-type counts add up to the number of findings.
pub proof fn law_type_counts_total(f: Seq<CrashFinding>)
    ensures
        counts_total(finding_type_ranks(f), CRASH_TYPE_KINDS as int, f.len() as int) == f.len(),
{
    lemma_counts_total_prefix(finding_type_ranks(f), CRASH_TYPE_KINDS as int, f.len() as int);
}

proof fn lemma_counts_total_prefix(ranks: Seq<int>, k: int, n: int)
    requires
        0 <= n <= ranks.len(),
        0 <= k,
        forall|i: int| 0 <= i < ranks.len() ==> 0 <= #[trigger] ranks[i] < k,
    ensures
        counts_total(ranks, k, n) == n,
    decreases n,
{
    if n == 0 {
        lemma_counts_total_zero(ranks, k);
    } else {
        lemma_counts_total_prefix(ranks, k, n - 1);
        lemma_counts_total_step(ranks, k, n);
        assert(0 <= ranks[n - 1] < k);
    }
}

proof fn lemma_counts_total_zero(ranks: Seq<int>, k: int)
    requires
        0 <= k,
    ensures
        counts_total(ranks, k, 0) == 0,
    decreases k,
{
    if k > 0 {
        lemma_counts_total_zero(ranks, k - 1);
    }
}

} // verus!
