use zebra_audit::crash::{
    classify_crash, crash_type_counts, estimate_cvss_tenths, exploitability_counts, remediation_guidance,
    severity_order, severity_rank, stderr_excerpt, triage_finding, type_rank, wait_step, CrashFinding, CrashType,
    Exploitability, SeenHashes, WaitStep,
};

fn finding(e: Exploitability, t: CrashType, id: &str) -> CrashFinding {
    CrashFinding {
        id: id.to_string(),
        input_path: String::new(),
        input_size: 0,
        crash_type: t,
        exploitability: e,
        exit_code: None,
        signal: None,
        stderr_excerpt: String::new(),
        reproducible: true,
        reproduction_time_ms: 0,
        cvss_tenths: 0,
        remediation: String::new(),
    }
}

#[test]
fn timeout_wins_over_everything() {
    assert_eq!(
        classify_crash("ERROR: AddressSanitizer: heap-buffer-overflow", Some(-11), true),
        (CrashType::Timeout, Exploitability::Dos)
    );
}

#[test]
fn asan_reports_are_rce() {
    assert_eq!(
        classify_crash("==1==ERROR: AddressSanitizer: heap-buffer-overflow on address", None, false),
        (CrashType::HeapBufferOverflow, Exploitability::Rce)
    );
    assert_eq!(
        classify_crash("stack-buffer-overflow", None, false),
        (CrashType::StackBufferOverflow, Exploitability::Rce)
    );
    assert_eq!(
        classify_crash("heap-use-after-free READ of size 8", None, false),
        (CrashType::HeapUseAfterFree, Exploitability::Rce)
    );
    assert_eq!(
        classify_crash("use-after-free", None, false),
        (CrashType::UseAfterFree, Exploitability::Rce)
    );
}

#[test]
fn other_sanitisers_are_classified() {
    assert_eq!(
        classify_crash("WARNING: MemorySanitizer: use-of-uninitialized-value", None, false),
        (CrashType::UninitMemory, Exploitability::InfoLeak)
    );
    assert_eq!(
        classify_crash("runtime error: signed integer overflow", None, false),
        (CrashType::IntegerOverflow, Exploitability::Dos)
    );
    assert_eq!(
        classify_crash("runtime error: member access within null pointer", None, false),
        (CrashType::NullDeref, Exploitability::Dos)
    );
    assert_eq!(
        classify_crash("load of misaligned address", None, false),
        (CrashType::MisalignedAccess, Exploitability::Dos)
    );
    assert_eq!(
        classify_crash("WARNING: ThreadSanitizer: DATA RACE", None, false),
        (CrashType::DataRace, Exploitability::Logic)
    );
    assert_eq!(
        classify_crash("memory allocation of 1000 bytes failed: out of memory", None, false),
        (CrashType::OutOfMemory, Exploitability::Dos)
    );
    assert_eq!(
        classify_crash("thread has overflowed its stack\nfatal runtime error: stack overflow", None, false),
        (CrashType::StackOverflow, Exploitability::Dos)
    );
    assert_eq!(
        classify_crash("SIGSEGV on the stack guard page", None, false),
        (CrashType::StackOverflow, Exploitability::Dos)
    );
    assert_eq!(
        classify_crash("assertion failed: x < 10", None, false),
        (CrashType::AssertionFailure, Exploitability::Dos)
    );
    assert_eq!(
        classify_crash("thread 'main' panicked at src/main.rs:3:5", None, false),
        (CrashType::ControlledPanic, Exploitability::Dos)
    );
}

#[test]
fn earlier_patterns_take_priority() {
    assert_eq!(
        classify_crash("heap-use-after-free and heap-buffer-overflow", None, false),
        (CrashType::HeapBufferOverflow, Exploitability::Rce)
    );
    assert_eq!(
        classify_crash("SIGSEGV without the word", Some(-11), false),
        (CrashType::NullDeref, Exploitability::Dos)
    );
}

#[test]
fn signal_exit_codes_are_classified() {
    assert_eq!(classify_crash("", Some(-11), false), (CrashType::NullDeref, Exploitability::Dos));
    assert_eq!(classify_crash("", Some(-6), false), (CrashType::AssertionFailure, Exploitability::Dos));
    assert_eq!(classify_crash("", Some(-8), false), (CrashType::IntegerOverflow, Exploitability::Dos));
    assert_eq!(classify_crash("", Some(-9), false), (CrashType::Unknown, Exploitability::Unknown));
    assert_eq!(classify_crash("", Some(11), false), (CrashType::Unknown, Exploitability::Unknown));
    assert_eq!(classify_crash("", Some(i32::MIN), false), (CrashType::Unknown, Exploitability::Unknown));
    assert_eq!(classify_crash("", None, false), (CrashType::Unknown, Exploitability::Unknown));
}

#[test]
fn cvss_scores_match_table() {
    assert_eq!(estimate_cvss_tenths(&CrashType::HeapBufferOverflow, &Exploitability::Rce), 98);
    assert_eq!(estimate_cvss_tenths(&CrashType::HeapUseAfterFree, &Exploitability::Rce), 98);
    assert_eq!(estimate_cvss_tenths(&CrashType::StackBufferOverflow, &Exploitability::Rce), 90);
    assert_eq!(estimate_cvss_tenths(&CrashType::UseAfterFree, &Exploitability::Rce), 88);
    assert_eq!(estimate_cvss_tenths(&CrashType::Unknown, &Exploitability::Rce), 80);
    assert_eq!(estimate_cvss_tenths(&CrashType::UninitMemory, &Exploitability::InfoLeak), 75);
    assert_eq!(estimate_cvss_tenths(&CrashType::OutOfMemory, &Exploitability::Dos), 75);
    assert_eq!(estimate_cvss_tenths(&CrashType::StackOverflow, &Exploitability::Dos), 75);
    assert_eq!(estimate_cvss_tenths(&CrashType::Timeout, &Exploitability::Dos), 65);
    assert_eq!(estimate_cvss_tenths(&CrashType::NullDeref, &Exploitability::Dos), 59);
    assert_eq!(estimate_cvss_tenths(&CrashType::DataRace, &Exploitability::Logic), 65);
    assert_eq!(estimate_cvss_tenths(&CrashType::Unknown, &Exploitability::Unknown), 40);
}

#[test]
fn rce_scores_above_everything_else() {
    let types = [
        CrashType::HeapBufferOverflow,
        CrashType::Timeout,
        CrashType::OutOfMemory,
        CrashType::Unknown,
    ];
    let others = [Exploitability::Dos, Exploitability::InfoLeak, Exploitability::Logic, Exploitability::Unknown];
    for t1 in &types {
        for t2 in &types {
            for e in &others {
                assert!(estimate_cvss_tenths(t1, &Exploitability::Rce) > estimate_cvss_tenths(t2, e));
            }
        }
    }
}

#[test]
fn remediation_text_per_type() {
    assert_eq!(
        remediation_guidance(&CrashType::HeapBufferOverflow),
        "Add bounds checking before indexing. Use safe Rust slice operations. Consider replacing unsafe pointer arithmetic with safe alternatives."
    );
    assert_eq!(remediation_guidance(&CrashType::StackBufferOverflow), remediation_guidance(&CrashType::HeapBufferOverflow));
    assert_eq!(
        remediation_guidance(&CrashType::Timeout),
        "Add timeout guards to all parsing loops. Ensure no unbounded iteration over attacker-controlled data."
    );
    assert_eq!(
        remediation_guidance(&CrashType::ControlledPanic),
        "Perform manual root cause analysis. Review the sanitiser report and stack trace to identify the vulnerable code path."
    );
    assert_eq!(remediation_guidance(&CrashType::MisalignedAccess), remediation_guidance(&CrashType::Unknown));
}

#[test]
fn excerpt_keeps_first_500_chars() {
    let long: String = "é".repeat(600);
    let e = stderr_excerpt(&long);
    assert_eq!(e.chars().count(), 500);
    assert_eq!(e, "é".repeat(500));
    assert_eq!(stderr_excerpt("short"), "short");
    assert_eq!(stderr_excerpt(""), "");
}

#[test]
fn triage_builds_complete_finding() {
    let f = triage_finding(b"abc", "crashes/a".to_string(), Some(-6), "heap-buffer-overflow".to_string(), true, 120, 30);
    assert_eq!(f.id, "ba7816bf8f01cfea414140de5dae2223b00361a396177a9cb410ff61f20015ad");
    assert_eq!(f.input_path, "crashes/a");
    assert_eq!(f.input_size, 3);
    assert_eq!(f.crash_type, CrashType::HeapBufferOverflow);
    assert_eq!(f.exploitability, Exploitability::Rce);
    assert_eq!(f.exit_code, Some(-6));
    assert_eq!(f.signal, None);
    assert!(f.reproducible);
    assert_eq!(f.reproduction_time_ms, 120);
    assert_eq!(f.cvss_tenths, 98);
    assert_eq!(f.remediation, remediation_guidance(&CrashType::HeapBufferOverflow));
}

#[test]
fn triage_marks_slow_replay_as_timeout() {
    let f = triage_finding(b"", "x".to_string(), None, "heap-buffer-overflow".to_string(), false, 30_000, 30);
    assert_eq!(f.id, "e3b0c44298fc1c149afbf4c8996fb92427ae41e4649b934ca495991b7852b855");
    assert_eq!((f.crash_type, f.exploitability), (CrashType::Timeout, Exploitability::Dos));
    assert_eq!(f.cvss_tenths, 65);
    let g = triage_finding(b"", "x".to_string(), None, String::new(), true, 29_999, 30);
    assert_eq!((g.crash_type, g.exploitability), (CrashType::Unknown, Exploitability::Unknown));
    assert_eq!(g.cvss_tenths, 40);
}

#[test]
fn seen_hashes_deduplicates() {
    let mut seen = SeenHashes::new();
    assert!(seen.insert(&"aa".to_string()));
    assert!(seen.insert(&"bb".to_string()));
    assert!(!seen.insert(&"aa".to_string()));
    assert!(!seen.insert(&"bb".to_string()));
    assert!(seen.insert(&"cc".to_string()));
}

#[test]
fn severity_order_is_stable_and_most_severe_first() {
    let fs = vec![
        finding(Exploitability::Unknown, CrashType::Unknown, "0"),
        finding(Exploitability::Dos, CrashType::Timeout, "1"),
        finding(Exploitability::Rce, CrashType::UseAfterFree, "2"),
        finding(Exploitability::Dos, CrashType::OutOfMemory, "3"),
        finding(Exploitability::Rce, CrashType::HeapBufferOverflow, "4"),
        finding(Exploitability::Logic, CrashType::DataRace, "5"),
    ];
    assert_eq!(severity_order(&fs), vec![2, 4, 1, 3, 5, 0]);
    assert_eq!(severity_order(&Vec::new()), Vec::<usize>::new());
}

#[test]
fn counts_by_exploitability_and_type() {
    let fs = vec![
        finding(Exploitability::Dos, CrashType::Timeout, "a"),
        finding(Exploitability::Rce, CrashType::UseAfterFree, "b"),
        finding(Exploitability::Dos, CrashType::Timeout, "c"),
    ];
    assert_eq!(exploitability_counts(&fs), vec![1, 2, 0, 0, 0]);
    let by_type = crash_type_counts(&fs);
    assert_eq!(by_type.len(), 15);
    assert_eq!(by_type[type_rank(CrashType::Timeout)], 2);
    assert_eq!(by_type[type_rank(CrashType::UseAfterFree)], 1);
    assert_eq!(by_type.iter().sum::<usize>(), 3);
    assert_eq!(severity_rank(Exploitability::InfoLeak), 2);
}

#[test]
fn wait_step_decisions() {
    assert_eq!(wait_step(true, 100, 10), WaitStep::Exited);
    assert_eq!(wait_step(false, 10, 10), WaitStep::TimedOut);
    assert_eq!(wait_step(false, 9, 10), WaitStep::Poll);
}
