use zebra_audit::klee::{
    angr_script, bitcode_crates, cargo_bitcode_args, corpus_entry_name, klee_arguments, klee_script, klee_targets,
    u64_decimal, BITCODE_RUSTFLAGS,
};

#[test]
fn decimal_forms() {
    assert_eq!(u64_decimal(0), "0");
    assert_eq!(u64_decimal(86400), "86400");
    assert_eq!(u64_decimal(u64::MAX), u64::MAX.to_string());
}

#[test]
fn corpus_names_are_zero_padded() {
    assert_eq!(corpus_entry_name(7), "klee_000007");
    assert_eq!(corpus_entry_name(0), "klee_000000");
    assert_eq!(corpus_entry_name(123456), "klee_123456");
    assert_eq!(corpus_entry_name(1234567), "klee_1234567");
    for n in [0u64, 9, 10, 99999, 1_000_000] {
        assert_eq!(corpus_entry_name(n), format!("klee_{:06}", n));
    }
}

#[test]
fn target_table() {
    let t = klee_targets();
    assert_eq!(t.len(), 4);
    assert_eq!((t[1].function, t[1].bitcode, t[1].input_size, t[1].search), ("zebra_network_message_read", "zebra_network.bc", 65536, "bfs"));
    assert_eq!(t[3].input_size, 10240);
    assert_eq!(bitcode_crates(), vec!["zebra-chain", "zebra-network", "zebra-rpc", "zebra-script", "zebra-state"]);
    assert_eq!(BITCODE_RUSTFLAGS, "--emit=llvm-bc -C opt-level=0 -C debuginfo=2");
    assert_eq!(cargo_bitcode_args("zebra-rpc"), vec!["build", "--package", "zebra-rpc", "--target", "x86_64-unknown-linux-gnu"]);
}

#[test]
fn klee_command_line() {
    let t = &klee_targets()[0];
    let args = klee_arguments(t, 60, "out/zebra_chain_transaction_read", "bc/zebra_chain.bc");
    assert_eq!(
        args,
        vec![
            "--search", "dfs", "--max-time", "60", "--max-memory", "8192", "--output-dir",
            "out/zebra_chain_transaction_read", "--emit-all-errors", "--use-query-log=all:kquery",
            "--write-test-info", "--write-paths", "--write-cov", "--entry-point", "zebra_chain_transaction_read",
            "bc/zebra_chain.bc",
        ]
    );
}

#[test]
fn klee_script_matches_template() {
    let output = "./klee-output";
    let timeout = 86400u64;
    let bcs: Vec<String> = klee_targets().iter().map(|t| format!("./bitcode/{}", t.bitcode)).collect();
    let mut expected = String::from("#!/usr/bin/env bash\n# KLEE invocation script\nset -euo pipefail\n\n");
    for (t, bc) in klee_targets().iter().zip(bcs.iter()) {
        expected.push_str(&format!(
            "# Target: {}\n\
             mkdir -p {}/{}\n\
             klee \\\n\
               --search={} \\\n\
               --max-time={} \\\n\
               --max-memory=8192 \\\n\
               --output-dir={}/{} \\\n\
               --emit-all-errors \\\n\
               --use-query-log=all:kquery \\\n\
               --write-test-info \\\n\
               --write-paths \\\n\
               --write-cov \\\n\
               --entry-point={} \\\n\
               {}\n\n",
            t.function, output, t.function, t.search, timeout, output, t.function, t.function, bc,
        ));
    }
    assert_eq!(klee_script(output, timeout, &bcs), expected);
}

#[test]
fn angr_script_embeds_paths() {
    let s = angr_script("./target/zebrad", "./angr_analysis.py");
    assert!(s.starts_with("#!/usr/bin/env python3\n\"\"\"\nangr-based concolic execution analysis for Zebra.\nTarget binary: ./target/zebrad\n"));
    assert!(s.contains("Usage:\n    pip install angr\n    python3 ./angr_analysis.py\n\"\"\"\n"));
    assert!(s.contains("\nBINARY = \"./target/zebrad\"\nMAX_STATES = 10_000\n"));
    assert!(s.contains("print(f\"[*] Found dangerous function: {func_name} @ {hex(func.rebased_addr)}\")"));
    assert!(s.contains("findings.append({\n"));
    assert!(s.ends_with("if __name__ == \"__main__\":\n    main()\n"));
    assert!(!s.contains("{{"));
}
