//! Symbolic-execution orchestration: the KLEE targets, the command lines and
//! scripts that drive KLEE and angr, and the names of converted corpus entries.

use vstd::prelude::*;
use vstd::string::StringExecFns;
use crate::text::{push_char, views};

verus! {

/// A fixed piece of the generated angr script.
pub const ANGR_HEAD: &'static str = "#!/usr/bin/env python3\n\"\"\"\nangr-based concolic execution analysis for Zebra.\nTarget binary: ";

/// A fixed piece of the generated angr script.
pub const ANGR_AFTER_BINARY: &'static str = "\n\nThis script:\n1. Loads the binary into angr.\n2. Hooks recv/read syscalls to inject symbolic data.\n3. Explores paths that reach unsafe blocks or dangerous syscalls.\n4. Reports any path that reaches execve/system with attacker-controlled args.\n\nUsage:\n    pip install angr\n    python3 ";

/// A fixed piece of the generated angr script.
pub const ANGR_AFTER_OUTPUT: &'static str = "\n\"\"\"\n\nimport angr\nimport claripy\nimport logging\n\nlogging.getLogger('angr').setLevel(logging.WARNING)\nlogging.getLogger('cle').setLevel(logging.WARNING)\n\nBINARY = \"";

/// A fixed piece of the generated angr script.
pub const ANGR_TAIL: &'static str = "\"\nMAX_STATES = 10_000\nSYMBOLIC_INPUT_SIZE = 65_536  # bytes\n\n# Dangerous functions to detect.\nDANGEROUS_FUNCTIONS = [\n    \"execve\", \"system\", \"popen\", \"exec\", \"fork\",\n    \"dlopen\", \"mmap\", \"mprotect\",\n]\n\n# Unsafe block markers (function names containing unsafe operations).\nUNSAFE_MARKERS = [\n    \"from_raw_parts\", \"transmute\", \"ptr::read\", \"ptr::write\",\n    \"slice::from_raw_parts\", \"mem::forget\",\n]\n\n\ndef make_symbolic_input(size: int) -> claripy.BVS:\n    \"\"\"Create a symbolic bitvector representing network input.\"\"\"\n    return claripy.BVS(\"network_input\", size * 8)\n\n\ndef hook_recv(state):\n    \"\"\"Hook the recv syscall to inject symbolic data.\"\"\"\n    sym_data = make_symbolic_input(SYMBOLIC_INPUT_SIZE)\n    state.memory.store(state.regs.rsi, sym_data)\n    state.regs.rax = SYMBOLIC_INPUT_SIZE\n\n\ndef hook_read(state):\n    \"\"\"Hook the read syscall to inject symbolic data.\"\"\"\n    sym_data = make_symbolic_input(SYMBOLIC_INPUT_SIZE)\n    state.memory.store(state.regs.rsi, sym_data)\n    state.regs.rax = SYMBOLIC_INPUT_SIZE\n\n\ndef find_dangerous_paths(proj, cfg):\n    \"\"\"Find paths that reach dangerous functions.\"\"\"\n    findings = []\n\n    for func_name in DANGEROUS_FUNCTIONS:\n        try:\n            func = proj.loader.find_symbol(func_name)\n            if func is None:\n                continue\n\n            print(f\"[*] Found dangerous function: {func_name} @ {hex(func.rebased_addr)}\")\n\n            # Create a simulation manager starting from main.\n            entry = proj.entry\n            state = proj.factory.blank_state(addr=entry)\n            state.options.add(angr.options.LAZY_SOLVES)\n\n            simgr = proj.factory.simulation_manager(state)\n            simgr.explore(\n                find=func.rebased_addr,\n                num_find=5,\n                step_func=lambda sm: sm if len(sm.found) < 5 else sm.move(\"found\", \"deadended\"),\n            )\n\n            for found_state in simgr.found:\n                # Concretise the symbolic input.\n                try:\n                    concrete_input = found_state.solver.eval(\n                        found_state.memory.load(found_state.regs.rsi, SYMBOLIC_INPUT_SIZE),\n                        cast_to=bytes,\n                    )\n                    findings.append({\n                        \"function\": func_name,\n                        \"address\": hex(func.rebased_addr),\n                        \"input\": concrete_input.hex(),\n                        \"input_len\": len(concrete_input),\n                    })\n                    print(f\"  [!] Path found to {func_name}: input={concrete_input[:32].hex()}...\")\n                except Exception as e:\n                    print(f\"  [!] Path found but concretisation failed: {e}\")\n\n        except Exception as e:\n            print(f\"  [-] Error analysing {func_name}: {e}\")\n\n    return findings\n\n\ndef main():\n    print(f\"[*] Loading binary: {BINARY}\")\n    proj = angr.Project(BINARY, auto_load_libs=False)\n\n    # Hook syscalls.\n    proj.hook_symbol(\"recv\", angr.SIM_PROCEDURES[\"posix\"][\"recv\"]())\n    proj.hook_symbol(\"read\", angr.SIM_PROCEDURES[\"posix\"][\"read\"]())\n\n    print(\"[*] Building CFG (this may take a while)...\")\n    try:\n        cfg = proj.analyses.CFGFast(normalize=True)\n        print(f\"[*] CFG built: {len(cfg.graph.nodes())} nodes\")\n    except Exception as e:\n        print(f\"[-] CFG construction failed: {e}\")\n        cfg = None\n\n    print(\"[*] Searching for dangerous paths...\")\n    findings = find_dangerous_paths(proj, cfg)\n\n    print(f\"\\n[*] Analysis complete. Found {len(findings)} dangerous paths.\")\n    for i, f in enumerate(findings):\n        print(f\"\\n  Finding {i+1}:\")\n        print(f\"    Function: {f['function']}\")\n        print(f\"    Address:  {f['address']}\")\n        print(f\"    Input:    {f['input'][:64]}...\")\n\n    # Save findings to JSON.\n    import json\n    with open(\"angr_findings.json\", \"w\") as fp:\n        json.dump(findings, fp, indent=2)\n    print(\"\\n[*] Findings saved to angr_findings.json\")\n\n\nif __name__ == \"__main__\":\n    main()\n";

/// A fixed piece of a target block of the generated KLEE script.
pub const KLEE_TARGET_LINE: &'static str = "# Target: ";

/// A fixed piece of a target block of the generated KLEE script.
pub const KLEE_MKDIR: &'static str = "\nmkdir -p ";

/// A fixed piece of a target block of the generated KLEE script.
pub const KLEE_MKDIR_SEP: &'static str = "/";

/// A fixed piece of a target block of the generated KLEE script.
pub const KLEE_SEARCH: &'static str = "\nklee \\\n--search=";

/// A fixed piece of a target block of the generated KLEE script.
pub const KLEE_MAX_TIME: &'static str = " \\\n--max-time=";

/// A fixed piece of a target block of the generated KLEE script.
pub const KLEE_OUTPUT_DIR: &'static str = " \\\n--max-memory=8192 \\\n--output-dir=";

/// A fixed piece of a target block of the generated KLEE script.
pub const KLEE_OUTPUT_SEP: &'static str = "/";

/// A fixed piece of a target block of the generated KLEE script.
pub const KLEE_ENTRY_POINT: &'static str = " \\\n--emit-all-errors \\\n--use-query-log=all:kquery \\\n--write-test-info \\\n--write-paths \\\n--write-cov \\\n--entry-point=";

/// A fixed piece of a target block of the generated KLEE script.
pub const KLEE_BITCODE: &'static str = " \\\n";

/// A fixed piece of a target block of the generated KLEE script.
pub const KLEE_BLOCK_END: &'static str = "\n\n";

/// The header of the generated KLEE script.
pub const KLEE_SCRIPT_HEADER: &'static str = "#!/usr/bin/env bash\n# KLEE invocation script\nset -euo pipefail\n\n";

/// The decimal digit for `n` (0 to 9).
pub open spec fn digit_char(n: int) -> char {
    seq!['0', '1', '2', '3', '4', '5', '6', '7', '8', '9'][n]
}

/// The decimal representation of `n`, without leading zeros.
pub open spec fn decimal(n: nat) -> Seq<char>
    decreases n,
{
    if n < 10 {
        seq![digit_char(n as int)]
    } else {
        decimal(n / 10).push(digit_char((n % 10) as int))
    }
}

/// The decimal digit for `d` (0 to 9).
fn digit(d: u64) -> (c: char)
    requires
        d < 10,
    ensures
        c == digit_char(d as int),
{
    match d {
        0 => '0',
        1 => '1',
        2 => '2',
        3 => '3',
        4 => '4',
        5 => '5',
        6 => '6',
        7 => '7',
        8 => '8',
        _ => '9',
    }
}

/// The decimal representation of `n` (as `u64::to_string`).
pub fn u64_decimal(n: u64) -> (s: String)
    ensures
        s@ == decimal(n as nat),
{
    let mut out: Vec<char> = Vec::new();
    let mut x = n;
    assert(decimal(n as nat) =~= decimal(x as nat) + out@);
    while x >= 10
        invariant
            decimal(n as nat) == decimal(x as nat) + out@,
        decreases x,
    {
        let ghost o = out@;
        let d = digit(x % 10);
        out.insert(0, d);
        assert(out@ =~= seq![d] + o);
        assert(decimal(x as nat) == decimal((x / 10) as nat).push(d));
        x = x / 10;
        assert(decimal(n as nat) =~= decimal(x as nat) + out@);
    }
    let ghost o = out@;
    let d = digit(x);
    out.insert(0, d);
    assert(out@ =~= seq![d] + o);
    assert(decimal(n as nat) =~= out@);
    let mut s = String::new();
    let mut i: usize = 0;
    while i < out.len()
        invariant
            i <= out@.len(),
            s@ == out@.take(i as int),
        decreases out.len() - i,
    {
        push_char(&mut s, out[i]);
        i = i + 1;
        assert(s@ =~= out@.take(i as int));
    }
    assert(out@.take(i as int) =~= out@);
    s
}

/// `s` left-padded with `'0'` to at least `w` characters.
pub open spec fn zero_pad(s: Seq<char>, w: nat) -> Seq<char> {
    if s.len() < w {
        Seq::new((w - s.len()) as nat, |i: int| '0') + s
    } else {
        s
    }
}

/// The file name of the `count`-th corpus entry converted from KLEE:
/// `klee_` and the count, zero-padded to 6 digits.
pub fn corpus_entry_name(count: u64) -> (s: String)
    ensures
        s@ == "klee_"@ + zero_pad(decimal(count as nat), 6),
{
    let digits = u64_decimal(count);
    let mut s = String::new();
    s.append("klee_");
    let n = digits.unicode_len();
    let mut k = n;
    let ghost pre = s@;
    while k < 6
        invariant
            n <= k <= 6 || (n > 6 && k == n),
            n == digits@.len(),
            s@ == pre + Seq::new((k - n) as nat, |i: int| '0'),
        decreases 6 - k,
    {
        push_char(&mut s, '0');
        k = k + 1;
        assert(s@ =~= pre + Seq::new((k - n) as nat, |i: int| '0'));
    }
    s.append(digits.as_str());
    assert(s@ =~= "klee_"@ + zero_pad(decimal(count as nat), 6));
    s
}

/// A KLEE invocation target.
pub struct KleeTarget {
    /// Name of the target function.
    pub function: &'static str,
    /// Bitcode file containing the function.
    pub bitcode: &'static str,
    /// Maximum symbolic input size in bytes.
    pub input_size: usize,
    /// KLEE search strategy.
    pub search: &'static str,
}

/// The KLEE targets: function, bitcode file, input size and search strategy.
pub open spec fn klee_target_table() -> Seq<(Seq<char>, Seq<char>, int, Seq<char>)> {
    seq![
        ("zebra_chain_transaction_read"@, "zebra_chain.bc"@, 65536, "dfs"@),
        ("zebra_network_message_read"@, "zebra_network.bc"@, 65536, "bfs"@),
        ("zebra_chain_block_read"@, "zebra_chain.bc"@, 65536, "dfs"@),
        ("zebra_script_verify"@, "zebra_script.bc"@, 10240, "dfs"@),
    ]
}

/// A target as plain values.
pub open spec fn target_row(t: KleeTarget) -> (Seq<char>, Seq<char>, int, Seq<char>) {
    (t.function@, t.bitcode@, t.input_size as int, t.search@)
}

/// The KLEE targets.
pub fn klee_targets() -> (v: Vec<KleeTarget>)
    ensures
        v@.map_values(|t: KleeTarget| target_row(t)) == klee_target_table(),
{
    let v = vec![
        KleeTarget {
            function: "zebra_chain_transaction_read",
            bitcode: "zebra_chain.bc",
            input_size: 65536,
            search: "dfs",
        },
        KleeTarget {
            function: "zebra_network_message_read",
            bitcode: "zebra_network.bc",
            input_size: 65536,
            search: "bfs",
        },
        KleeTarget {
            function: "zebra_chain_block_read",
            bitcode: "zebra_chain.bc",
            input_size: 65536,
            search: "dfs",
        },
        KleeTarget {
            function: "zebra_script_verify",
            bitcode: "zebra_script.bc",
            input_size: 10240,
            search: "dfs",
        },
    ];
    assert(v@.map_values(|t: KleeTarget| target_row(t)) =~= klee_target_table());
    v
}

/// KLEE explores four entry points: transaction, message and block reading
/// (64 KiB of symbolic input; message reading breadth-first, the others
/// depth-first) and script verification (10 KiB, depth-first); the bitcode
/// is built for zebra-chain, zebra-network, zebra-rpc, zebra-script and
/// zebra-state.
pub proof fn law_klee_plan()
    ensures
        klee_target_table().len() == 4,
        klee_target_table()[0] == ("zebra_chain_transaction_read"@, "zebra_chain.bc"@, 65536int, "dfs"@),
        klee_target_table()[1] == ("zebra_network_message_read"@, "zebra_network.bc"@, 65536int, "bfs"@),
        klee_target_table()[2] == ("zebra_chain_block_read"@, "zebra_chain.bc"@, 65536int, "dfs"@),
        klee_target_table()[3] == ("zebra_script_verify"@, "zebra_script.bc"@, 10240int, "dfs"@),
        bitcode_crate_table() == seq!["zebra-chain"@, "zebra-network"@, "zebra-rpc"@, "zebra-script"@, "zebra-state"@],
{
}

/// The crates compiled to LLVM bitcode.
pub open spec fn bitcode_crate_table() -> Seq<Seq<char>> {
    seq!["zebra-chain"@, "zebra-network"@, "zebra-rpc"@, "zebra-script"@, "zebra-state"@]
}

/// The crates compiled to LLVM bitcode.
pub fn bitcode_crates() -> (v: Vec<&'static str>)
    ensures
        v@.map_values(|c: &str| c@) == bitcode_crate_table(),
{
    let v = vec!["zebra-chain", "zebra-network", "zebra-rpc", "zebra-script", "zebra-state"];
    assert(v@.map_values(|c: &str| c@) =~= bitcode_crate_table());
    v
}

/// The `RUSTFLAGS` under which crates are compiled to bitcode.
pub const BITCODE_RUSTFLAGS: &'static str = "--emit=llvm-bc -C opt-level=0 -C debuginfo=2";

/// The `cargo` arguments that build one crate for bitcode extraction.
pub fn cargo_bitcode_args(crate_name: &str) -> (args: Vec<String>)
    ensures
        views(args@) == seq!["build"@, "--package"@, crate_name@, "--target"@, "x86_64-unknown-linux-gnu"@],
{
    let args = vec![
        "build".to_owned(),
        "--package".to_owned(),
        crate_name.to_owned(),
        "--target".to_owned(),
        "x86_64-unknown-linux-gnu".to_owned(),
    ];
    assert(views(args@) =~= seq!["build"@, "--package"@, crate_name@, "--target"@, "x86_64-unknown-linux-gnu"@]);
    args
}

/// The KLEE arguments for one target, with the time limit, the target's output
/// directory and the path of its bitcode file.
pub open spec fn klee_argument_list(t: KleeTarget, timeout: u64, out: Seq<char>, bc: Seq<char>) -> Seq<Seq<char>> {
    seq![
        "--search"@,
        t.search@,
        "--max-time"@,
        decimal(timeout as nat),
        "--max-memory"@,
        "8192"@,
        "--output-dir"@,
        out,
        "--emit-all-errors"@,
        "--use-query-log=all:kquery"@,
        "--write-test-info"@,
        "--write-paths"@,
        "--write-cov"@,
        "--entry-point"@,
        t.function@,
        bc,
    ]
}

/// The KLEE command line for one target.
pub fn klee_arguments(target: &KleeTarget, timeout: u64, target_output: &str, bc_path: &str) -> (args: Vec<String>)
    ensures
        views(args@) == klee_argument_list(*target, timeout, target_output@, bc_path@),
{
    let args = vec![
        "--search".to_owned(),
        target.search.to_owned(),
        "--max-time".to_owned(),
        u64_decimal(timeout),
        "--max-memory".to_owned(),
        "8192".to_owned(),
        "--output-dir".to_owned(),
        target_output.to_owned(),
        "--emit-all-errors".to_owned(),
        "--use-query-log=all:kquery".to_owned(),
        "--write-test-info".to_owned(),
        "--write-paths".to_owned(),
        "--write-cov".to_owned(),
        "--entry-point".to_owned(),
        target.function.to_owned(),
        bc_path.to_owned(),
    ];
    assert(views(args@) =~= klee_argument_list(*target, timeout, target_output@, bc_path@));
    args
}

/// The block of the KLEE script for one target.
pub open spec fn klee_block_text(t: (Seq<char>, Seq<char>, int, Seq<char>), out: Seq<char>, timeout: u64, bc: Seq<char>) -> Seq<char> {
    KLEE_TARGET_LINE@ + t.0 + KLEE_MKDIR@ + out + KLEE_MKDIR_SEP@ + t.0 + KLEE_SEARCH@ + t.3
        + KLEE_MAX_TIME@ + decimal(timeout as nat) + KLEE_OUTPUT_DIR@ + out + KLEE_OUTPUT_SEP@ + t.0
        + KLEE_ENTRY_POINT@ + t.0 + KLEE_BITCODE@ + bc + KLEE_BLOCK_END@
}

/// The whole KLEE script for the first `n` targets.
pub open spec fn klee_script_text(out: Seq<char>, timeout: u64, bcs: Seq<Seq<char>>, n: int) -> Seq<char>
    decreases n,
{
    if n <= 0 {
        KLEE_SCRIPT_HEADER@
    } else {
        klee_script_text(out, timeout, bcs, n - 1) + klee_block_text(
            klee_target_table()[n - 1],
            out,
            timeout,
            bcs[n - 1],
        )
    }
}

/// Append the KLEE script block for one target; `timeout_text` is the
/// decimal form of `timeout`.
fn append_klee_block(s: &mut String, target: &KleeTarget, output: &str, timeout: u64, timeout_text: &str, bc_path: &str)
    requires
        timeout_text@ == decimal(timeout as nat),
    ensures
        final(s)@ == old(s)@ + klee_block_text(target_row(*target), output@, timeout, bc_path@),
{
    let ghost s0 = s@;
    s.append(KLEE_TARGET_LINE);
    s.append(target.function);
    s.append(KLEE_MKDIR);
    s.append(output);
    s.append(KLEE_MKDIR_SEP);
    s.append(target.function);
    s.append(KLEE_SEARCH);
    s.append(target.search);
    s.append(KLEE_MAX_TIME);
    s.append(timeout_text);
    s.append(KLEE_OUTPUT_DIR);
    s.append(output);
    s.append(KLEE_OUTPUT_SEP);
    s.append(target.function);
    s.append(KLEE_ENTRY_POINT);
    s.append(target.function);
    s.append(KLEE_BITCODE);
    s.append(bc_path);
    s.append(KLEE_BLOCK_END);
    assert(s@ =~= s0 + klee_block_text(target_row(*target), output@, timeout, bc_path@));
}

/// The shell script that runs KLEE on every target (used when KLEE is not
/// installed): `output` is the KLEE output directory, `bc_paths[i]` the
/// bitcode path of target `i`.
pub fn klee_script(output: &str, timeout: u64, bc_paths: &Vec<String>) -> (script: String)
    requires
        bc_paths@.len() == klee_target_table().len(),
    ensures
        script@ == klee_script_text(output@, timeout, views(bc_paths@), klee_target_table().len() as int),
{
    let targets = klee_targets();
    proof {
        assert(targets@.len() == klee_target_table().len());
    }
    let t = u64_decimal(timeout);
    let mut script = String::new();
    script.append(KLEE_SCRIPT_HEADER);
    let mut i: usize = 0;
    while i < targets.len()
        invariant
            i <= targets@.len(),
            targets@.len() == bc_paths@.len(),
            t@ == decimal(timeout as nat),
            targets@.map_values(|t: KleeTarget| target_row(t)) == klee_target_table(),
            script@ == klee_script_text(output@, timeout, views(bc_paths@), i as int),
        decreases targets.len() - i,
    {
        let ghost before = script@;
        append_klee_block(&mut script, &targets[i], output, timeout, t.as_str(), bc_paths[i].as_str());
        proof {
            assert(klee_target_table()[i as int] == target_row(targets@[i as int]));
            assert(views(bc_paths@)[i as int] == bc_paths@[i as int]@);
            assert(klee_script_text(output@, timeout, views(bc_paths@), i + 1) == before + klee_block_text(
                klee_target_table()[i as int],
                output@,
                timeout,
                views(bc_paths@)[i as int],
            ));
        }
        i = i + 1;
    }
    script
}

/// The angr analysis script for `binary`, to be saved at `output`.
pub open spec fn angr_script_text(binary: Seq<char>, output: Seq<char>) -> Seq<char> {
    ANGR_HEAD@ + binary + ANGR_AFTER_BINARY@ + output + ANGR_AFTER_OUTPUT@ + binary + ANGR_TAIL@
}

/// Generate the angr analysis script for a target binary.
pub fn angr_script(binary: &str, output: &str) -> (script: String)
    ensures
        script@ == angr_script_text(binary@, output@),
{
    let mut s = String::new();
    s.append(ANGR_HEAD);
    s.append(binary);
    s.append(ANGR_AFTER_BINARY);
    s.append(output);
    s.append(ANGR_AFTER_OUTPUT);
    s.append(binary);
    s.append(ANGR_TAIL);
    assert(s@ =~= angr_script_text(binary@, output@));
    s
}

} // verus!
