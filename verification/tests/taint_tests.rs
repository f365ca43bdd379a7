use zebra_audit::taint::{
    approximate_flows, count_high_risk_flows, crate_of_path, is_adjacent_crate, scan_for_sinks, scan_for_sources,
    TaintSink, TaintSource,
};

fn source(file: &str, line: usize) -> TaintSource {
    TaintSource { file: file.to_string(), line, source_type: "io_read".to_string(), snippet: String::new() }
}

fn sink(file: &str, line: usize, risk: &str) -> TaintSink {
    TaintSink {
        file: file.to_string(),
        line,
        sink_type: "unsafe_block".to_string(),
        snippet: String::new(),
        risk: risk.to_string(),
    }
}

#[test]
fn sources_use_first_matching_pattern() {
    let content = "let t = Transaction::zcash_deserialize(r)?;\n  let s = String::from_utf8(v)?; read(buf)\nlet x = 1;\nlet n = s.parse::<u32>();\n";
    let sources = scan_for_sources(content, "zebra-chain/src/a.rs");
    assert_eq!(sources.len(), 3);
    assert_eq!((sources[0].line, sources[0].source_type.as_str()), (1, "network_deserialisation"));
    assert_eq!((sources[1].line, sources[1].source_type.as_str()), (2, "string_parsing"));
    assert_eq!(sources[1].snippet, "let s = String::from_utf8(v)?; read(buf)");
    assert_eq!((sources[2].line, sources[2].source_type.as_str()), (4, "type_parsing"));
    assert_eq!(sources[2].file, "zebra-chain/src/a.rs");
}

#[test]
fn serde_json_from_str_is_json_parsing() {
    let sources = scan_for_sources("let v = serde_json::from_str(s);", "f.rs");
    assert_eq!(sources[0].source_type, "json_parsing");
    let sources = scan_for_sources("let v = u32::from_str(s);", "f.rs");
    assert_eq!(sources[0].source_type, "string_parsing");
}

#[test]
fn sinks_carry_type_and_risk() {
    let content = "unsafe { ptr::read(p) }\nlet v = Vec::with_capacity(n);\nlibc::execve(a, b, c);\nlet c = p as *const u8;\nnothing here\n";
    let sinks = scan_for_sinks(content, "zebra-network/src/b.rs");
    assert_eq!(sinks.len(), 4);
    assert_eq!((sinks[0].sink_type.as_str(), sinks[0].risk.as_str()), ("unsafe_block", "HIGH"));
    assert_eq!((sinks[1].sink_type.as_str(), sinks[1].risk.as_str()), ("allocation_size", "MEDIUM"));
    assert_eq!((sinks[2].sink_type.as_str(), sinks[2].risk.as_str(), sinks[2].line), ("dangerous_syscall", "CRITICAL", 3));
    assert_eq!((sinks[3].sink_type.as_str(), sinks[3].risk.as_str()), ("raw_pointer_cast", "MEDIUM"));
}

#[test]
fn crate_is_first_path_segment() {
    assert_eq!(crate_of_path("zebra-chain/src/lib.rs"), "zebra-chain");
    assert_eq!(crate_of_path("README"), "README");
    assert_eq!(crate_of_path("/abs/path"), "");
    assert_eq!(crate_of_path(""), "");
}

#[test]
fn adjacency_is_directed() {
    assert!(is_adjacent_crate("zebra-network", "zebra-chain"));
    assert!(is_adjacent_crate("zebrad", "zebra-consensus"));
    assert!(!is_adjacent_crate("zebra-chain", "zebra-network"));
    assert!(!is_adjacent_crate("zebra-state", "zebra-state"));
}

#[test]
fn flows_keep_same_and_adjacent_crates_sorted_by_confidence() {
    let sources = vec![source("zebra-network/a.rs", 1), source("zebra-rpc/b.rs", 2)];
    let sinks = vec![
        sink("zebra-chain/c.rs", 3, "HIGH"),
        sink("zebra-network/d.rs", 4, "MEDIUM"),
        sink("zebra-state/e.rs", 5, "CRITICAL"),
        sink("tower/f.rs", 6, "HIGH"),
    ];
    let flows = approximate_flows(&sources, &sinks);
    let got: Vec<(usize, usize, u8)> = flows.iter().map(|f| (f.source.line, f.sink.line, f.confidence_tenths)).collect();
    assert_eq!(got, vec![(1, 4, 8), (1, 3, 5), (2, 3, 5), (2, 5, 5)]);
    assert!(flows.iter().all(|f| f.intermediate_files.is_empty()));
    assert_eq!(count_high_risk_flows(&flows), 3);
}

#[test]
fn flows_are_capped_at_1000() {
    let sources: Vec<TaintSource> = (0..40).map(|i| source("zebrad/a.rs", i)).collect();
    let sinks: Vec<TaintSink> = (0..30).map(|i| sink("zebrad/b.rs", i, "HIGH")).collect();
    let flows = approximate_flows(&sources, &sinks);
    assert_eq!(flows.len(), 1000);
    assert_eq!((flows[0].source.line, flows[0].sink.line), (0, 0));
    assert_eq!((flows[999].source.line, flows[999].sink.line), (33, 9));
    assert_eq!(count_high_risk_flows(&flows), 1000);
}

#[test]
fn no_flows_without_related_crates() {
    let flows = approximate_flows(&[source("a/x.rs", 1)], &[sink("b/y.rs", 1, "HIGH")]);
    assert!(flows.is_empty());
    assert_eq!(count_high_risk_flows(&flows), 0);
}
