use zebra_audit::text::{split_lines, trim_str};
use zebra_audit::unsafe_scan::{
    classify_risk, crate_counts, extract_crate_name, report_order, risk_counts, scan_unsafe_blocks, RiskLevel,
};

fn strings(v: &[&str]) -> Vec<String> {
    v.iter().map(|s| s.to_string()).collect()
}

#[test]
fn high_risk_crate_with_keyword_names_first_keyword() {
    let ctx = strings(&["let p = slice::from_raw_parts(a, b); transmute(p)"]);
    let (level, reason) = classify_risk("zebra-network", "unsafe {", &ctx);
    assert_eq!(level, RiskLevel::High);
    assert_eq!(reason, "High-risk crate 'zebra-network' with dangerous unsafe pattern (from_raw_parts)");
}

#[test]
fn high_risk_crate_without_keyword() {
    let (level, reason) = classify_risk("zebra-rpc", "unsafe impl Send for X {}", &[]);
    assert_eq!(level, RiskLevel::High);
    assert_eq!(reason, "High-risk crate 'zebra-rpc' — all unsafe blocks are high priority");
}

#[test]
fn medium_risk_crate_levels() {
    let (level, reason) = classify_risk("zebrad", "unsafe { ptr::read(p) }", &[]);
    assert_eq!(level, RiskLevel::High);
    assert_eq!(reason, "Medium-risk crate 'zebrad' with dangerous unsafe pattern");
    let (level, reason) = classify_risk("zebra-state", "unsafe impl Sync for Y {}", &[]);
    assert_eq!(level, RiskLevel::Medium);
    assert_eq!(reason, "Medium-risk crate 'zebra-state' — reachable via local input");
}

#[test]
fn low_risk_crate_levels() {
    let (level, reason) = classify_risk("tower-batch", "unsafe { x as *mut u8 }", &[]);
    assert_eq!(level, RiskLevel::Medium);
    assert_eq!(reason, "Low-risk crate but contains dangerous unsafe pattern");
    let (level, reason) = classify_risk("tower-batch", "unsafe impl Send for Z {}", &[]);
    assert_eq!(level, RiskLevel::Low);
    assert_eq!(reason, "Low-risk crate with standard unsafe usage");
}

#[test]
fn keyword_may_span_content_and_context() {
    let (level, _) = classify_risk("other", "let q = p as", &strings(&["*mut T;"]));
    assert_eq!(level, RiskLevel::Medium);
    let (level, _) = classify_risk("other", "let q = p as", &strings(&["*", "mut T;"]));
    assert_eq!(level, RiskLevel::Low);
}

#[test]
fn crate_name_from_components() {
    let ws = strings(&["/", "home", "ws"]);
    assert_eq!(extract_crate_name(&strings(&["/", "home", "ws", "zebra-chain", "src", "lib.rs"]), &ws), "zebra-chain");
    assert_eq!(extract_crate_name(&strings(&["/", "home", "other", "x.rs"]), &ws), "unknown");
    assert_eq!(extract_crate_name(&ws, &ws), "unknown");
    assert_eq!(extract_crate_name(&strings(&["build.rs"]), &[]), "build.rs");
}

#[test]
fn scan_reports_line_column_context_and_risk() {
    let content = "fn a() {}\n// none\nfn b() {\n    unsafe { std::mem::transmute::<u32, f32>(x) }\n}\n";
    let blocks = scan_unsafe_blocks(content, "zebra-network", "zebra-network/src/lib.rs");
    assert_eq!(blocks.len(), 1);
    let b = &blocks[0];
    assert_eq!(b.file, "zebra-network/src/lib.rs");
    assert_eq!(b.line, 4);
    assert_eq!(b.column, 5);
    assert_eq!(b.content, "unsafe { std::mem::transmute::<u32, f32>(x) }");
    assert_eq!(b.context, strings(&["fn a() {}", "// none", "fn b() {", "    unsafe { std::mem::transmute::<u32, f32>(x) }", "}"]));
    assert_eq!(b.risk, RiskLevel::High);
    assert_eq!(b.risk_reason, "High-risk crate 'zebra-network' with dangerous unsafe pattern (transmute)");
    assert_eq!(b.crate_name, "zebra-network");
}

#[test]
fn scan_finds_every_unsafe_line_with_clipped_context() {
    let mut text = String::new();
    for i in 0..10 {
        if i == 0 || i == 5 {
            text.push_str("unsafe fn f() {}\n");
        } else {
            text.push_str(&format!("line {}\n", i));
        }
    }
    let blocks = scan_unsafe_blocks(&text, "tower-batch", "t.rs");
    assert_eq!(blocks.len(), 2);
    assert_eq!((blocks[0].line, blocks[0].column), (1, 1));
    assert_eq!(blocks[0].context.len(), 4);
    assert_eq!(blocks[1].line, 6);
    assert_eq!(blocks[1].context, strings(&["line 2", "line 3", "line 4", "unsafe fn f() {}", "line 6", "line 7", "line 8"]));
    assert_eq!(blocks[1].risk, RiskLevel::Low);
}

#[test]
fn column_counts_bytes() {
    let blocks = scan_unsafe_blocks("é unsafe {}", "x", "x.rs");
    assert_eq!(blocks[0].column, 4);
    assert!(scan_unsafe_blocks("", "x", "x.rs").is_empty());
    assert!(scan_unsafe_blocks("safe code only\n", "x", "x.rs").is_empty());
}

#[test]
fn counts_by_risk_and_crate() {
    let mut blocks = scan_unsafe_blocks("unsafe {}\nunsafe { transmute(x) }\n", "zebrad", "a.rs");
    blocks.extend(scan_unsafe_blocks("unsafe {}\n", "tower", "b.rs"));
    blocks.extend(scan_unsafe_blocks("unsafe {}\n", "zebrad", "c.rs"));
    // The first zebrad line sees `transmute` in its context, so both of a.rs are high.
    assert_eq!(risk_counts(&blocks), [2, 1, 1]);
    assert_eq!(crate_counts(&blocks), vec![("zebrad".to_string(), 3), ("tower".to_string(), 1)]);
}

#[test]
fn lines_follow_str_lines() {
    assert_eq!(split_lines("a\r\nb\n\nc"), strings(&["a", "b", "", "c"]));
    assert_eq!(split_lines("a\n"), strings(&["a"]));
    assert_eq!(split_lines("a\r"), strings(&["a\r"]));
    assert!(split_lines("").is_empty());
    for s in ["x\ny\r\n", "\n\n", "one", "\r\n\r"] {
        let expected: Vec<String> = s.lines().map(|l| l.to_string()).collect();
        assert_eq!(split_lines(s), expected);
    }
}

#[test]
fn trim_follows_str_trim() {
    assert_eq!(trim_str("  \t x y \n"), "x y");
    assert_eq!(trim_str("   "), "");
    assert_eq!(trim_str("\u{3000}z\u{a0}"), "z");
}

#[test]
fn report_order_sorts_by_risk_file_and_line() {
    let mut blocks = scan_unsafe_blocks("unsafe {}\nx\nunsafe {}\n", "tower", "b.rs");
    blocks.extend(scan_unsafe_blocks("unsafe {}\n", "zebra-chain", "z.rs"));
    blocks.extend(scan_unsafe_blocks("unsafe {}\n", "tower", "a.rs"));
    blocks.extend(scan_unsafe_blocks("unsafe {}\n", "zebra-chain", "B.rs"));
    blocks.extend(scan_unsafe_blocks("unsafe {}\n", "zebrad", "m.rs"));
    let order = report_order(&blocks);
    let keys: Vec<(String, usize)> = order.iter().map(|&i| (blocks[i].file.clone(), blocks[i].line)).collect();
    let expected: Vec<(String, usize)> = vec![
        ("B.rs".to_string(), 1),
        ("z.rs".to_string(), 1),
        ("m.rs".to_string(), 1),
        ("a.rs".to_string(), 1),
        ("b.rs".to_string(), 1),
        ("b.rs".to_string(), 3),
    ];
    assert_eq!(keys, expected);
    assert!(report_order(&Vec::new()).is_empty());
}

#[test]
fn report_order_keeps_input_order_for_equal_keys() {
    let mut blocks = scan_unsafe_blocks("unsafe {}\n", "x", "same.rs");
    blocks.extend(scan_unsafe_blocks("unsafe { }\n", "x", "same.rs"));
    assert_eq!(report_order(&blocks), vec![0, 1]);
}
