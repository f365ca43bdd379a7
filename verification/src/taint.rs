//! Static taint approximation: pattern-matched sources and sinks in source
//! text, and flows between them rated by crate proximity.

use vstd::prelude::*;
use crate::text::{chars_contain, chars_of, has_sub, lines_of, split_lines, str_eq, trim, trim_str, views};

verus! {

/// Patterns that indicate taint sources, with their source type, in priority order.
pub open spec fn source_patterns() -> Seq<(Seq<char>, Seq<char>)> {
    seq![
        ("ZcashDeserialize"@, "network_deserialisation"@),
        ("zcash_deserialize"@, "network_deserialisation"@),
        ("from_utf8"@, "string_parsing"@),
        ("hex::decode"@, "hex_decoding"@),
        ("serde_json::from_str"@, "json_parsing"@),
        ("recv("@, "socket_recv"@),
        ("read("@, "io_read"@),
        ("read_to_string"@, "file_read"@),
        ("from_str"@, "string_parsing"@),
        ("parse::<"@, "type_parsing"@),
    ]
}

/// Patterns that indicate taint sinks, with their sink type and risk, in priority order.
pub open spec fn sink_patterns() -> Seq<(Seq<char>, Seq<char>, Seq<char>)> {
    seq![
        ("unsafe {"@, "unsafe_block"@, "HIGH"@),
        ("from_raw_parts"@, "raw_pointer"@, "HIGH"@),
        ("transmute"@, "type_transmute"@, "HIGH"@),
        ("Vec::with_capacity"@, "allocation_size"@, "MEDIUM"@),
        ("Vec::reserve"@, "allocation_size"@, "MEDIUM"@),
        ("slice::from_raw_parts"@, "raw_slice"@, "HIGH"@),
        ("ptr::read"@, "raw_read"@, "HIGH"@),
        ("ptr::write"@, "raw_write"@, "HIGH"@),
        ("as *mut"@, "raw_pointer_cast"@, "HIGH"@),
        ("as *const"@, "raw_pointer_cast"@, "MEDIUM"@),
        ("libzcash_script"@, "ffi_boundary"@, "HIGH"@),
        ("execve"@, "dangerous_syscall"@, "CRITICAL"@),
        ("system("@, "dangerous_syscall"@, "CRITICAL"@),
        ("Command::new"@, "process_spawn"@, "MEDIUM"@),
        ("fs::write"@, "file_write"@, "MEDIUM"@),
        ("fs::remove"@, "file_delete"@, "MEDIUM"@),
    ]
}

/// The index of the first pattern from index `i` on that occurs in `line`.
pub open spec fn first_pattern_from(line: Seq<char>, pats: Seq<Seq<char>>, i: int) -> Option<int>
    decreases pats.len() - i,
{
    if i < 0 || i >= pats.len() {
        None
    } else if has_sub(line, pats[i]) {
        Some(i)
    } else {
        first_pattern_from(line, pats, i + 1)
    }
}

/// The search strings of the source patterns.
pub open spec fn source_needles() -> Seq<Seq<char>> {
    source_patterns().map_values(|p: (Seq<char>, Seq<char>)| p.0)
}

/// The search strings of the sink patterns.
pub open spec fn sink_needles() -> Seq<Seq<char>> {
    sink_patterns().map_values(|p: (Seq<char>, Seq<char>, Seq<char>)| p.0)
}

/// Indices below `n` of the lines in which some pattern occurs, increasing.
pub open spec fn matching_lines(lines: Seq<Seq<char>>, pats: Seq<Seq<char>>, n: int) -> Seq<int>
    decreases n,
{
    if n <= 0 {
        Seq::empty()
    } else if first_pattern_from(lines[n - 1], pats, 0) is Some {
        matching_lines(lines, pats, n - 1).push(n - 1)
    } else {
        matching_lines(lines, pats, n - 1)
    }
}

/// The first pattern from `i` on that occurs in `line` is the one at `k`
/// exactly when it occurs and none between `i` and `k` does; there is none
/// exactly when no pattern from `i` on occurs.
pub proof fn lemma_first_pattern(line: Seq<char>, pats: Seq<Seq<char>>, i: int)
    requires
        0 <= i <= pats.len(),
    ensures
        forall|k: int|
            i <= k < pats.len() ==> (first_pattern_from(line, pats, i) == Some(k) <==> (has_sub(
                line,
                #[trigger] pats[k],
            ) && forall|j: int| i <= j < k ==> !has_sub(line, pats[j]))),
        first_pattern_from(line, pats, i) is None <==> forall|j: int|
            i <= j < pats.len() ==> !has_sub(line, #[trigger] pats[j]),
        first_pattern_from(line, pats, i) matches Some(k) ==> i <= k < pats.len(),
    decreases pats.len() - i,
{
    if i < pats.len() {
        lemma_first_pattern(line, pats, i + 1);
        if !has_sub(line, pats[i]) {
            assert forall|j: int| i + 1 <= j < pats.len() && !has_sub(line, #[trigger] pats[j]) implies (i <= j
                < pats.len() ==> !has_sub(line, pats[j])) by {}
        }
    }
}

/// The pattern at `k` is the first found when it occurs and no earlier one does.
proof fn lemma_first_match(line: Seq<char>, pats: Seq<Seq<char>>, k: int)
    requires
        0 <= k < pats.len(),
        has_sub(line, pats[k]),
        forall|j: int| 0 <= j < k ==> !has_sub(line, #[trigger] pats[j]),
    ensures
        first_pattern_from(line, pats, 0) == Some(k),
{
    lemma_first_pattern(line, pats, 0);
}

/// A line is among the matching lines exactly when some pattern occurs in it.
pub proof fn lemma_matching_lines(lines: Seq<Seq<char>>, pats: Seq<Seq<char>>, n: int)
    requires
        n <= lines.len(),
    ensures
        forall|i: int|
            0 <= i < n ==> (#[trigger] matching_lines(lines, pats, n).contains(i) <==> first_pattern_from(
                lines[i],
                pats,
                0,
            ) is Some),
    decreases n,
{
    if n > 0 {
        lemma_matching_lines(lines, pats, n - 1);
        let p = matching_lines(lines, pats, n - 1);
        assert forall|i: int| 0 <= i < n implies (#[trigger] matching_lines(lines, pats, n).contains(i)
            <==> first_pattern_from(lines[i], pats, 0) is Some) by {
            lemma_matching_lines_below(lines, pats, n - 1);
            if first_pattern_from(lines[n - 1], pats, 0) is Some {
                assert(matching_lines(lines, pats, n) == p.push(n - 1));
                let q = p.push(n - 1);
                if i < n - 1 {
                    if q.contains(i) {
                        let a = choose|a: int| 0 <= a < q.len() && q[a] == i;
                        if a < p.len() {
                            assert(p[a] == i);
                        }
                    }
                    if p.contains(i) {
                        let a = choose|a: int| 0 <= a < p.len() && p[a] == i;
                        assert(q[a] == i);
                    }
                } else {
                    assert(q[p.len() as int] == i);
                }
            } else {
                if i == n - 1 {
                    if p.contains(i) {
                        let a = choose|a: int| 0 <= a < p.len() && p[a] == i;
                    }
                }
            }
        }
    }
}

/// Every matching line below `n` is below `n`.
proof fn lemma_matching_lines_below(lines: Seq<Seq<char>>, pats: Seq<Seq<char>>, n: int)
    ensures
        forall|a: int| 0 <= a < matching_lines(lines, pats, n).len() ==> #[trigger] matching_lines(lines, pats, n)[a] < n,
    decreases n,
{
    if n > 0 {
        lemma_matching_lines_below(lines, pats, n - 1);
        let p = matching_lines(lines, pats, n - 1);
        assert forall|a: int| 0 <= a < matching_lines(lines, pats, n).len() implies #[trigger] matching_lines(lines, pats, n)[a] < n by {
            if first_pattern_from(lines[n - 1], pats, 0) is Some && a == p.len() {
            } else {
                assert(matching_lines(lines, pats, n)[a] == p[a]);
            }
        }
    }
}

/// A taint source (where attacker-controlled data enters the system).
pub struct TaintSource {
    /// File path.
    pub file: String,
    /// Line number.
    pub line: usize,
    /// Source type.
    pub source_type: String,
    /// Code snippet.
    pub snippet: String,
}

/// A taint sink (where tainted data could cause harm).
pub struct TaintSink {
    /// File path.
    pub file: String,
    /// Line number.
    pub line: usize,
    /// Sink type.
    pub sink_type: String,
    /// Code snippet.
    pub snippet: String,
    /// Risk level.
    pub risk: String,
}

/// A taint flow from a source to a sink; the confidence is in tenths (8 is 0.8).
pub struct TaintFlow {
    /// Source.
    pub source: TaintSource,
    /// Sink.
    pub sink: TaintSink,
    /// Intermediate files in the flow.
    pub intermediate_files: Vec<String>,
    /// Confidence level, in tenths.
    pub confidence_tenths: u8,
}

impl TaintSource {
    /// A copy of this source.
    pub fn duplicate(&self) -> (r: TaintSource)
        ensures
            r == *self,
    {
        TaintSource {
            file: self.file.clone(),
            line: self.line,
            source_type: self.source_type.clone(),
            snippet: self.snippet.clone(),
        }
    }
}

impl TaintSink {
    /// A copy of this sink.
    pub fn duplicate(&self) -> (r: TaintSink)
        ensures
            r == *self,
    {
        TaintSink {
            file: self.file.clone(),
            line: self.line,
            sink_type: self.sink_type.clone(),
            snippet: self.snippet.clone(),
            risk: self.risk.clone(),
        }
    }
}

fn source_pattern_list() -> (v: Vec<(&'static str, &'static str)>)
    ensures
        v@.map_values(|p: (&str, &str)| (p.0@, p.1@)) == source_patterns(),
{
    let v = vec![
        ("ZcashDeserialize", "network_deserialisation"),
        ("zcash_deserialize", "network_deserialisation"),
        ("from_utf8", "string_parsing"),
        ("hex::decode", "hex_decoding"),
        ("serde_json::from_str", "json_parsing"),
        ("recv(", "socket_recv"),
        ("read(", "io_read"),
        ("read_to_string", "file_read"),
        ("from_str", "string_parsing"),
        ("parse::<", "type_parsing"),
    ];
    assert(v@.map_values(|p: (&str, &str)| (p.0@, p.1@)) =~= source_patterns());
    v
}

fn sink_pattern_list() -> (v: Vec<(&'static str, &'static str, &'static str)>)
    ensures
        v@.map_values(|p: (&str, &str, &str)| (p.0@, p.1@, p.2@)) == sink_patterns(),
{
    let v = vec![
        ("unsafe {", "unsafe_block", "HIGH"),
        ("from_raw_parts", "raw_pointer", "HIGH"),
        ("transmute", "type_transmute", "HIGH"),
        ("Vec::with_capacity", "allocation_size", "MEDIUM"),
        ("Vec::reserve", "allocation_size", "MEDIUM"),
        ("slice::from_raw_parts", "raw_slice", "HIGH"),
        ("ptr::read", "raw_read", "HIGH"),
        ("ptr::write", "raw_write", "HIGH"),
        ("as *mut", "raw_pointer_cast", "HIGH"),
        ("as *const", "raw_pointer_cast", "MEDIUM"),
        ("libzcash_script", "ffi_boundary", "HIGH"),
        ("execve", "dangerous_syscall", "CRITICAL"),
        ("system(", "dangerous_syscall", "CRITICAL"),
        ("Command::new", "process_spawn", "MEDIUM"),
        ("fs::write", "file_write", "MEDIUM"),
        ("fs::remove", "file_delete", "MEDIUM"),
    ];
    assert(v@.map_values(|p: (&str, &str, &str)| (p.0@, p.1@, p.2@)) =~= sink_patterns());
    v
}

/// The index of the first needle that occurs in `line`.
fn first_pattern(line: &Vec<char>, needles: &Vec<&str>) -> (r: Option<usize>)
    ensures
        r matches Some(i) ==> i < needles@.len(),
        first_pattern_from(line@, needles@.map_values(|x: &str| x@), 0) == match r {
            Some(i) => Some(i as int),
            None => None::<int>,
        },
{
    let ghost k = needles@.map_values(|x: &str| x@);
    let mut i: usize = 0;
    while i < needles.len()
        invariant
            i <= needles@.len(),
            k == needles@.map_values(|x: &str| x@),
            first_pattern_from(line@, k, 0) == first_pattern_from(line@, k, i as int),
        decreases needles.len() - i,
    {
        if chars_contain(line, needles[i]) {
            return Some(i);
        }
        i = i + 1;
    }
    None
}

/// `s` is the source record for line `i` of `lines` in file `rel`.
pub open spec fn source_for(s: TaintSource, lines: Seq<Seq<char>>, i: int, rel: Seq<char>) -> bool {
    &&& s.file@ == rel
    &&& s.line == i + 1
    &&& s.source_type@ == source_patterns()[first_pattern_from(lines[i], source_needles(), 0)->0].1
    &&& s.snippet@ == trim(lines[i])
}

/// `s` is the sink record for line `i` of `lines` in file `rel`.
pub open spec fn sink_for(s: TaintSink, lines: Seq<Seq<char>>, i: int, rel: Seq<char>) -> bool {
    let p = sink_patterns()[first_pattern_from(lines[i], sink_needles(), 0)->0];
    &&& s.file@ == rel
    &&& s.line == i + 1
    &&& s.sink_type@ == p.1
    &&& s.snippet@ == trim(lines[i])
    &&& s.risk@ == p.2
}

/// Scan the text of a file (at path `rel_path`) for taint sources: one per
/// line that holds a source pattern, typed by the first pattern it holds.
pub fn scan_for_sources(content: &str, rel_path: &str) -> (sources: Vec<TaintSource>)
    ensures
        ({
            let lines = lines_of(content@);
            let idx = matching_lines(lines, source_needles(), lines.len() as int);
            &&& sources@.len() == idx.len()
            &&& forall|k: int|
                0 <= k < idx.len() ==> source_for(#[trigger] sources@[k], lines, idx[k], rel_path@)
        }),
{
    let lines = split_lines(content);
    let ghost lv = views(lines@);
    let pats = source_pattern_list();
    let mut needles: Vec<&str> = Vec::new();
    let mut p: usize = 0;
    while p < pats.len()
        invariant
            p <= pats@.len(),
            pats@.map_values(|q: (&str, &str)| (q.0@, q.1@)) == source_patterns(),
            needles@.map_values(|x: &str| x@) == source_needles().take(p as int),
        decreases pats.len() - p,
    {
        let ghost before = needles@.map_values(|x: &str| x@);
        needles.push(pats[p].0);
        proof {
            assert(source_patterns()[p as int] == (pats@[p as int].0@, pats@[p as int].1@));
            assert(source_needles()[p as int] == source_patterns()[p as int].0);
            assert(needles@.map_values(|x: &str| x@) =~= before.push(pats@[p as int].0@));
            assert(needles@.map_values(|x: &str| x@) =~= source_needles().take(p + 1));
        }
        p = p + 1;
    }
    assert(source_needles().take(p as int) =~= source_needles());
    let mut sources: Vec<TaintSource> = Vec::new();
    let mut i: usize = 0;
    while i < lines.len()
        invariant
            lv == views(lines@),
            lv == lines_of(content@),
            i <= lines@.len(),
            pats@.map_values(|q: (&str, &str)| (q.0@, q.1@)) == source_patterns(),
            needles@.map_values(|x: &str| x@) == source_needles(),
            needles@.len() == pats@.len(),
            sources@.len() == matching_lines(lv, source_needles(), i as int).len(),
            forall|k: int|
                0 <= k < sources@.len() ==> source_for(
                    #[trigger] sources@[k],
                    lv,
                    matching_lines(lv, source_needles(), i as int)[k],
                    rel_path@,
                ),
        decreases lines.len() - i,
    {
        let line = lines[i].as_str();
        let lc = chars_of(line);
        assert(lv[i as int] == line@);
        match first_pattern(&lc, &needles) {
            Some(j) => {
                let ghost before = sources@;
                let src = TaintSource {
                    file: rel_path.to_owned(),
                    line: i + 1,
                    source_type: pats[j].1.to_owned(),
                    snippet: trim_str(line),
                };
                proof {
                    assert(source_patterns()[j as int].1 == pats@[j as int].1@);
                }
                sources.push(src);
                proof {
                    assert forall|k: int| 0 <= k < sources@.len() implies source_for(
                        #[trigger] sources@[k],
                        lv,
                        matching_lines(lv, source_needles(), i + 1)[k],
                        rel_path@,
                    ) by {
                        if k < before.len() {
                            assert(sources@[k] == before[k]);
                        }
                    }
                }
            },
            None => {},
        }
        i = i + 1;
    }
    sources
}

/// Scan the text of a file (at path `rel_path`) for taint sinks: one per line
/// that holds a sink pattern, typed and rated by the first pattern it holds.
pub fn scan_for_sinks(content: &str, rel_path: &str) -> (sinks: Vec<TaintSink>)
    ensures
        ({
            let lines = lines_of(content@);
            let idx = matching_lines(lines, sink_needles(), lines.len() as int);
            &&& sinks@.len() == idx.len()
            &&& forall|k: int|
                0 <= k < idx.len() ==> sink_for(#[trigger] sinks@[k], lines, idx[k], rel_path@)
        }),
{
    let lines = split_lines(content);
    let ghost lv = views(lines@);
    let pats = sink_pattern_list();
    let mut needles: Vec<&str> = Vec::new();
    let mut p: usize = 0;
    while p < pats.len()
        invariant
            p <= pats@.len(),
            pats@.map_values(|q: (&str, &str, &str)| (q.0@, q.1@, q.2@)) == sink_patterns(),
            needles@.map_values(|x: &str| x@) == sink_needles().take(p as int),
        decreases pats.len() - p,
    {
        let ghost before = needles@.map_values(|x: &str| x@);
        needles.push(pats[p].0);
        proof {
            assert(sink_patterns()[p as int] == (pats@[p as int].0@, pats@[p as int].1@, pats@[p as int].2@));
            assert(sink_needles()[p as int] == sink_patterns()[p as int].0);
            assert(needles@.map_values(|x: &str| x@) =~= before.push(pats@[p as int].0@));
            assert(needles@.map_values(|x: &str| x@) =~= sink_needles().take(p + 1));
        }
        p = p + 1;
    }
    assert(sink_needles().take(p as int) =~= sink_needles());
    let mut sinks: Vec<TaintSink> = Vec::new();
    let mut i: usize = 0;
    while i < lines.len()
        invariant
            lv == views(lines@),
            lv == lines_of(content@),
            i <= lines@.len(),
            pats@.map_values(|q: (&str, &str, &str)| (q.0@, q.1@, q.2@)) == sink_patterns(),
            needles@.map_values(|x: &str| x@) == sink_needles(),
            needles@.len() == pats@.len(),
            sinks@.len() == matching_lines(lv, sink_needles(), i as int).len(),
            forall|k: int|
                0 <= k < sinks@.len() ==> sink_for(
                    #[trigger] sinks@[k],
                    lv,
                    matching_lines(lv, sink_needles(), i as int)[k],
                    rel_path@,
                ),
        decreases lines.len() - i,
    {
        let line = lines[i].as_str();
        let lc = chars_of(line);
        assert(lv[i as int] == line@);
        match first_pattern(&lc, &needles) {
            Some(j) => {
                let ghost before = sinks@;
                let snk = TaintSink {
                    file: rel_path.to_owned(),
                    line: i + 1,
                    sink_type: pats[j].1.to_owned(),
                    snippet: trim_str(line),
                    risk: pats[j].2.to_owned(),
                };
                proof {
                    assert(sink_patterns()[j as int].1 == pats@[j as int].1@);
                    assert(sink_patterns()[j as int].2 == pats@[j as int].2@);
                }
                sinks.push(snk);
                proof {
                    assert forall|k: int| 0 <= k < sinks@.len() implies sink_for(
                        #[trigger] sinks@[k],
                        lv,
                        matching_lines(lv, sink_needles(), i + 1)[k],
                        rel_path@,
                    ) by {
                        if k < before.len() {
                            assert(sinks@[k] == before[k]);
                        }
                    }
                }
            },
            None => {},
        }
        i = i + 1;
    }
    sinks
}

/// Which lines are taint sinks, and of what type and risk: a line is a sink
/// exactly when it holds one of these sixteen patterns, and the first of them,
/// in this order, that it holds gives the sink's type and risk.
pub proof fn law_sink_table(lines: Seq<Seq<char>>, i: int, s: TaintSink, rel: Seq<char>)
    requires
        0 <= i < lines.len(),
    ensures
        ({
            let table: Seq<(Seq<char>, Seq<char>, Seq<char>)> = seq![
                ("unsafe {"@, "unsafe_block"@, "HIGH"@),
                ("from_raw_parts"@, "raw_pointer"@, "HIGH"@),
                ("transmute"@, "type_transmute"@, "HIGH"@),
                ("Vec::with_capacity"@, "allocation_size"@, "MEDIUM"@),
                ("Vec::reserve"@, "allocation_size"@, "MEDIUM"@),
                ("slice::from_raw_parts"@, "raw_slice"@, "HIGH"@),
                ("ptr::read"@, "raw_read"@, "HIGH"@),
                ("ptr::write"@, "raw_write"@, "HIGH"@),
                ("as *mut"@, "raw_pointer_cast"@, "HIGH"@),
                ("as *const"@, "raw_pointer_cast"@, "MEDIUM"@),
                ("libzcash_script"@, "ffi_boundary"@, "HIGH"@),
                ("execve"@, "dangerous_syscall"@, "CRITICAL"@),
                ("system("@, "dangerous_syscall"@, "CRITICAL"@),
                ("Command::new"@, "process_spawn"@, "MEDIUM"@),
                ("fs::write"@, "file_write"@, "MEDIUM"@),
                ("fs::remove"@, "file_delete"@, "MEDIUM"@),
            ];
            let line = lines[i];
            &&& matching_lines(lines, sink_needles(), lines.len() as int).contains(i) <==> exists|k: int|
                0 <= k < table.len() && has_sub(line, #[trigger] table[k].0)
            &&& forall|k: int|
                0 <= k < table.len() && has_sub(line, #[trigger] table[k].0) && (forall|j: int|
                    0 <= j < k ==> !has_sub(line, table[j].0)) && sink_for(s, lines, i, rel) ==> s.sink_type@
                    == table[k].1 && s.risk@ == table[k].2
        }),
{
    let table: Seq<(Seq<char>, Seq<char>, Seq<char>)> = seq![
        ("unsafe {"@, "unsafe_block"@, "HIGH"@),
        ("from_raw_parts"@, "raw_pointer"@, "HIGH"@),
        ("transmute"@, "type_transmute"@, "HIGH"@),
        ("Vec::with_capacity"@, "allocation_size"@, "MEDIUM"@),
        ("Vec::reserve"@, "allocation_size"@, "MEDIUM"@),
        ("slice::from_raw_parts"@, "raw_slice"@, "HIGH"@),
        ("ptr::read"@, "raw_read"@, "HIGH"@),
        ("ptr::write"@, "raw_write"@, "HIGH"@),
        ("as *mut"@, "raw_pointer_cast"@, "HIGH"@),
        ("as *const"@, "raw_pointer_cast"@, "MEDIUM"@),
        ("libzcash_script"@, "ffi_boundary"@, "HIGH"@),
        ("execve"@, "dangerous_syscall"@, "CRITICAL"@),
        ("system("@, "dangerous_syscall"@, "CRITICAL"@),
        ("Command::new"@, "process_spawn"@, "MEDIUM"@),
        ("fs::write"@, "file_write"@, "MEDIUM"@),
        ("fs::remove"@, "file_delete"@, "MEDIUM"@),
    ];
    assert(sink_patterns() =~= table);
    let needles = sink_needles();
    assert forall|k: int| 0 <= k < table.len() implies #[trigger] needles[k] == table[k].0 by {}
    let line = lines[i];
    lemma_first_pattern(line, needles, 0);
    lemma_matching_lines(lines, needles, lines.len() as int);
    if exists|k: int| 0 <= k < table.len() && has_sub(line, #[trigger] table[k].0) {
        let k = choose|k: int| 0 <= k < table.len() && has_sub(line, #[trigger] table[k].0);
        assert(has_sub(line, needles[k]));
    }
    if first_pattern_from(line, needles, 0) is Some {
        let k = first_pattern_from(line, needles, 0)->0;
        assert(has_sub(line, table[k].0));
    }
    assert forall|k: int|
        0 <= k < table.len() && has_sub(line, #[trigger] table[k].0) && (forall|j: int|
            0 <= j < k ==> !has_sub(line, table[j].0)) && sink_for(s, lines, i, rel) implies s.sink_type@ == table[k].1 && s.risk@ == table[k].2 by {
        assert forall|j: int| 0 <= j < k implies !has_sub(line, #[trigger] needles[j]) by {
            assert(needles[j] == table[j].0);
        }
        assert(needles[k] == table[k].0);
        lemma_first_match(line, needles, k);
    }
}

/// Which lines are taint sources, and of what type: a line is a source exactly
/// when it holds one of these ten patterns, and the first of them, in this
/// order, that it holds gives the source's type.
pub proof fn law_source_table(lines: Seq<Seq<char>>, i: int, s: TaintSource, rel: Seq<char>)
    requires
        0 <= i < lines.len(),
    ensures
        ({
            let table: Seq<(Seq<char>, Seq<char>)> = seq![
                ("ZcashDeserialize"@, "network_deserialisation"@),
                ("zcash_deserialize"@, "network_deserialisation"@),
                ("from_utf8"@, "string_parsing"@),
                ("hex::decode"@, "hex_decoding"@),
                ("serde_json::from_str"@, "json_parsing"@),
                ("recv("@, "socket_recv"@),
                ("read("@, "io_read"@),
                ("read_to_string"@, "file_read"@),
                ("from_str"@, "string_parsing"@),
                ("parse::<"@, "type_parsing"@),
            ];
            let line = lines[i];
            &&& matching_lines(lines, source_needles(), lines.len() as int).contains(i) <==> exists|k: int|
                0 <= k < table.len() && has_sub(line, #[trigger] table[k].0)
            &&& forall|k: int|
                0 <= k < table.len() && has_sub(line, #[trigger] table[k].0) && (forall|j: int|
                    0 <= j < k ==> !has_sub(line, table[j].0)) && source_for(s, lines, i, rel) ==> s.source_type@
                    == table[k].1
        }),
{
    let table: Seq<(Seq<char>, Seq<char>)> = seq![
        ("ZcashDeserialize"@, "network_deserialisation"@),
        ("zcash_deserialize"@, "network_deserialisation"@),
        ("from_utf8"@, "string_parsing"@),
        ("hex::decode"@, "hex_decoding"@),
        ("serde_json::from_str"@, "json_parsing"@),
        ("recv("@, "socket_recv"@),
        ("read("@, "io_read"@),
        ("read_to_string"@, "file_read"@),
        ("from_str"@, "string_parsing"@),
        ("parse::<"@, "type_parsing"@),
    ];
    assert(source_patterns() =~= table);
    let needles = source_needles();
    assert forall|k: int| 0 <= k < table.len() implies #[trigger] needles[k] == table[k].0 by {}
    let line = lines[i];
    lemma_first_pattern(line, needles, 0);
    lemma_matching_lines(lines, needles, lines.len() as int);
    if exists|k: int| 0 <= k < table.len() && has_sub(line, #[trigger] table[k].0) {
        let k = choose|k: int| 0 <= k < table.len() && has_sub(line, #[trigger] table[k].0);
        assert(has_sub(line, needles[k]));
    }
    if first_pattern_from(line, needles, 0) is Some {
        let k = first_pattern_from(line, needles, 0)->0;
        assert(has_sub(line, table[k].0));
    }
    assert forall|k: int|
        0 <= k < table.len() && has_sub(line, #[trigger] table[k].0) && (forall|j: int|
            0 <= j < k ==> !has_sub(line, table[j].0)) && source_for(s, lines, i, rel) implies s.source_type@ == table[k].1 by {
        assert forall|j: int| 0 <= j < k implies !has_sub(line, #[trigger] needles[j]) by {
            assert(needles[j] == table[j].0);
        }
        assert(needles[k] == table[k].0);
        lemma_first_match(line, needles, k);
    }
}

/// The crate dependency graph behind flow confidence: these eight directed
/// pairs are adjacent and no others; a flow within one crate has confidence
/// 0.8, along one of these pairs 0.5, and otherwise 0.2.
pub proof fn law_adjacency(a: Seq<char>, b: Seq<char>)
    ensures
        ({
            let pairs: Seq<(Seq<char>, Seq<char>)> = seq![
                ("zebra-network"@, "zebra-chain"@),
                ("zebra-rpc"@, "zebra-chain"@),
                ("zebra-rpc"@, "zebra-state"@),
                ("zebra-consensus"@, "zebra-chain"@),
                ("zebra-consensus"@, "zebra-state"@),
                ("zebrad"@, "zebra-network"@),
                ("zebrad"@, "zebra-rpc"@),
                ("zebrad"@, "zebra-consensus"@),
            ];
            &&& adjacency().contains((a, b)) <==> pairs.contains((a, b))
            &&& pairs.contains((a, b)) ==> a != b && flow_confidence(a, b) == 5
            &&& a == b ==> flow_confidence(a, b) == 8
            &&& a != b && !pairs.contains((a, b)) ==> flow_confidence(a, b) == 2
        }),
{
    let pairs: Seq<(Seq<char>, Seq<char>)> = seq![
        ("zebra-network"@, "zebra-chain"@),
        ("zebra-rpc"@, "zebra-chain"@),
        ("zebra-rpc"@, "zebra-state"@),
        ("zebra-consensus"@, "zebra-chain"@),
        ("zebra-consensus"@, "zebra-state"@),
        ("zebrad"@, "zebra-network"@),
        ("zebrad"@, "zebra-rpc"@),
        ("zebrad"@, "zebra-consensus"@),
    ];
    assert(adjacency() =~= pairs);
    reveal_strlit("zebra-network");
    reveal_strlit("zebra-chain");
    reveal_strlit("zebra-rpc");
    reveal_strlit("zebra-state");
    reveal_strlit("zebra-consensus");
    reveal_strlit("zebrad");
    if pairs.contains((a, b)) {
        let k = choose|k: int| 0 <= k < pairs.len() && pairs[k] == (a, b);
        assert(pairs[k].0 != pairs[k].1) by {
            assert(pairs[k].0.len() != pairs[k].1.len() || pairs[k].0[6] != pairs[k].1[6]);
        }
    }
}

/// The first `/`-separated segment of a path (the whole path if it has no `/`).
pub open spec fn first_segment(s: Seq<char>) -> Seq<char>
    decreases s.len(),
{
    if s.len() == 0 {
        s
    } else if s[0] == '/' {
        Seq::empty()
    } else {
        seq![s[0]] + first_segment(s.drop_first())
    }
}

/// The crate of a workspace-relative path: its first segment.
pub fn crate_of_path(file: &str) -> (r: String)
    ensures
        r@ == first_segment(file@),
{
    let c = chars_of(file);
    let mut i: usize = 0;
    assert(c@.skip(0) =~= c@);
    assert(c@.take(0) + first_segment(c@.skip(0)) =~= first_segment(c@));
    while i < c.len() && c[i] != '/'
        invariant
            i <= c@.len(),
            c@ == file@,
            first_segment(file@) == c@.take(i as int) + first_segment(c@.skip(i as int)),
        decreases c.len() - i,
    {
        assert(c@.skip(i as int).drop_first() =~= c@.skip(i + 1));
        assert(c@.take(i + 1) =~= c@.take(i as int) + seq![c@[i as int]]);
        i = i + 1;
    }
    assert(c@.skip(0) =~= c@);
    crate::text::string_from_chars(&c, 0, i)
}

/// Pairs of crates where data flows from the first to the second.
pub open spec fn adjacency() -> Seq<(Seq<char>, Seq<char>)> {
    seq![
        ("zebra-network"@, "zebra-chain"@),
        ("zebra-rpc"@, "zebra-chain"@),
        ("zebra-rpc"@, "zebra-state"@),
        ("zebra-consensus"@, "zebra-chain"@),
        ("zebra-consensus"@, "zebra-state"@),
        ("zebrad"@, "zebra-network"@),
        ("zebrad"@, "zebra-rpc"@),
        ("zebrad"@, "zebra-consensus"@),
    ]
}

/// Check if two crates are adjacent in the dependency graph.
pub fn is_adjacent_crate(from: &str, to: &str) -> (r: bool)
    ensures
        r == adjacency().contains((from@, to@)),
{
    let pairs: Vec<(&str, &str)> = vec![
        ("zebra-network", "zebra-chain"),
        ("zebra-rpc", "zebra-chain"),
        ("zebra-rpc", "zebra-state"),
        ("zebra-consensus", "zebra-chain"),
        ("zebra-consensus", "zebra-state"),
        ("zebrad", "zebra-network"),
        ("zebrad", "zebra-rpc"),
        ("zebrad", "zebra-consensus"),
    ];
    let ghost pv = pairs@.map_values(|p: (&str, &str)| (p.0@, p.1@));
    assert(pv =~= adjacency());
    let mut i: usize = 0;
    while i < pairs.len()
        invariant
            i <= pairs@.len(),
            pv == pairs@.map_values(|p: (&str, &str)| (p.0@, p.1@)),
            pv == adjacency(),
            forall|j: int| 0 <= j < i ==> #[trigger] pv[j] != (from@, to@),
        decreases pairs.len() - i,
    {
        if str_eq(pairs[i].0, from) && str_eq(pairs[i].1, to) {
            assert(pv[i as int] == (from@, to@));
            assert(adjacency()[i as int] == (from@, to@));
            return true;
        }
        i = i + 1;
    }
    proof {
        if adjacency().contains((from@, to@)) {
            let j = choose|j: int| 0 <= j < pv.len() && pv[j] == (from@, to@);
            assert(pv[j] != (from@, to@));
        }
    }
    false
}

/// Confidence, in tenths, of a flow between crates `a` and `b`: 8 for the same
/// crate, 5 for adjacent crates, else 2.
pub open spec fn flow_confidence(a: Seq<char>, b: Seq<char>) -> int {
    if a == b {
        8
    } else if adjacency().contains((a, b)) {
        5
    } else {
        2
    }
}

/// Flows reported at most.
pub const MAX_FLOWS: usize = 1000;

/// Pairs `(i, j)` with `j < m` whose confidence is `c`, for source crate `a`
/// (source index `i`) against the sink crates `ks`.
pub open spec fn row_pairs(a: Seq<char>, i: int, ks: Seq<Seq<char>>, c: int, m: int) -> Seq<(int, int)>
    decreases m,
{
    if m <= 0 {
        Seq::empty()
    } else if flow_confidence(a, ks[m - 1]) == c {
        row_pairs(a, i, ks, c, m - 1).push((i, m - 1))
    } else {
        row_pairs(a, i, ks, c, m - 1)
    }
}

/// Pairs over the first `n` sources (in source, then sink order) whose confidence is `c`.
pub open spec fn all_pairs(ss: Seq<Seq<char>>, ks: Seq<Seq<char>>, c: int, n: int) -> Seq<(int, int)>
    decreases n,
{
    if n <= 0 {
        Seq::empty()
    } else {
        all_pairs(ss, ks, c, n - 1) + row_pairs(ss[n - 1], n - 1, ks, c, ks.len() as int)
    }
}

/// The reported pairs: confidence 0.8 first, then 0.5, each in source-then-sink
/// order (a stable sort by decreasing confidence), at most `MAX_FLOWS` of them.
pub open spec fn reported_pairs(ss: Seq<Seq<char>>, ks: Seq<Seq<char>>) -> Seq<(int, int)> {
    let all = all_pairs(ss, ks, 8, ss.len() as int) + all_pairs(ss, ks, 5, ss.len() as int);
    if all.len() > MAX_FLOWS {
        all.take(MAX_FLOWS as int)
    } else {
        all
    }
}

/// Every pair of a row has the row's source, a sink index below `m`, and confidence `c`.
pub proof fn lemma_row_pairs(a: Seq<char>, i: int, ks: Seq<Seq<char>>, c: int, m: int)
    requires
        m <= ks.len(),
    ensures
        forall|k: int|
            0 <= k < row_pairs(a, i, ks, c, m).len() ==> (#[trigger] row_pairs(a, i, ks, c, m)[k]).0 == i
                && 0 <= row_pairs(a, i, ks, c, m)[k].1 < m && flow_confidence(
                a,
                ks[row_pairs(a, i, ks, c, m)[k].1],
            ) == c,
    decreases m,
{
    if m > 0 {
        lemma_row_pairs(a, i, ks, c, m - 1);
        let p = row_pairs(a, i, ks, c, m - 1);
        assert forall|k: int| 0 <= k < row_pairs(a, i, ks, c, m).len() implies (#[trigger] row_pairs(a, i, ks, c, m)[k]).0 == i
            && 0 <= row_pairs(a, i, ks, c, m)[k].1 < m && flow_confidence(
            a,
            ks[row_pairs(a, i, ks, c, m)[k].1],
        ) == c by {
            if k < p.len() {
                assert(row_pairs(a, i, ks, c, m)[k] == p[k]);
            }
        }
    }
}

/// Every pair over the first `n` sources has a source index below `n`, a sink
/// index in range, and confidence `c`.
pub proof fn lemma_all_pairs(ss: Seq<Seq<char>>, ks: Seq<Seq<char>>, c: int, n: int)
    requires
        n <= ss.len(),
    ensures
        forall|k: int|
            0 <= k < all_pairs(ss, ks, c, n).len() ==> 0 <= (#[trigger] all_pairs(ss, ks, c, n)[k]).0 < n
                && 0 <= all_pairs(ss, ks, c, n)[k].1 < ks.len() && flow_confidence(
                ss[all_pairs(ss, ks, c, n)[k].0],
                ks[all_pairs(ss, ks, c, n)[k].1],
            ) == c,
    decreases n,
{
    if n > 0 {
        lemma_all_pairs(ss, ks, c, n - 1);
        lemma_row_pairs(ss[n - 1], n - 1, ks, c, ks.len() as int);
        let p = all_pairs(ss, ks, c, n - 1);
        let r = row_pairs(ss[n - 1], n - 1, ks, c, ks.len() as int);
        assert forall|k: int| 0 <= k < all_pairs(ss, ks, c, n).len() implies 0 <= (#[trigger] all_pairs(ss, ks, c, n)[k]).0 < n
            && 0 <= all_pairs(ss, ks, c, n)[k].1 < ks.len() && flow_confidence(
            ss[all_pairs(ss, ks, c, n)[k].0],
            ks[all_pairs(ss, ks, c, n)[k].1],
        ) == c by {
            if k < p.len() {
                assert(all_pairs(ss, ks, c, n)[k] == p[k]);
            } else {
                assert(all_pairs(ss, ks, c, n)[k] == r[k - p.len()]);
            }
        }
    }
}

/// Reported flows number at most `MAX_FLOWS`, all have confidence above 0.4
/// (0.8 or 0.5), and come in order of non-increasing confidence.
pub proof fn law_reported_flows(ss: Seq<Seq<char>>, ks: Seq<Seq<char>>)
    ensures
        ({
            let r = reported_pairs(ss, ks);
            let conf = |p: (int, int)| flow_confidence(ss[p.0], ks[p.1]);
            &&& r.len() <= MAX_FLOWS
            &&& forall|k: int| 0 <= k < r.len() ==> (#[trigger] conf(r[k]) == 8 || conf(r[k]) == 5)
            &&& forall|a: int, b: int| 0 <= a <= b < r.len() ==> #[trigger] conf(r[a]) >= #[trigger] conf(r[b])
        }),
{
    let h = all_pairs(ss, ks, 8, ss.len() as int);
    let m = all_pairs(ss, ks, 5, ss.len() as int);
    lemma_all_pairs(ss, ks, 8, ss.len() as int);
    lemma_all_pairs(ss, ks, 5, ss.len() as int);
    let all = h + m;
    let r = reported_pairs(ss, ks);
    let conf = |p: (int, int)| flow_confidence(ss[p.0], ks[p.1]);
    assert forall|k: int| 0 <= k < all.len() implies conf(all[k]) == if k < h.len() { 8int } else { 5int } by {
        if k < h.len() {
            assert(all[k] == h[k]);
        } else {
            assert(all[k] == m[k - h.len()]);
        }
    }
    assert forall|k: int| 0 <= k < r.len() implies r[k] == all[k] by {}
}

/// The crates of a list of sources.
pub open spec fn source_crates(s: Seq<TaintSource>) -> Seq<Seq<char>> {
    s.map_values(|x: TaintSource| first_segment(x.file@))
}

/// The crates of a list of sinks.
pub open spec fn sink_crates(s: Seq<TaintSink>) -> Seq<Seq<char>> {
    s.map_values(|x: TaintSink| first_segment(x.file@))
}

/// `f` is the flow for the pair `p` of the given sources and sinks.
pub open spec fn flow_for(f: TaintFlow, sources: Seq<TaintSource>, sinks: Seq<TaintSink>, p: (int, int)) -> bool {
    &&& f.source == sources[p.0]
    &&& f.sink == sinks[p.1]
    &&& f.intermediate_files@.len() == 0
    &&& f.confidence_tenths == flow_confidence(first_segment(sources[p.0].file@), first_segment(sinks[p.1].file@))
}

/// Approximate taint flows by pairing every source with every sink and
/// keeping the pairs in the same or adjacent crates (confidence above 0.4),
/// most confident first.
pub fn approximate_flows(sources: &[TaintSource], sinks: &[TaintSink]) -> (flows: Vec<TaintFlow>)
    ensures
        ({
            let pairs = reported_pairs(source_crates(sources@), sink_crates(sinks@));
            &&& flows@.len() == pairs.len()
            &&& forall|k: int| 0 <= k < pairs.len() ==> flow_for(#[trigger] flows@[k], sources@, sinks@, pairs[k])
        }),
{
    let ghost ss = source_crates(sources@);
    let ghost ks = sink_crates(sinks@);
    let mut sink_crate_names: Vec<String> = Vec::new();
    let mut j: usize = 0;
    while j < sinks.len()
        invariant
            j <= sinks@.len(),
            ks == sink_crates(sinks@),
            views(sink_crate_names@) == ks.take(j as int),
            sink_crate_names@.len() == j,
        decreases sinks.len() - j,
    {
        let ghost before = views(sink_crate_names@);
        let name = crate_of_path(sinks[j].file.as_str());
        assert(name@ == ks[j as int]);
        sink_crate_names.push(name);
        assert(views(sink_crate_names@) =~= before.push(name@));
        assert(views(sink_crate_names@) =~= ks.take(j + 1));
        j = j + 1;
    }
    assert(ks.take(j as int) =~= ks);
    let mut high: Vec<TaintFlow> = Vec::new();
    let mut mid: Vec<TaintFlow> = Vec::new();
    let mut i: usize = 0;
    while i < sources.len()
        invariant
            i <= sources@.len(),
            ss == source_crates(sources@),
            ks == sink_crates(sinks@),
            views(sink_crate_names@) == ks,
            sink_crate_names@.len() == sinks@.len(),
            high@.len() == all_pairs(ss, ks, 8, i as int).len(),
            mid@.len() == all_pairs(ss, ks, 5, i as int).len(),
            forall|k: int| 0 <= k < high@.len() ==> flow_for(#[trigger] high@[k], sources@, sinks@, all_pairs(ss, ks, 8, i as int)[k]),
            forall|k: int| 0 <= k < mid@.len() ==> flow_for(#[trigger] mid@[k], sources@, sinks@, all_pairs(ss, ks, 5, i as int)[k]),
        decreases sources.len() - i,
    {
        let source_crate = crate_of_path(sources[i].file.as_str());
        let ghost h0 = all_pairs(ss, ks, 8, i as int);
        let ghost m0 = all_pairs(ss, ks, 5, i as int);
        let mut j: usize = 0;
        while j < sinks.len()
            invariant
                i < sources@.len(),
                j <= sinks@.len(),
                ss == source_crates(sources@),
                ks == sink_crates(sinks@),
                views(sink_crate_names@) == ks,
                sink_crate_names@.len() == sinks@.len(),
                source_crate@ == ss[i as int],
                high@.len() == h0.len() + row_pairs(ss[i as int], i as int, ks, 8, j as int).len(),
                mid@.len() == m0.len() + row_pairs(ss[i as int], i as int, ks, 5, j as int).len(),
                forall|k: int| 0 <= k < high@.len() ==> flow_for(#[trigger] high@[k], sources@, sinks@, (h0 + row_pairs(ss[i as int], i as int, ks, 8, j as int))[k]),
                forall|k: int| 0 <= k < mid@.len() ==> flow_for(#[trigger] mid@[k], sources@, sinks@, (m0 + row_pairs(ss[i as int], i as int, ks, 5, j as int))[k]),
            decreases sinks.len() - j,
        {
            let sink_crate = &sink_crate_names[j];
            assert(sink_crate@ == ks[j as int]);
            let confidence: u8 = if *sink_crate == source_crate {
                8
            } else if is_adjacent_crate(source_crate.as_str(), sink_crate.as_str()) {
                5
            } else {
                2
            };
            let ghost hb = high@;
            let ghost mb = mid@;
            let ghost rh = row_pairs(ss[i as int], i as int, ks, 8, j as int);
            let ghost rm = row_pairs(ss[i as int], i as int, ks, 5, j as int);
            if confidence > 4 {
                let flow = TaintFlow {
                    source: sources[i].duplicate(),
                    sink: sinks[j].duplicate(),
                    intermediate_files: Vec::new(),
                    confidence_tenths: confidence,
                };
                if confidence == 8 {
                    high.push(flow);
                    proof {
                        assert((h0 + rh.push((i as int, j as int))) =~= (h0 + rh).push((i as int, j as int)));
                        assert forall|k: int| 0 <= k < high@.len() implies flow_for(#[trigger] high@[k], sources@, sinks@, (h0 + row_pairs(ss[i as int], i as int, ks, 8, j + 1))[k]) by {
                            if k < hb.len() {
                                assert(high@[k] == hb[k]);
                            }
                        }
                    }
                } else {
                    mid.push(flow);
                    proof {
                        assert((m0 + rm.push((i as int, j as int))) =~= (m0 + rm).push((i as int, j as int)));
                        assert forall|k: int| 0 <= k < mid@.len() implies flow_for(#[trigger] mid@[k], sources@, sinks@, (m0 + row_pairs(ss[i as int], i as int, ks, 5, j + 1))[k]) by {
                            if k < mb.len() {
                                assert(mid@[k] == mb[k]);
                            }
                        }
                    }
                }
            }
            j = j + 1;
        }
        i = i + 1;
    }
    let ghost ph = all_pairs(ss, ks, 8, ss.len() as int);
    let ghost pm = all_pairs(ss, ks, 5, ss.len() as int);
    let mut flows: Vec<TaintFlow> = high;
    let ghost fh = flows@;
    let ghost mv = mid@;
    flows.append(&mut mid);
    assert forall|k: int| 0 <= k < flows@.len() implies flow_for(#[trigger] flows@[k], sources@, sinks@, (ph + pm)[k]) by {
        if k < fh.len() {
            assert(flows@[k] == fh[k]);
        } else {
            assert(flows@[k] == mv[k - fh.len()]);
        }
    }
    flows.truncate(MAX_FLOWS);
    flows
}

/// Whether a sink's risk counts as high: `HIGH` or `CRITICAL`.
pub open spec fn high_risk_sink(risk: Seq<char>) -> bool {
    risk == "HIGH"@ || risk == "CRITICAL"@
}

/// How many of the first `n` flows end in a high-risk sink.
pub open spec fn high_risk_count(flows: Seq<TaintFlow>, n: int) -> int
    decreases n,
{
    if n <= 0 {
        0
    } else {
        high_risk_count(flows, n - 1) + if high_risk_sink(flows[n - 1].sink.risk@) { 1int } else { 0int }
    }
}

/// The number of flows whose sink is rated `HIGH` or `CRITICAL`.
pub fn count_high_risk_flows(flows: &Vec<TaintFlow>) -> (n: usize)
    ensures
        n == high_risk_count(flows@, flows@.len() as int),
{
    let mut n: usize = 0;
    let mut i: usize = 0;
    while i < flows.len()
        invariant
            i <= flows@.len(),
            n == high_risk_count(flows@, i as int),
            n <= i,
        decreases flows.len() - i,
    {
        let risk = flows[i].sink.risk.as_str();
        if str_eq(risk, "HIGH") || str_eq(risk, "CRITICAL") {
            n = n + 1;
        }
        i = i + 1;
    }
    n
}

} // verus!
