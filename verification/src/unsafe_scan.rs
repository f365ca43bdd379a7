//! Enumeration and risk classification of `unsafe` blocks in source text.

use vstd::prelude::*;
use vstd::string::{StringExecFns, StrSliceExecFns};
use vstd::utf8::encode_utf8;
use crate::text::{
    chars_contain, chars_of, find_chars, first_occurrence, has_sub, join_strings, lemma_utf8_len_concat,
    lemma_text_lt_total, lemma_text_lt_trans, lemma_utf8_len_pos, lines_of, seq_join, split_lines, str_eq,
    text_less, text_lt, trim, trim_str, views,
};

verus! {

/// Risk level of an unsafe block.
#[derive(Clone, Copy, Debug, PartialEq, Eq, Structural)]
pub enum RiskLevel {
    /// Directly reachable from network input.
    High,
    /// Reachable via local RPC or file inputs.
    Medium,
    /// Only accessible through trusted internal pathways.
    Low,
}

/// High-risk crates (directly handle network input).
pub open spec fn high_risk_crates() -> Seq<Seq<char>> {
    seq!["zebra-network"@, "zebra-chain"@, "zebra-script"@, "zebra-rpc"@]
}

/// Medium-risk crates (handle local input or internal state).
pub open spec fn medium_risk_crates() -> Seq<Seq<char>> {
    seq!["zebra-state"@, "zebra-consensus"@, "zebrad"@]
}

/// Keywords that indicate high-risk unsafe usage, in priority order.
pub open spec fn high_risk_keywords() -> Seq<Seq<char>> {
    seq![
        "from_raw_parts"@,
        "transmute"@,
        "ptr::read"@,
        "ptr::write"@,
        "ptr::copy"@,
        "slice::from_raw_parts"@,
        "mem::forget"@,
        "mem::uninitialized"@,
        "MaybeUninit"@,
        "raw pointer"@,
        "as *mut"@,
        "as *const"@,
        "deref_mut"@,
    ]
}

/// The character sequences of a list of string slices.
pub open spec fn str_views(list: Seq<&str>) -> Seq<Seq<char>> {
    list.map_values(|x: &str| x@)
}

/// The crate-level risk: 2 for high-risk crates, 1 for medium-risk ones, else 0.
pub open spec fn crate_risk(name: Seq<char>) -> int {
    if high_risk_crates().contains(name) {
        2
    } else if medium_risk_crates().contains(name) {
        1
    } else {
        0
    }
}

/// Some keyword from index `i` on occurs in `text`.
pub open spec fn keyword_from(text: Seq<char>, kws: Seq<Seq<char>>, i: int) -> bool
    decreases kws.len() - i,
{
    if i < 0 || i >= kws.len() {
        false
    } else {
        has_sub(text, kws[i]) || keyword_from(text, kws, i + 1)
    }
}

/// The first keyword from index `i` on that occurs in `text` (`"unknown"` if none).
pub open spec fn first_keyword_from(text: Seq<char>, kws: Seq<Seq<char>>, i: int) -> Seq<char>
    decreases kws.len() - i,
{
    if i < 0 || i >= kws.len() {
        "unknown"@
    } else if has_sub(text, kws[i]) {
        kws[i]
    } else {
        first_keyword_from(text, kws, i + 1)
    }
}

/// The text that is searched for keywords: the line, a space, and the context
/// lines joined by spaces.
pub open spec fn risk_text(content: Seq<char>, context: Seq<Seq<char>>) -> Seq<char> {
    content + " "@ + seq_join(context, " "@)
}

/// The risk level and reason for an unsafe line of crate `name`.
pub open spec fn risk_verdict(name: Seq<char>, content: Seq<char>, context: Seq<Seq<char>>) -> (RiskLevel, Seq<char>) {
    let t = risk_text(content, context);
    let cr = crate_risk(name);
    let kw = keyword_from(t, high_risk_keywords(), 0);
    if cr == 2 && kw {
        (
            RiskLevel::High,
            "High-risk crate '"@ + name + "' with dangerous unsafe pattern ("@ + first_keyword_from(
                t,
                high_risk_keywords(),
                0,
            ) + ")"@,
        )
    } else if cr == 2 {
        (RiskLevel::High, "High-risk crate '"@ + name + "' — all unsafe blocks are high priority"@)
    } else if cr == 1 && kw {
        (RiskLevel::High, "Medium-risk crate '"@ + name + "' with dangerous unsafe pattern"@)
    } else if cr == 1 {
        (RiskLevel::Medium, "Medium-risk crate '"@ + name + "' — reachable via local input"@)
    } else if kw {
        (RiskLevel::Medium, "Low-risk crate but contains dangerous unsafe pattern"@)
    } else {
        (RiskLevel::Low, "Low-risk crate with standard unsafe usage"@)
    }
}

fn high_risk_crate_list() -> (v: Vec<&'static str>)
    ensures
        str_views(v@) == high_risk_crates(),
{
    let v = vec!["zebra-network", "zebra-chain", "zebra-script", "zebra-rpc"];
    assert(str_views(v@) =~= high_risk_crates());
    v
}

fn medium_risk_crate_list() -> (v: Vec<&'static str>)
    ensures
        str_views(v@) == medium_risk_crates(),
{
    let v = vec!["zebra-state", "zebra-consensus", "zebrad"];
    assert(str_views(v@) =~= medium_risk_crates());
    v
}

fn high_risk_keyword_list() -> (v: Vec<&'static str>)
    ensures
        str_views(v@) == high_risk_keywords(),
{
    let v = vec![
        "from_raw_parts",
        "transmute",
        "ptr::read",
        "ptr::write",
        "ptr::copy",
        "slice::from_raw_parts",
        "mem::forget",
        "mem::uninitialized",
        "MaybeUninit",
        "raw pointer",
        "as *mut",
        "as *const",
        "deref_mut",
    ];
    assert(str_views(v@) =~= high_risk_keywords());
    v
}

/// Whether `name` is one of the strings of `list`.
pub fn in_list(name: &str, list: &Vec<&str>) -> (r: bool)
    ensures
        r == str_views(list@).contains(name@),
{
    let mut i: usize = 0;
    while i < list.len()
        invariant
            i <= list@.len(),
            forall|j: int| 0 <= j < i ==> #[trigger] list@[j]@ != name@,
        decreases list.len() - i,
    {
        if str_eq(list[i], name) {
            assert(str_views(list@)[i as int] == name@);
            return true;
        }
        i = i + 1;
    }
    proof {
        if str_views(list@).contains(name@) {
            let j = choose|j: int| 0 <= j < str_views(list@).len() && str_views(list@)[j] == name@;
            assert(list@[j]@ == name@);
        }
    }
    false
}

/// The index of the first keyword that occurs in `text`, if any.
fn first_keyword_index(text: &Vec<char>, kws: &Vec<&str>) -> (r: Option<usize>)
    ensures
        keyword_from(text@, str_views(kws@), 0) == r.is_some(),
        match r {
            Some(i) => i < kws@.len() && first_keyword_from(text@, str_views(kws@), 0) == kws@[i as int]@,
            None => first_keyword_from(text@, str_views(kws@), 0) == "unknown"@,
        },
{
    let ghost k = str_views(kws@);
    let mut i: usize = 0;
    while i < kws.len()
        invariant
            i <= kws@.len(),
            k == str_views(kws@),
            keyword_from(text@, k, 0) == keyword_from(text@, k, i as int),
            first_keyword_from(text@, k, 0) == first_keyword_from(text@, k, i as int),
        decreases kws.len() - i,
    {
        if chars_contain(text, kws[i]) {
            return Some(i);
        }
        i = i + 1;
    }
    None
}

/// Classify the risk of an unsafe line of crate `crate_name`, given the line
/// and its context lines.
pub fn classify_risk(crate_name: &str, content: &str, context: &[String]) -> (r: (RiskLevel, String))
    ensures
        (r.0, r.1@) == risk_verdict(crate_name@, content@, views(context@)),
{
    let mut all_text = content.to_owned();
    all_text.append(" ");
    let joined = join_strings(context, " ");
    all_text.append(joined.as_str());
    let text = chars_of(all_text.as_str());
    proof {
        assert(text@ =~= risk_text(content@, views(context@)));
    }
    let crate_risk_level: u8 = if in_list(crate_name, &high_risk_crate_list()) {
        2
    } else if in_list(crate_name, &medium_risk_crate_list()) {
        1
    } else {
        0
    };
    let kws = high_risk_keyword_list();
    let hit = first_keyword_index(&text, &kws);
    let mut reason = String::new();
    let level = match (crate_risk_level, hit) {
        (2, Some(i)) => {
            reason.append("High-risk crate '");
            reason.append(crate_name);
            reason.append("' with dangerous unsafe pattern (");
            reason.append(kws[i]);
            reason.append(")");
            RiskLevel::High
        },
        (2, None) => {
            reason.append("High-risk crate '");
            reason.append(crate_name);
            reason.append("' — all unsafe blocks are high priority");
            RiskLevel::High
        },
        (1, Some(_)) => {
            reason.append("Medium-risk crate '");
            reason.append(crate_name);
            reason.append("' with dangerous unsafe pattern");
            RiskLevel::High
        },
        (1, None) => {
            reason.append("Medium-risk crate '");
            reason.append(crate_name);
            reason.append("' — reachable via local input");
            RiskLevel::Medium
        },
        (_, Some(_)) => {
            reason.append("Low-risk crate but contains dangerous unsafe pattern");
            RiskLevel::Medium
        },
        _ => {
            reason.append("Low-risk crate with standard unsafe usage");
            RiskLevel::Low
        },
    };
    let ghost expected = risk_verdict(crate_name@, content@, views(context@));
    assert(reason@ =~= expected.1);
    (level, reason)
}

/// The crates and keywords behind the risk levels: zebra-network,
/// zebra-chain, zebra-script and zebra-rpc are high-risk crates, every unsafe
/// line of which is high risk; zebra-state, zebra-consensus and zebrad are
/// medium-risk crates, whose unsafe lines are high risk with a dangerous
/// keyword nearby and medium risk without; any other crate's lines are never
/// high risk. The dangerous keywords found in the line and its context are
/// exactly these thirteen.
pub proof fn law_risk_tables(name: Seq<char>, content: Seq<char>, context: Seq<Seq<char>>)
    ensures
        ({
            let t = risk_text(content, context);
            let level = risk_verdict(name, content, context).0;
            let high = name == "zebra-network"@ || name == "zebra-chain"@ || name == "zebra-script"@ || name
                == "zebra-rpc"@;
            let medium = name == "zebra-state"@ || name == "zebra-consensus"@ || name == "zebrad"@;
            let kw = has_sub(t, "from_raw_parts"@) || has_sub(t, "transmute"@) || has_sub(t, "ptr::read"@)
                || has_sub(t, "ptr::write"@) || has_sub(t, "ptr::copy"@) || has_sub(t, "slice::from_raw_parts"@)
                || has_sub(t, "mem::forget"@) || has_sub(t, "mem::uninitialized"@) || has_sub(t, "MaybeUninit"@)
                || has_sub(t, "raw pointer"@) || has_sub(t, "as *mut"@) || has_sub(t, "as *const"@) || has_sub(
                t,
                "deref_mut"@,
            );
            &&& keyword_from(t, high_risk_keywords(), 0) == kw
            &&& high ==> level == RiskLevel::High
            &&& medium ==> level == (if kw { RiskLevel::High } else { RiskLevel::Medium })
            &&& !high && !medium ==> level == (if kw { RiskLevel::Medium } else { RiskLevel::Low })
        }),
{
    reveal_strlit("zebra-network");
    reveal_strlit("zebra-chain");
    reveal_strlit("zebra-script");
    reveal_strlit("zebra-rpc");
    reveal_strlit("zebra-state");
    reveal_strlit("zebra-consensus");
    reveal_strlit("zebrad");
    reveal_with_fuel(keyword_from, 14);
    let t = risk_text(content, context);
    assert(keyword_from(t, high_risk_keywords(), 0) == (has_sub(t, "from_raw_parts"@) || has_sub(t, "transmute"@)
        || has_sub(t, "ptr::read"@) || has_sub(t, "ptr::write"@) || has_sub(t, "ptr::copy"@) || has_sub(
        t,
        "slice::from_raw_parts"@,
    ) || has_sub(t, "mem::forget"@) || has_sub(t, "mem::uninitialized"@) || has_sub(t, "MaybeUninit"@)
        || has_sub(t, "raw pointer"@) || has_sub(t, "as *mut"@) || has_sub(t, "as *const"@) || has_sub(
        t,
        "deref_mut"@,
    )));
    let h = high_risk_crates();
    let m = medium_risk_crates();
    if name == "zebra-network"@ {
        assert(h[0] == name);
    } else if name == "zebra-chain"@ {
        assert(h[1] == name);
        assert(name[6] != "zebra-state"@[6]);
    } else if name == "zebra-script"@ {
        assert(h[2] == name);
    } else if name == "zebra-rpc"@ {
        assert(h[3] == name);
    } else {
        assert(!h.contains(name)) by {
            if h.contains(name) {
                let i = choose|i: int| 0 <= i < h.len() && h[i] == name;
                assert(i == 0 || i == 1 || i == 2 || i == 3);
            }
        }
        if name == "zebra-state"@ || name == "zebra-consensus"@ || name == "zebrad"@ {
            assert(m[0] == name || m[1] == name || m[2] == name);
            assert(crate_risk(name) == 1);
        } else {
            assert(!m.contains(name)) by {
                if m.contains(name) {
                    let i = choose|i: int| 0 <= i < m.len() && m[i] == name;
                    assert(i == 0 || i == 1 || i == 2);
                }
            }
        }
    }
}

/// Every unsafe block of a high-risk crate is high risk; in a medium-risk
/// crate it is high risk exactly when a dangerous keyword appears nearby; in
/// other crates it is medium risk with such a keyword and low risk without.
pub proof fn law_risk_levels(name: Seq<char>, content: Seq<char>, context: Seq<Seq<char>>)
    ensures
        ({
            let kw = keyword_from(risk_text(content, context), high_risk_keywords(), 0);
            let level = risk_verdict(name, content, context).0;
            &&& crate_risk(name) == 2 ==> level == RiskLevel::High
            &&& crate_risk(name) == 1 ==> (level == RiskLevel::High <==> kw) && (!kw ==> level == RiskLevel::Medium)
            &&& crate_risk(name) == 0 ==> (level == if kw { RiskLevel::Medium } else { RiskLevel::Low })
        }),
{
}

/// The lines reported as unsafe are exactly the lines that mention `unsafe`,
/// in increasing order.
pub proof fn law_unsafe_lines(lines: Seq<Seq<char>>, n: int)
    requires
        0 <= n <= lines.len(),
    ensures
        forall|k: int|
            0 <= k < unsafe_line_indices(lines, n).len() ==> 0 <= #[trigger] unsafe_line_indices(lines, n)[k] < n
                && has_sub(lines[unsafe_line_indices(lines, n)[k]], "unsafe"@),
        forall|a: int, b: int|
            0 <= a < b < unsafe_line_indices(lines, n).len() ==> #[trigger] unsafe_line_indices(lines, n)[a]
                < #[trigger] unsafe_line_indices(lines, n)[b],
        forall|i: int|
            0 <= i < n && has_sub(lines[i], "unsafe"@) ==> #[trigger] unsafe_line_indices(lines, n).contains(i),
    decreases n,
{
    if n > 0 {
        law_unsafe_lines(lines, n - 1);
        let p = unsafe_line_indices(lines, n - 1);
        assert forall|i: int| 0 <= i < n && has_sub(lines[i], "unsafe"@) implies #[trigger] unsafe_line_indices(lines, n).contains(i) by {
            if i < n - 1 {
                assert(unsafe_line_indices(lines, n - 1).contains(i));
                let a = choose|a: int| 0 <= a < p.len() && p[a] == i;
                assert(unsafe_line_indices(lines, n)[a] == i);
            } else {
                assert(unsafe_line_indices(lines, n)[p.len() as int] == i);
            }
        }
    }
}

/// The name of the crate a file belongs to: the first path component after the
/// workspace root, when the workspace's components are a prefix of the file's
/// and some component follows; otherwise `"unknown"`.
pub open spec fn crate_name_of(file: Seq<Seq<char>>, workspace: Seq<Seq<char>>) -> Seq<char> {
    if workspace.len() < file.len() && file.take(workspace.len() as int) == workspace {
        file[workspace.len() as int]
    } else {
        "unknown"@
    }
}

/// Extract the crate name from a file's path components, relative to the
/// workspace root's components.
pub fn extract_crate_name(file_components: &[String], workspace_components: &[String]) -> (r: String)
    ensures
        r@ == crate_name_of(views(file_components@), views(workspace_components@)),
{
    let ghost f = views(file_components@);
    let ghost w = views(workspace_components@);
    if workspace_components.len() >= file_components.len() {
        return "unknown".to_owned();
    }
    let mut i: usize = 0;
    while i < workspace_components.len()
        invariant
            i <= workspace_components@.len() < file_components@.len(),
            f == views(file_components@),
            w == views(workspace_components@),
            forall|j: int| 0 <= j < i ==> f[j] == w[j],
        decreases workspace_components.len() - i,
    {
        if !(file_components[i] == workspace_components[i]) {
            assert(f.take(w.len() as int)[i as int] != w[i as int]);
            return "unknown".to_owned();
        }
        i = i + 1;
    }
    assert(f.take(w.len() as int) =~= w);
    file_components[workspace_components.len()].clone()
}

/// A single unsafe-block finding.
pub struct UnsafeBlock {
    /// File path (relative to the workspace root).
    pub file: String,
    /// Line number (from 1).
    pub line: usize,
    /// Column of the first `unsafe`, in bytes from 1.
    pub column: usize,
    /// The trimmed line.
    pub content: String,
    /// Surrounding context (up to 3 lines before and after).
    pub context: Vec<String>,
    /// Risk level classification.
    pub risk: RiskLevel,
    /// Reason for the risk classification.
    pub risk_reason: String,
    /// Crate name.
    pub crate_name: String,
}

/// Indices below `n` of the lines that mention `"unsafe"`, in increasing order.
pub open spec fn unsafe_line_indices(lines: Seq<Seq<char>>, n: int) -> Seq<int>
    decreases n,
{
    if n <= 0 {
        Seq::empty()
    } else if has_sub(lines[n - 1], "unsafe"@) {
        unsafe_line_indices(lines, n - 1).push(n - 1)
    } else {
        unsafe_line_indices(lines, n - 1)
    }
}

/// The first character index of `"unsafe"` in a line that contains it.
pub open spec fn unsafe_index(line: Seq<char>) -> int {
    choose|i: int| first_occurrence(line, "unsafe"@, i)
}

/// First context line index for line `i`.
pub open spec fn context_start(i: int) -> int {
    if i >= 3 {
        i - 3
    } else {
        0
    }
}

/// One past the last context line index for line `i` of `n`.
pub open spec fn context_end(i: int, n: int) -> int {
    if i + 4 <= n {
        i + 4
    } else {
        n
    }
}

/// `b` is the finding for line `i` of `lines` in crate `name` at path `rel`.
pub open spec fn block_for(b: UnsafeBlock, lines: Seq<Seq<char>>, i: int, name: Seq<char>, rel: Seq<char>) -> bool {
    let ctx = lines.subrange(context_start(i), context_end(i, lines.len() as int));
    &&& b.file@ == rel
    &&& b.line == i + 1
    &&& b.column == encode_utf8(lines[i].take(unsafe_index(lines[i]))).len() + 1
    &&& b.content@ == trim(lines[i])
    &&& views(b.context@) == ctx
    &&& (b.risk, b.risk_reason@) == risk_verdict(name, lines[i], ctx)
    &&& b.crate_name@ == name
}

/// Find and classify every line of `content` that mentions `unsafe`, for a file
/// of crate `crate_name` at path `rel_path`.
pub fn scan_unsafe_blocks(content: &str, crate_name: &str, rel_path: &str) -> (blocks: Vec<UnsafeBlock>)
    ensures
        ({
            let lines = lines_of(content@);
            let idx = unsafe_line_indices(lines, lines.len() as int);
            &&& blocks@.len() == idx.len()
            &&& forall|k: int|
                0 <= k < idx.len() ==> block_for(#[trigger] blocks@[k], lines, idx[k], crate_name@, rel_path@)
        }),
{
    let lines = split_lines(content);
    let ghost lv = views(lines@);
    assert(lv == lines_of(content@));
    let pattern = chars_of("unsafe");
    let n = lines.len();
    let mut blocks: Vec<UnsafeBlock> = Vec::new();
    let mut i: usize = 0;
    while i < n
        invariant
            n == lines@.len(),
            lv == views(lines@),
            pattern@ == "unsafe"@,
            i <= n,
            blocks@.len() == unsafe_line_indices(lv, i as int).len(),
            forall|k: int|
                0 <= k < blocks@.len() ==> block_for(
                    #[trigger] blocks@[k],
                    lv,
                    unsafe_line_indices(lv, i as int)[k],
                    crate_name@,
                    rel_path@,
                ),
        decreases n - i,
    {
        let line = lines[i].as_str();
        let lc = chars_of(line);
        assert(lv[i as int] == line@);
        match find_chars(&lc, &pattern) {
            Some(idx) => {
                let start = if i >= 3 { i - 3 } else { 0 };
                let end = if n - i >= 4 { i + 4 } else { n };
                let mut context: Vec<String> = Vec::new();
                let mut k = start;
                while k < end
                    invariant
                        start <= k <= end <= n,
                        n == lines@.len(),
                        views(context@) == views(lines@).subrange(start as int, k as int),
                    decreases end - k,
                {
                    let ghost prev = views(context@);
                    let item = lines[k].clone();
                    assert(item@ == lines@[k as int]@);
                    context.push(item);
                    assert(views(context@) =~= prev.push(lines@[k as int]@));
                    k = k + 1;
                    assert(views(context@) =~= views(lines@).subrange(start as int, k as int));
                }
                let (risk, risk_reason) = classify_risk(crate_name, line, context.as_slice());
                let bytes = line.as_bytes();
                let total = bytes.len();
                let before = line.substring_char(0, idx).len();
                proof {
                    reveal_strlit("unsafe");
                    assert(first_occurrence(line@, "unsafe"@, idx as int));
                    assert(unsafe_index(line@) == idx) by {
                        let u = unsafe_index(line@);
                        assert(first_occurrence(line@, "unsafe"@, u));
                        if u < idx {
                            assert(!first_occurrence(line@, "unsafe"@, u));
                        }
                        if idx < u {
                            assert(!first_occurrence(line@, "unsafe"@, idx as int));
                        }
                    }
                    let pre = line@.take(idx as int);
                    let post = line@.skip(idx as int);
                    assert(line@ =~= pre + post);
                    lemma_utf8_len_concat(pre, post);
                    lemma_utf8_len_pos(post);
                    assert(line@.subrange(0, idx as int) =~= pre);
                }
                let trimmed = trim_str(line);
                let ghost old_blocks = blocks@;
                blocks.push(
                    UnsafeBlock {
                        file: rel_path.to_owned(),
                        line: i + 1,
                        column: before + 1,
                        content: trimmed,
                        context,
                        risk,
                        risk_reason,
                        crate_name: crate_name.to_owned(),
                    },
                );
                proof {
                    assert(has_sub(lv[i as int], "unsafe"@));
                    assert(unsafe_line_indices(lv, i + 1) == unsafe_line_indices(lv, i as int).push(
                        i as int,
                    ));
                    assert forall|k: int| 0 <= k < blocks@.len() implies block_for(
                        #[trigger] blocks@[k],
                        lv,
                        unsafe_line_indices(lv, i + 1)[k],
                        crate_name@,
                        rel_path@,
                    ) by {
                        if k < old_blocks.len() {
                            assert(blocks@[k] == old_blocks[k]);
                        }
                    }
                }
            },
            None => {
                assert(!has_sub(lv[i as int], "unsafe"@));
                assert(unsafe_line_indices(lv, i + 1) == unsafe_line_indices(lv, i as int));
            },
        }
        i = i + 1;
    }
    blocks
}

/// The position of a risk level in report order (high first).
pub open spec fn risk_rank(r: RiskLevel) -> int {
    match r {
        RiskLevel::High => 0,
        RiskLevel::Medium => 1,
        RiskLevel::Low => 2,
    }
}

/// Blocks are reported high risk first, then medium, then low.
pub proof fn law_risk_order()
    ensures
        risk_rank(RiskLevel::High) < risk_rank(RiskLevel::Medium),
        risk_rank(RiskLevel::Medium) < risk_rank(RiskLevel::Low),
{
}

/// How many of the first `n` blocks have risk rank `r`.
pub open spec fn risk_count(blocks: Seq<UnsafeBlock>, r: int, n: int) -> int
    decreases n,
{
    if n <= 0 {
        0
    } else {
        risk_count(blocks, r, n - 1) + if risk_rank(blocks[n - 1].risk) == r { 1int } else { 0int }
    }
}

/// The number of blocks at each risk level, indexed high, medium, low.
pub fn risk_counts(blocks: &Vec<UnsafeBlock>) -> (counts: [usize; 3])
    ensures
        forall|r: int| 0 <= r < 3 ==> #[trigger] counts@[r] == risk_count(blocks@, r, blocks@.len() as int),
{
    let mut counts: [usize; 3] = [0, 0, 0];
    let mut i: usize = 0;
    while i < blocks.len()
        invariant
            i <= blocks@.len(),
            forall|r: int| 0 <= r < 3 ==> #[trigger] counts@[r] == risk_count(blocks@, r, i as int),
            forall|r: int| 0 <= r < 3 ==> #[trigger] counts@[r] <= i,
        decreases blocks.len() - i,
    {
        let r: usize = match blocks[i].risk {
            RiskLevel::High => 0,
            RiskLevel::Medium => 1,
            RiskLevel::Low => 2,
        };
        counts[r] = counts[r] + 1;
        i = i + 1;
    }
    counts
}

/// How many of the first `n` blocks belong to crate `name`.
pub open spec fn crate_count(blocks: Seq<UnsafeBlock>, name: Seq<char>, n: int) -> int
    decreases n,
{
    if n <= 0 {
        0
    } else {
        crate_count(blocks, name, n - 1) + if blocks[n - 1].crate_name@ == name { 1int } else { 0int }
    }
}

/// The crates of the first `n` blocks, each once, in order of first appearance.
pub open spec fn crates_seen(blocks: Seq<UnsafeBlock>, n: int) -> Seq<Seq<char>>
    decreases n,
{
    if n <= 0 {
        Seq::empty()
    } else if crates_seen(blocks, n - 1).contains(blocks[n - 1].crate_name@) {
        crates_seen(blocks, n - 1)
    } else {
        crates_seen(blocks, n - 1).push(blocks[n - 1].crate_name@)
    }
}

/// The number of blocks per crate, one entry per crate in order of first appearance.
pub fn crate_counts(blocks: &Vec<UnsafeBlock>) -> (counts: Vec<(String, usize)>)
    ensures
        counts@.map_values(|e: (String, usize)| e.0@) == crates_seen(blocks@, blocks@.len() as int),
        forall|k: int| 0 <= k < counts@.len() ==> #[trigger] counts@[k].1 == crate_count(
            blocks@,
            counts@[k].0@,
            blocks@.len() as int,
        ),
{
    let mut counts: Vec<(String, usize)> = Vec::new();
    let mut i: usize = 0;
    while i < blocks.len()
        invariant
            i <= blocks@.len(),
            counts@.map_values(|e: (String, usize)| e.0@) == crates_seen(blocks@, i as int),
            counts@.map_values(|e: (String, usize)| e.0@).no_duplicates(),
            forall|k: int| 0 <= k < counts@.len() ==> #[trigger] counts@[k].1 == crate_count(blocks@, counts@[k].0@, i as int),
            forall|k: int| 0 <= k < counts@.len() ==> #[trigger] counts@[k].1 <= i,
        decreases blocks.len() - i,
    {
        let name = &blocks[i].crate_name;
        let ghost names = counts@.map_values(|e: (String, usize)| e.0@);
        let mut j: usize = 0;
        while j < counts.len() && !(counts[j].0 == *name)
            invariant
                j <= counts@.len(),
                forall|q: int| 0 <= q < j ==> #[trigger] counts@[q].0@ != name@,
            decreases counts.len() - j,
        {
            j = j + 1;
        }
        let ghost before = counts@;
        if j < counts.len() {
            let c = counts[j].1;
            let key = counts[j].0.clone();
            counts.set(j, (key, c + 1));
            proof {
                assert(names[j as int] == name@);
                assert(names.contains(name@));
                assert(counts@.map_values(|e: (String, usize)| e.0@) =~= names);
                assert forall|k: int| 0 <= k < counts@.len() implies #[trigger] counts@[k].1 == crate_count(blocks@, counts@[k].0@, i + 1) by {
                    if k != j {
                        assert(counts@[k] == before[k]);
                        assert(names[k] != names[j as int]);
                    }
                }
            }
        } else {
            proof {
                if names.contains(name@) {
                    let q = choose|q: int| 0 <= q < names.len() && names[q] == name@;
                    assert(counts@[q].0@ == name@);
                }
            }
            counts.push((name.clone(), 1));
            proof {
                assert(counts@.map_values(|e: (String, usize)| e.0@) =~= names.push(name@));
                assert(!names.contains(name@));
                assert(names.push(name@).no_duplicates()) by {
                    assert forall|a: int, b: int| 0 <= a < b < names.len() + 1 implies names.push(name@)[a] != names.push(name@)[b] by {
                        if b == names.len() {
                            assert(names.push(name@)[a] == names[a]);
                        }
                    }
                }
                assert forall|k: int| 0 <= k < counts@.len() implies #[trigger] counts@[k].1 == crate_count(blocks@, counts@[k].0@, i + 1) by {
                    if k < before.len() {
                        assert(counts@[k] == before[k]);
                        assert(names[k] != name@);
                        assert(counts@[k].0@ != name@);
                    } else {
                        assert(crate_count(blocks@, name@, i as int) == 0) by {
                            lemma_crate_count_absent(blocks@, name@, i as int);
                        }
                    }
                }
            }
        }
        i = i + 1;
    }
    counts
}

/// A crate not yet seen has no blocks so far.
proof fn lemma_crate_count_absent(blocks: Seq<UnsafeBlock>, name: Seq<char>, n: int)
    requires
        0 <= n <= blocks.len(),
        !crates_seen(blocks, n).contains(name),
    ensures
        crate_count(blocks, name, n) == 0,
    decreases n,
{
    if n > 0 {
        let c = crates_seen(blocks, n - 1);
        if c.contains(name) {
            let q = choose|q: int| 0 <= q < c.len() && c[q] == name;
            if c.contains(blocks[n - 1].crate_name@) {
                assert(crates_seen(blocks, n) == c);
            } else {
                assert(crates_seen(blocks, n)[q] == name);
            }
        }
        if blocks[n - 1].crate_name@ == name && !c.contains(name) {
            assert(crates_seen(blocks, n)[c.len() as int] == name);
        }
        lemma_crate_count_absent(blocks, name, n - 1);
    }
}

/// Block `a` is reported before block `b`: higher risk first, then by file
/// (in `str` order), then by line, and in input order when all three agree.
pub open spec fn reported_before(blocks: Seq<UnsafeBlock>, a: int, b: int) -> bool {
    let x = blocks[a];
    let y = blocks[b];
    if risk_rank(x.risk) != risk_rank(y.risk) {
        risk_rank(x.risk) < risk_rank(y.risk)
    } else if x.file@ != y.file@ {
        text_lt(x.file@, y.file@)
    } else if x.line != y.line {
        x.line < y.line
    } else {
        a < b
    }
}

/// The report order is a strict total order on block indices.
pub proof fn lemma_reported_before(blocks: Seq<UnsafeBlock>, a: int, b: int, c: int)
    ensures
        !reported_before(blocks, a, a),
        a != b ==> reported_before(blocks, a, b) || reported_before(blocks, b, a),
        reported_before(blocks, a, b) ==> !reported_before(blocks, b, a),
        reported_before(blocks, a, b) && reported_before(blocks, b, c) ==> reported_before(blocks, a, c),
{
    let x = blocks[a].file@;
    let y = blocks[b].file@;
    let z = blocks[c].file@;
    lemma_text_lt_total(x, y);
    lemma_text_lt_total(y, z);
    lemma_text_lt_total(x, z);
    if text_lt(x, y) && text_lt(y, z) {
        lemma_text_lt_trans(x, y, z);
    }
}

/// Whether block `a` is reported before block `b`.
fn block_before(blocks: &Vec<UnsafeBlock>, a: usize, b: usize) -> (r: bool)
    requires
        a < blocks@.len(),
        b < blocks@.len(),
    ensures
        r == reported_before(blocks@, a as int, b as int),
{
    let x = &blocks[a];
    let y = &blocks[b];
    let rx: u8 = match x.risk {
        RiskLevel::High => 0,
        RiskLevel::Medium => 1,
        RiskLevel::Low => 2,
    };
    let ry: u8 = match y.risk {
        RiskLevel::High => 0,
        RiskLevel::Medium => 1,
        RiskLevel::Low => 2,
    };
    if rx != ry {
        rx < ry
    } else if !str_eq(x.file.as_str(), y.file.as_str()) {
        text_less(x.file.as_str(), y.file.as_str())
    } else if x.line != y.line {
        x.line < y.line
    } else {
        a < b
    }
}

/// The order in which blocks are reported: every block index once, sorted by
/// risk (high first), then file, then line, keeping input order among equal
/// keys (a stable sort).
pub fn report_order(blocks: &Vec<UnsafeBlock>) -> (order: Vec<usize>)
    ensures
        order@.len() == blocks@.len(),
        order@.no_duplicates(),
        forall|k: int| 0 <= k < order@.len() ==> #[trigger] order@[k] < blocks@.len(),
        forall|i: int| 0 <= i < blocks@.len() ==> #[trigger] order@.contains(i as usize),
        forall|a: int, b: int|
            0 <= a < b < order@.len() ==> reported_before(blocks@, #[trigger] order@[a] as int, #[trigger] order@[b] as int),
{
    let n = blocks.len();
    let mut order: Vec<usize> = Vec::new();
    let mut i: usize = 0;
    while i < n
        invariant
            n == blocks@.len(),
            i <= n,
            order@.len() == i,
            order@.no_duplicates(),
            forall|k: int| 0 <= k < order@.len() ==> #[trigger] order@[k] < i,
            forall|j: int| 0 <= j < i ==> #[trigger] order@.contains(j as usize),
            forall|a: int, b: int|
                0 <= a < b < order@.len() ==> reported_before(blocks@, #[trigger] order@[a] as int, #[trigger] order@[b] as int),
        decreases n - i,
    {
        let mut p: usize = 0;
        while p < order.len() && block_before(blocks, order[p], i)
            invariant
                n == blocks@.len(),
                i < n,
                p <= order@.len(),
                forall|k: int| 0 <= k < order@.len() ==> #[trigger] order@[k] < i,
                forall|q: int| 0 <= q < p ==> reported_before(blocks@, #[trigger] order@[q] as int, i as int),
            decreases order.len() - p,
        {
            p = p + 1;
        }
        let ghost old_order = order@;
        proof {
            assert forall|q: int| p <= q < old_order.len() implies reported_before(
                blocks@,
                i as int,
                #[trigger] old_order[q] as int,
            ) by {
                lemma_reported_before(blocks@, old_order[p as int] as int, i as int, i as int);
                lemma_reported_before(blocks@, i as int, old_order[p as int] as int, old_order[q] as int);
            }
        }
        order.insert(p, i);
        proof {
            old_order.insert_ensures(p as int, i);
            let o = order@;
            assert forall|k: int| 0 <= k < o.len() implies #[trigger] o[k] < i + 1 by {
                if k > p {
                    assert(o[k] == old_order[k - 1]);
                }
            }
            assert forall|a: int, b: int| 0 <= a < b < o.len() implies o[a] != o[b] by {
                if a > p {
                    assert(o[a] == old_order[a - 1]);
                }
                if b > p {
                    assert(o[b] == old_order[b - 1]);
                }
            }
            assert forall|j: int| 0 <= j < i + 1 implies #[trigger] o.contains(j as usize) by {
                if j == i {
                    assert(o[p as int] == i);
                } else {
                    assert(old_order.contains(j as usize));
                    let q = choose|q: int| 0 <= q < old_order.len() && old_order[q] == j as usize;
                    if q < p {
                        assert(o[q] == j as usize);
                    } else {
                        assert(o[q + 1] == j as usize);
                    }
                }
            }
            assert forall|a: int, b: int| 0 <= a < b < o.len() implies reported_before(
                blocks@,
                #[trigger] o[a] as int,
                #[trigger] o[b] as int,
            ) by {
                if a < p && b < p {
                } else if a < p && b == p {
                } else if a < p {
                    assert(o[b] == old_order[b - 1]);
                } else if a == p {
                    assert(o[b] == old_order[b - 1]);
                } else {
                    assert(o[a] == old_order[a - 1]);
                    assert(o[b] == old_order[b - 1]);
                }
            }
        }
        i = i + 1;
    }
    order
}

} // verus!
