//! Character-level string helpers with exact specifications.

use vstd::prelude::*;
use vstd::string::StringExecFns;
use vstd::utf8::{encode_scalar, encode_utf8};

verus! {

/// `p` occurs in `s` starting at character index `i`.
pub open spec fn occurs_at(s: Seq<char>, p: Seq<char>, i: int) -> bool {
    0 <= i && i + p.len() <= s.len() && s.subrange(i, i + p.len()) == p
}

/// `p` occurs somewhere in `s` (the meaning of `str::contains` for a string pattern).
pub open spec fn has_sub(s: Seq<char>, p: Seq<char>) -> bool {
    exists|i: int| #[trigger] occurs_at(s, p, i)
}

/// `i` is the first index at which `p` occurs in `s`.
pub open spec fn first_occurrence(s: Seq<char>, p: Seq<char>, i: int) -> bool {
    occurs_at(s, p, i) && forall|j: int| 0 <= j < i ==> !#[trigger] occurs_at(s, p, j)
}

/// Appends one character to a `String`.
///
/// Calls `String::push`, whose documentation states that it appends the given
/// character to the end of the string; the contract claims exactly that.
#[verifier::external_body]
pub(crate) fn push_char(s: &mut String, c: char)
    ensures
        final(s)@ == old(s)@.push(c),
{
    s.push(c);
}

/// The characters of `s`, as a vector.
pub fn chars_of(s: &str) -> (v: Vec<char>)
    ensures
        v@ == s@,
{
    let mut v: Vec<char> = Vec::new();
    for c in it: s.chars()
        invariant
            v@ == it.seq().take(it.index() as int),
    {
        v.push(c);
    }
    v
}

/// A `String` holding the characters `chars[from..to]`.
pub fn string_from_chars(chars: &Vec<char>, from: usize, to: usize) -> (r: String)
    requires
        from <= to <= chars.len(),
    ensures
        r@ == chars@.subrange(from as int, to as int),
{
    let mut r = String::new();
    let mut i = from;
    while i < to
        invariant
            from <= i <= to <= chars.len(),
            r@ == chars@.subrange(from as int, i as int),
        decreases to - i,
    {
        push_char(&mut r, chars[i]);
        i = i + 1;
        assert(r@ =~= chars@.subrange(from as int, i as int));
    }
    r
}

/// Whether two strings hold the same characters.
pub fn str_eq(a: &str, b: &str) -> (r: bool)
    ensures
        r == (a@ == b@),
{
    let x = a.to_owned();
    let y = b.to_owned();
    x == y
}

/// Whether `p` occurs in `s` at character index `i`.
fn matches_at(s: &Vec<char>, p: &Vec<char>, i: usize) -> (r: bool)
    requires
        i + p.len() <= s.len(),
    ensures
        r == occurs_at(s@, p@, i as int),
{
    let mut j: usize = 0;
    while j < p.len()
        invariant
            0 <= j <= p.len(),
            i + p.len() <= s.len(),
            forall|k: int| 0 <= k < j ==> s@[i + k] == p@[k],
        decreases p.len() - j,
    {
        if s[i + j] != p[j] {
            assert(s@.subrange(i as int, i + p.len())[j as int] != p@[j as int]);
            return false;
        }
        j = j + 1;
    }
    assert(s@.subrange(i as int, i + p.len()) =~= p@);
    true
}

/// The first character index at which `p` occurs in `s`, if any.
pub fn find_chars(s: &Vec<char>, p: &Vec<char>) -> (r: Option<usize>)
    ensures
        match r {
            Some(i) => first_occurrence(s@, p@, i as int),
            None => !has_sub(s@, p@),
        },
{
    if p.len() > s.len() {
        assert forall|j: int| !#[trigger] occurs_at(s@, p@, j) by {}
        return None;
    }
    if p.len() == 0 {
        assert(s@.subrange(0, 0) =~= p@);
        return Some(0);
    }
    let last = s.len() - p.len();
    let mut i: usize = 0;
    while i <= last
        invariant
            last == s.len() - p.len(),
            0 < p.len() <= s.len(),
            0 <= i <= last + 1,
            forall|j: int| 0 <= j < i ==> !#[trigger] occurs_at(s@, p@, j),
        decreases last + 1 - i,
    {
        if matches_at(s, p, i) {
            return Some(i);
        }
        i = i + 1;
    }
    assert forall|j: int| !#[trigger] occurs_at(s@, p@, j) by {}
    None
}

/// Whether the pattern `p` occurs in the characters `s`.
pub fn chars_contain(s: &Vec<char>, p: &str) -> (r: bool)
    ensures
        r == has_sub(s@, p@),
{
    let pv = chars_of(p);
    find_chars(s, &pv).is_some()
}

/// Whether `p` occurs in `s` (as `str::contains` with a string pattern).
pub fn contains(s: &str, p: &str) -> (r: bool)
    ensures
        r == has_sub(s@, p@),
{
    let sv = chars_of(s);
    let pv = chars_of(p);
    find_chars(&sv, &pv).is_some()
}

/// The White_Space characters that `char::is_whitespace` accepts.
pub open spec fn is_ws(c: char) -> bool {
    let u = c as u32;
    u == 0x20 || (0x09 <= u <= 0x0d) || u == 0x85 || u == 0xa0 || u == 0x1680 || (0x2000 <= u
        <= 0x200a) || u == 0x2028 || u == 0x2029 || u == 0x202f || u == 0x205f || u == 0x3000
}

/// Whether `c` is white space (as `char::is_whitespace`).
pub fn is_whitespace_char(c: char) -> (r: bool)
    ensures
        r == is_ws(c),
{
    let u = c as u32;
    u == 0x20 || (0x09 <= u && u <= 0x0d) || u == 0x85 || u == 0xa0 || u == 0x1680 || (0x2000 <= u
        && u <= 0x200a) || u == 0x2028 || u == 0x2029 || u == 0x202f || u == 0x205f || u == 0x3000
}

/// `s` without leading white space.
pub open spec fn trim_start(s: Seq<char>) -> Seq<char>
    decreases s.len(),
{
    if s.len() > 0 && is_ws(s[0]) {
        trim_start(s.drop_first())
    } else {
        s
    }
}

/// `s` without trailing white space.
pub open spec fn trim_end(s: Seq<char>) -> Seq<char>
    decreases s.len(),
{
    if s.len() > 0 && is_ws(s.last()) {
        trim_end(s.drop_last())
    } else {
        s
    }
}

/// `s` without leading and trailing white space (as `str::trim`).
pub open spec fn trim(s: Seq<char>) -> Seq<char> {
    trim_end(trim_start(s))
}

/// The characters `chars[from..to]` without leading and trailing white space.
pub fn trim_chars(chars: &Vec<char>, from: usize, to: usize) -> (r: String)
    requires
        from <= to <= chars.len(),
    ensures
        r@ == trim(chars@.subrange(from as int, to as int)),
{
    let ghost whole = chars@.subrange(from as int, to as int);
    let mut a = from;
    while a < to && is_whitespace_char(chars[a])
        invariant
            from <= a <= to <= chars.len(),
            trim_start(whole) == trim_start(chars@.subrange(a as int, to as int)),
        decreases to - a,
    {
        assert(chars@.subrange(a as int, to as int).drop_first() =~= chars@.subrange(a + 1, to as int));
        a = a + 1;
    }
    let mut b = to;
    while b > a && is_whitespace_char(chars[b - 1])
        invariant
            from <= a <= b <= to <= chars.len(),
            trim_end(chars@.subrange(a as int, to as int)) == trim_end(chars@.subrange(a as int, b as int)),
        decreases b - a,
    {
        assert(chars@.subrange(a as int, b as int).drop_last() =~= chars@.subrange(a as int, b - 1));
        b = b - 1;
    }
    string_from_chars(chars, a, b)
}

/// Trim a string (as `str::trim`).
pub fn trim_str(s: &str) -> (r: String)
    ensures
        r@ == trim(s@),
{
    let c = chars_of(s);
    assert(c@.subrange(0, c@.len() as int) =~= s@);
    trim_chars(&c, 0, c.len())
}

/// `s` split at every `'\n'` (the pieces between newlines; one piece if none).
pub open spec fn split_newlines(s: Seq<char>) -> Seq<Seq<char>>
    decreases s.len(),
{
    if s.len() == 0 {
        seq![Seq::empty()]
    } else {
        let p = split_newlines(s.drop_last());
        if s.last() == '\n' {
            p.push(Seq::empty())
        } else {
            p.update(p.len() - 1, p.last().push(s.last()))
        }
    }
}

/// A piece without one trailing carriage return.
pub open spec fn strip_cr(p: Seq<char>) -> Seq<char> {
    if p.len() > 0 && p.last() == '\r' {
        p.drop_last()
    } else {
        p
    }
}

/// The lines of `s` (as `str::lines`): split at `'\n'`, each terminated line
/// loses one trailing `'\r'`, and a final line terminator adds no empty line.
pub open spec fn lines_of(s: Seq<char>) -> Seq<Seq<char>> {
    let parts = split_newlines(s);
    let done = parts.drop_last().map_values(|p: Seq<char>| strip_cr(p));
    if s.len() == 0 || s.last() == '\n' {
        done
    } else {
        done.push(parts.last())
    }
}

/// Splitting never yields an empty list of pieces.
pub proof fn lemma_split_nonempty(s: Seq<char>)
    ensures
        split_newlines(s).len() >= 1,
    decreases s.len(),
{
    if s.len() > 0 {
        lemma_split_nonempty(s.drop_last());
    }
}

/// No piece of a split contains a newline.
proof fn lemma_split_no_newline(s: Seq<char>)
    ensures
        forall|k: int|
            0 <= k < split_newlines(s).len() ==> !(#[trigger] split_newlines(s)[k]).contains('\n'),
    decreases s.len(),
{
    lemma_split_nonempty(s);
    if s.len() > 0 {
        let p = split_newlines(s.drop_last());
        lemma_split_no_newline(s.drop_last());
        lemma_split_nonempty(s.drop_last());
        let q = split_newlines(s);
        assert forall|k: int| 0 <= k < q.len() implies !(#[trigger] q[k]).contains('\n') by {
            if s.last() == '\n' {
                if k < p.len() {
                    assert(q[k] == p[k]);
                } else {
                    assert(q[k] =~= Seq::<char>::empty());
                }
            } else if k < p.len() - 1 {
                assert(q[k] == p[k]);
            } else {
                let l = p.last().push(s.last());
                assert(q[k] == l);
                assert(!p[p.len() - 1].contains('\n'));
                if l.contains('\n') {
                    let j = choose|j: int| 0 <= j < l.len() && l[j] == '\n';
                    if j < l.len() - 1 {
                        assert(p.last()[j] == '\n');
                    }
                }
            }
        }
    }
}

/// No line contains a newline character.
pub proof fn law_lines_have_no_newline(s: Seq<char>)
    ensures
        forall|k: int| 0 <= k < lines_of(s).len() ==> !(#[trigger] lines_of(s)[k]).contains('\n'),
{
    let parts = split_newlines(s);
    lemma_split_no_newline(s);
    lemma_split_nonempty(s);
    let done = parts.drop_last().map_values(|p: Seq<char>| strip_cr(p));
    assert forall|k: int| 0 <= k < lines_of(s).len() implies !(#[trigger] lines_of(s)[k]).contains('\n') by {
        if k < done.len() {
            let p = parts[k];
            assert(!p.contains('\n'));
            assert(lines_of(s)[k] == strip_cr(p));
            if strip_cr(p).contains('\n') {
                let j = choose|j: int| 0 <= j < strip_cr(p).len() && strip_cr(p)[j] == '\n';
                assert(p[j] == '\n');
            }
        } else {
            assert(lines_of(s)[k] == parts.last());
        }
    }
}

/// The lines of a string (as `str::lines`).
pub fn split_lines(s: &str) -> (lines: Vec<String>)
    ensures
        lines@.map_values(|l: String| l@) == lines_of(s@),
{
    let c = chars_of(s);
    let mut lines: Vec<String> = Vec::new();
    let mut start: usize = 0;
    let mut i: usize = 0;
    proof {
        assert(c@.take(0) =~= Seq::<char>::empty());
        assert(c@.subrange(0, 0) =~= Seq::<char>::empty());
    }
    while i < c.len()
        invariant
            c@ == s@,
            start <= i <= c@.len(),
            split_newlines(c@.take(i as int)).last() == c@.subrange(start as int, i as int),
            lines@.map_values(|l: String| l@) == split_newlines(c@.take(i as int)).drop_last().map_values(
                |p: Seq<char>| strip_cr(p),
            ),
        decreases c.len() - i,
    {
        let ghost t = c@.take(i as int);
        let ghost t1 = c@.take(i as int + 1);
        proof {
            assert(t1.drop_last() =~= t);
            assert(t1.last() == c@[i as int]);
            lemma_split_nonempty(t);
        }
        if c[i] == '\n' {
            let ghost piece = c@.subrange(start as int, i as int);
            let end = if i > start && c[i - 1] == '\r' { i - 1 } else { i };
            let ghost before = lines@.map_values(|l: String| l@);
            let line = string_from_chars(&c, start, end);
            lines.push(line);
            proof {
                assert(strip_cr(piece) =~= c@.subrange(start as int, end as int));
                let p = split_newlines(t);
                assert(split_newlines(t1) == p.push(Seq::<char>::empty()));
                assert(split_newlines(t1).drop_last() =~= p);
                assert(p =~= p.drop_last().push(piece));
                assert(lines@.map_values(|l: String| l@) =~= before.push(strip_cr(piece)));
                assert(p.map_values(|q: Seq<char>| strip_cr(q)) =~= p.drop_last().map_values(
                    |q: Seq<char>| strip_cr(q),
                ).push(strip_cr(piece)));
                assert(c@.subrange(i + 1, i + 1) =~= Seq::<char>::empty());
            }
            start = i + 1;
        } else {
            proof {
                let p = split_newlines(t);
                let q = split_newlines(t1);
                assert(q == p.update(p.len() - 1, p.last().push(c@[i as int])));
                assert(q.last() =~= c@.subrange(start as int, i + 1));
                assert(q.drop_last() =~= p.drop_last());
            }
        }
        i = i + 1;
    }
    proof {
        assert(c@.take(c@.len() as int) =~= c@);
        lemma_split_nonempty(c@);
    }
    if c.len() > 0 && c[c.len() - 1] != '\n' {
        let ghost before = lines@.map_values(|l: String| l@);
        let last = string_from_chars(&c, start, c.len());
        lines.push(last);
        assert(lines@.map_values(|l: String| l@) =~= before.push(split_newlines(s@).last()));
    }
    lines
}

/// `list` joined with `sep` between consecutive items.
pub open spec fn seq_join(list: Seq<Seq<char>>, sep: Seq<char>) -> Seq<char>
    decreases list.len(),
{
    if list.len() == 0 {
        Seq::empty()
    } else if list.len() == 1 {
        list[0]
    } else {
        seq_join(list.drop_last(), sep) + sep + list.last()
    }
}

/// The character sequences of a list of strings.
pub open spec fn views(list: Seq<String>) -> Seq<Seq<char>> {
    list.map_values(|l: String| l@)
}

/// Join strings with a separator (as `[String]::join`).
pub fn join_strings(list: &[String], sep: &str) -> (r: String)
    ensures
        r@ == seq_join(views(list@), sep@),
{
    let mut r = String::new();
    let mut i: usize = 0;
    let ghost v = views(list@);
    assert(v.take(0) =~= Seq::<Seq<char>>::empty());
    while i < list.len()
        invariant
            i <= list@.len(),
            v == views(list@),
            r@ == seq_join(v.take(i as int), sep@),
        decreases list.len() - i,
    {
        assert(v.take(i as int + 1).drop_last() =~= v.take(i as int));
        if i > 0 {
            r.append(sep);
        } else {
            assert(r@ =~= Seq::<char>::empty());
        }
        r.append(list[i].as_str());
        i = i + 1;
        assert(r@ =~= seq_join(v.take(i as int), sep@));
    }
    assert(v.take(i as int) =~= v);
    r
}

/// The UTF-8 length of a concatenation is the sum of the lengths.
pub proof fn lemma_utf8_len_concat(a: Seq<char>, b: Seq<char>)
    ensures
        encode_utf8(a + b).len() == encode_utf8(a).len() + encode_utf8(b).len(),
    decreases a.len(),
{
    if a.len() > 0 {
        assert((a + b).drop_first() =~= a.drop_first() + b);
        lemma_utf8_len_concat(a.drop_first(), b);
    } else {
        assert(a + b =~= b);
    }
}

/// A non-empty character sequence has a non-empty UTF-8 encoding.
pub proof fn lemma_utf8_len_pos(a: Seq<char>)
    requires
        a.len() > 0,
    ensures
        encode_utf8(a).len() > 0,
{
    let c = a[0] as u32;
    assert(encode_scalar(c).len() > 0);
}

/// `a` sorts strictly before `b` in the order of `str` (lexicographic by
/// code point, which is the byte order of their UTF-8 forms).
pub open spec fn text_lt(a: Seq<char>, b: Seq<char>) -> bool
    decreases a.len(),
{
    if b.len() == 0 {
        false
    } else if a.len() == 0 {
        true
    } else if a[0] != b[0] {
        (a[0] as u32) < (b[0] as u32)
    } else {
        text_lt(a.drop_first(), b.drop_first())
    }
}

/// The string order is irreflexive, asymmetric and total.
pub proof fn lemma_text_lt_total(a: Seq<char>, b: Seq<char>)
    ensures
        !text_lt(a, a),
        text_lt(a, b) ==> !text_lt(b, a),
        a != b ==> text_lt(a, b) || text_lt(b, a),
    decreases a.len(),
{
    if a.len() > 0 {
        lemma_text_lt_total(a.drop_first(), a.drop_first());
    }
    if a.len() > 0 && b.len() > 0 {
        lemma_text_lt_total(a.drop_first(), b.drop_first());
        if a[0] == b[0] && a.drop_first() == b.drop_first() {
            assert(a.len() == b.len());
            assert forall|i: int| 0 <= i < a.len() implies a[i] == b[i] by {
                if i > 0 {
                    assert(a[i] == a.drop_first()[i - 1]);
                    assert(b[i] == b.drop_first()[i - 1]);
                }
            }
            assert(a =~= b);
        }
    }
    if a.len() == 0 && b.len() == 0 {
        assert(a =~= b);
    }
    if a.len() > 0 && b.len() > 0 && a[0] != b[0] {
        vstd::utf8::char_u32_cast(a[0], a[0] as u32);
        vstd::utf8::char_u32_cast(b[0], b[0] as u32);
    }
}

/// The string order is transitive.
pub proof fn lemma_text_lt_trans(a: Seq<char>, b: Seq<char>, c: Seq<char>)
    requires
        text_lt(a, b),
        text_lt(b, c),
    ensures
        text_lt(a, c),
    decreases a.len(),
{
    if a.len() > 0 && a[0] == b[0] && b[0] == c[0] {
        lemma_text_lt_trans(a.drop_first(), b.drop_first(), c.drop_first());
    }
}

/// Whether `a` sorts strictly before `b` (as `a < b` on `str`).
pub fn text_less(a: &str, b: &str) -> (r: bool)
    ensures
        r == text_lt(a@, b@),
{
    let ac = chars_of(a);
    let bc = chars_of(b);
    let mut k: usize = 0;
    assert(ac@.skip(0) =~= ac@);
    assert(bc@.skip(0) =~= bc@);
    while k < ac.len() && k < bc.len() && ac[k] == bc[k]
        invariant
            k <= ac@.len(),
            k <= bc@.len(),
            ac@ == a@,
            bc@ == b@,
            text_lt(a@, b@) == text_lt(ac@.skip(k as int), bc@.skip(k as int)),
        decreases ac.len() - k,
    {
        assert(ac@.skip(k as int).drop_first() =~= ac@.skip(k + 1));
        assert(bc@.skip(k as int).drop_first() =~= bc@.skip(k + 1));
        k = k + 1;
    }
    if k == bc.len() {
        false
    } else if k == ac.len() {
        true
    } else {
        (ac[k] as u32) < (bc[k] as u32)
    }
}

} // verus!
