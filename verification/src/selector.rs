//! Parsing of selector/header text.
//!
//! A header token is either a bare identifier (an implicit classname
//! reference) or a quoted literal.  The literal's text is parsed as an
//! alternating sequence of raw chunks and `.`-prefixed classname
//! references; a literal whose trimmed text starts with `@` is an
//! at-rule header and is kept verbatim as raw text.
//!
//! Each executable function mirrors a spec function exactly, so the
//! result of parsing is a pure function of the input text.

use vstd::prelude::*;

use crate::ast::{Header, HeaderV, Part, PartV, Selector, header_view, part_view};

verus! {

// ---------------------------------------------------------------------------
// Character classes
// ---------------------------------------------------------------------------

/// Characters allowed in a classname: ASCII alphanumerics and `_`.
pub open spec fn is_ident_char(c: char) -> bool {
    ('a' <= c && c <= 'z') || ('A' <= c && c <= 'Z') || ('0' <= c && c <= '9') || c == '_'
}

/// ASCII whitespace.
pub open spec fn is_space(c: char) -> bool {
    c == ' ' || c == '\t' || c == '\n' || c == '\r'
}

/// Decides `is_ident_char`.
pub fn ident_char(c: char) -> (r: bool)
    ensures
        r == is_ident_char(c),
{
    ('a' <= c && c <= 'z') || ('A' <= c && c <= 'Z') || ('0' <= c && c <= '9') || c == '_'
}

/// Decides `is_space`.
pub fn space_char(c: char) -> (r: bool)
    ensures
        r == is_space(c),
{
    c == ' ' || c == '\t' || c == '\n' || c == '\r'
}

// ---------------------------------------------------------------------------
// Runs of characters
// ---------------------------------------------------------------------------

/// The first position at or after `pos` holding a non-identifier
/// character (or the end of the text).
pub open spec fn ident_run_end(s: Seq<char>, pos: nat) -> nat
    decreases s.len() - pos,
{
    if pos >= s.len() {
        pos
    } else if is_ident_char(s[pos as int]) {
        ident_run_end(s, pos + 1)
    } else {
        pos
    }
}

/// The first position at or after `pos` holding a `.` (or the end of
/// the text).
pub open spec fn raw_run_end(s: Seq<char>, pos: nat) -> nat
    decreases s.len() - pos,
{
    if pos >= s.len() {
        pos
    } else if s[pos as int] == '.' {
        pos
    } else {
        raw_run_end(s, pos + 1)
    }
}

pub proof fn lemma_ident_run_end_bounds(s: Seq<char>, pos: nat)
    requires
        pos <= s.len(),
    ensures
        pos <= ident_run_end(s, pos) <= s.len(),
    decreases s.len() - pos,
{
    if pos < s.len() && is_ident_char(s[pos as int]) {
        lemma_ident_run_end_bounds(s, pos + 1);
    }
}

pub proof fn lemma_raw_run_end_bounds(s: Seq<char>, pos: nat)
    requires
        pos <= s.len(),
    ensures
        pos <= raw_run_end(s, pos) <= s.len(),
    decreases s.len() - pos,
{
    if pos < s.len() && s[pos as int] != '.' {
        lemma_raw_run_end_bounds(s, pos + 1);
    }
}

pub fn find_ident_run_end(t: &Vec<char>, pos: usize) -> (e: usize)
    requires
        pos <= t@.len(),
    ensures
        e as nat == ident_run_end(t@, pos as nat),
        pos <= e <= t@.len(),
{
    let mut i: usize = pos;
    while i < t.len() && ident_char(t[i])
        invariant
            pos <= i <= t@.len(),
            ident_run_end(t@, pos as nat) == ident_run_end(t@, i as nat),
        decreases t@.len() - i,
    {
        i += 1;
    }
    i
}

pub fn find_raw_run_end(t: &Vec<char>, pos: usize) -> (e: usize)
    requires
        pos <= t@.len(),
    ensures
        e as nat == raw_run_end(t@, pos as nat),
        pos <= e <= t@.len(),
{
    let mut i: usize = pos;
    while i < t.len() && t[i] != '.'
        invariant
            pos <= i <= t@.len(),
            raw_run_end(t@, pos as nat) == raw_run_end(t@, i as nat),
        decreases t@.len() - i,
    {
        i += 1;
    }
    i
}

// ---------------------------------------------------------------------------
// Trimming
// ---------------------------------------------------------------------------

/// Length of the run of whitespace at the start of the text.
pub open spec fn leading_ws(s: Seq<char>) -> nat
    decreases s.len(),
{
    if s.len() == 0 {
        0
    } else if is_space(s[0]) {
        1 + leading_ws(s.skip(1))
    } else {
        0
    }
}

/// Length of the run of whitespace at the end of the text.
pub open spec fn trailing_ws(s: Seq<char>) -> nat
    decreases s.len(),
{
    if s.len() == 0 {
        0
    } else if is_space(s.last()) {
        1 + trailing_ws(s.take(s.len() - 1))
    } else {
        0
    }
}

/// The text with leading and trailing whitespace removed.
pub open spec fn spec_trim(s: Seq<char>) -> Seq<char> {
    if leading_ws(s) == s.len() {
        Seq::empty()
    } else {
        s.subrange(leading_ws(s) as int, s.len() - trailing_ws(s))
    }
}

proof fn lemma_leading_ws_bounds(s: Seq<char>)
    ensures
        leading_ws(s) <= s.len(),
        forall|j: int| 0 <= j < leading_ws(s) ==> is_space(s[j]),
        leading_ws(s) < s.len() ==> !is_space(s[leading_ws(s) as int]),
    decreases s.len(),
{
    if s.len() > 0 && is_space(s[0]) {
        lemma_leading_ws_bounds(s.skip(1));
        assert forall|j: int| 0 <= j < leading_ws(s) implies is_space(s[j]) by {
            if j > 0 {
                assert(s[j] == s.skip(1)[j - 1]);
            }
        }
        if leading_ws(s) < s.len() {
            assert(s[leading_ws(s) as int] == s.skip(1)[leading_ws(s.skip(1)) as int]);
        }
    }
}

proof fn lemma_trailing_ws_bounds(s: Seq<char>)
    ensures
        trailing_ws(s) <= s.len(),
        forall|j: int| s.len() - trailing_ws(s) <= j < s.len() ==> is_space(s[j]),
        trailing_ws(s) < s.len() ==> !is_space(s[s.len() - trailing_ws(s) - 1]),
    decreases s.len(),
{
    if s.len() > 0 && is_space(s.last()) {
        let t = s.take(s.len() - 1);
        lemma_trailing_ws_bounds(t);
        assert forall|j: int| s.len() - trailing_ws(s) <= j < s.len() implies is_space(s[j]) by {
            if j < s.len() - 1 {
                assert(s[j] == t[j]);
            }
        }
        if trailing_ws(s) < s.len() {
            assert(s[s.len() - trailing_ws(s) - 1] == t[t.len() - trailing_ws(t) - 1]);
        }
    }
}

/// When the text is not all whitespace, the trailing run stops before
/// the first non-space character.
proof fn lemma_trim_ranges(s: Seq<char>)
    requires
        leading_ws(s) < s.len(),
    ensures
        leading_ws(s) + trailing_ws(s) < s.len(),
{
    lemma_leading_ws_bounds(s);
    lemma_trailing_ws_bounds(s);
    if s.len() - trailing_ws(s) <= leading_ws(s) {
        // the non-space character at `leading_ws(s)` would lie inside
        // the trailing whitespace run
        assert(is_space(s[leading_ws(s) as int]));
        assert(false);
    }
}

/// Trimming never lengthens the text.
pub proof fn lemma_trim_len(s: Seq<char>)
    ensures
        spec_trim(s).len() <= s.len(),
        s.len() == 0 ==> spec_trim(s).len() == 0,
{
    lemma_leading_ws_bounds(s);
    if leading_ws(s) < s.len() {
        lemma_trim_ranges(s);
    }
}

/// Copies the trimmed text.
pub fn trim_text(src: &Vec<char>) -> (t: Vec<char>)
    ensures
        t@ == spec_trim(src@),
{
    proof {
        lemma_leading_ws_bounds(src@);
        lemma_trailing_ws_bounds(src@);
    }
    let n = src.len();
    let mut start: usize = 0;
    proof {
        assert(src@.skip(0) =~= src@);
    }
    while start < n && space_char(src[start])
        invariant
            0 <= start <= n,
            n == src@.len(),
            leading_ws(src@) == start + leading_ws(src@.skip(start as int)),
        decreases n - start,
    {
        proof {
            let rest = src@.skip(start as int);
            assert(rest[0] == src@[start as int]);
            assert(rest.skip(1) =~= src@.skip(start + 1));
        }
        start += 1;
    }
    proof {
        let rest = src@.skip(start as int);
        if start < n {
            assert(rest[0] == src@[start as int]);
            assert(leading_ws(rest) == 0);
        } else {
            assert(rest.len() == 0);
        }
        assert(leading_ws(src@) == start);
    }
    if start == n {
        let empty: Vec<char> = Vec::new();
        proof {
            assert(spec_trim(src@) =~= Seq::<char>::empty());
        }
        return empty;
    }
    proof {
        lemma_trim_ranges(src@);
        assert(src@.take(n as int) =~= src@);
    }
    let mut end: usize = n;
    while end > start && space_char(src[end - 1])
        invariant
            start <= end <= n,
            n == src@.len(),
            start == leading_ws(src@),
            start < n,
            trailing_ws(src@) == (n - end) + trailing_ws(src@.take(end as int)),
            n - trailing_ws(src@) >= start + 1 ==> end >= n - trailing_ws(src@),
        decreases end,
    {
        proof {
            let cur = src@.take(end as int);
            assert(cur.last() == src@[end - 1]);
            assert(cur.take(cur.len() - 1) =~= src@.take(end - 1));
            lemma_trailing_ws_bounds(src@);
        }
        end -= 1;
    }
    proof {
        let cur = src@.take(end as int);
        if end > start {
            assert(cur.last() == src@[end - 1]);
            assert(trailing_ws(cur) == 0);
        } else {
            // cannot happen: the character at `start` is not a space
            lemma_trailing_ws_bounds(src@);
            assert(end == start);
            lemma_leading_ws_bounds(src@);
            assert(trailing_ws(src@) == (n - start) + trailing_ws(src@.take(start as int)));
            assert(trailing_ws(src@) >= n - start);
            lemma_trim_ranges(src@);
            assert(false);
        }
        assert(trailing_ws(src@) == n - end);
    }
    let mut t: Vec<char> = Vec::new();
    let mut i: usize = start;
    while i < end
        invariant
            start <= i <= end <= n,
            n == src@.len(),
            t@ == src@.subrange(start as int, i as int),
        decreases end - i,
    {
        t.push(src[i]);
        proof {
            assert(t@ =~= src@.subrange(start as int, i + 1));
        }
        i += 1;
    }
    proof {
        assert(t@ =~= spec_trim(src@));
    }
    t
}

// ---------------------------------------------------------------------------
// Parts
// ---------------------------------------------------------------------------

/// Parses one selector part at `pos`: a `.`-prefixed classname made of
/// identifier characters (which must not be followed by `-`), or a raw
/// chunk running up to the next `.`.  Returns the part and the
/// position after it.
pub open spec fn spec_parse_part(s: Seq<char>, pos: nat) -> Option<(PartV, nat)> {
    if pos >= s.len() {
        None
    } else if s[pos as int] == '.' {
        spec_parse_classname(s, pos)
    } else {
        let e = raw_run_end(s, pos);
        Some((PartV::Raw(s.subrange(pos as int, e as int)), e))
    }
}

/// Parses a `.`-prefixed classname reference at `pos`.
pub open spec fn spec_parse_classname(s: Seq<char>, pos: nat) -> Option<(PartV, nat)> {
    if pos >= s.len() || s[pos as int] != '.' {
        None
    } else {
        let e = ident_run_end(s, pos + 1);
        if e == pos + 1 {
            None
        } else if e < s.len() && s[e as int] == '-' {
            // a classname directly followed by `-` is ambiguous
            None
        } else {
            Some((PartV::ClassName(s.subrange(pos as int + 1, e as int)), e))
        }
    }
}

/// A successfully parsed part consumes at least one character and
/// stays within the text.
pub proof fn lemma_parse_part_advances(s: Seq<char>, pos: nat)
    requires
        spec_parse_part(s, pos) is Some,
    ensures
        pos < spec_parse_part(s, pos)->Some_0.1 <= s.len(),
{
    if pos < s.len() && s[pos as int] == '.' {
        lemma_ident_run_end_bounds(s, pos + 1);
    } else if pos < s.len() {
        lemma_raw_run_end_bounds(s, pos + 1);
    }
}

/// Parses the run of parts from `pos` to the end of the text.  At
/// least one part is required.
pub open spec fn spec_parse_parts(s: Seq<char>, pos: nat) -> Option<Seq<PartV>>
    decreases s.len() - pos,
{
    match spec_parse_part(s, pos) {
        None => None,
        Some((p, e)) => {
            if e >= s.len() {
                Some(seq![p])
            } else if e > pos {
                match spec_parse_parts(s, e) {
                    None => None,
                    Some(ps) => Some(seq![p] + ps),
                }
            } else {
                None
            }
        },
    }
}

/// Parses a classname reference (exec mirror of
/// `spec_parse_classname`).  Returns the name and the position after
/// it.
pub fn parse_classname(t: &Vec<char>, pos: usize) -> (r: Option<(Vec<char>, usize)>)
    requires
        pos < t@.len(),
        t@[pos as int] == '.',
    ensures
        match r {
            Some((name, e)) => spec_parse_classname(t@, pos as nat) == Some(
                (PartV::ClassName(name@), e as nat),
            ) && pos < e <= t@.len(),
            None => spec_parse_classname(t@, pos as nat) is None,
        },
{
    let n = t.len();
    let e = find_ident_run_end(t, pos + 1);
    if e == pos + 1 {
        return None;
    }
    if e < t.len() && t[e] == '-' {
        return None;
    }
    let mut name: Vec<char> = Vec::new();
    let mut i: usize = pos + 1;
    while i < e
        invariant
            pos + 1 <= i <= e <= t@.len(),
            name@ == t@.subrange(pos + 1, i as int),
        decreases e - i,
    {
        name.push(t[i]);
        proof {
            assert(name@ =~= t@.subrange(pos + 1, i + 1));
        }
        i += 1;
    }
    Some((name, e))
}

/// Parses one part (exec mirror of `spec_parse_part`).
pub fn parse_part(t: &Vec<char>, pos: usize) -> (r: Option<(Part, usize)>)
    requires
        pos < t@.len(),
    ensures
        match r {
            Some((p, e)) => spec_parse_part(t@, pos as nat) == Some((part_view(p), e as nat))
                && pos < e <= t@.len(),
            None => spec_parse_part(t@, pos as nat) is None,
        },
{
    if t[pos] == '.' {
        match parse_classname(t, pos) {
            Some((name, e)) => Some((Part::ClassName(name), e)),
            None => None,
        }
    } else {
        let e = find_raw_run_end(t, pos);
        let mut chunk: Vec<char> = Vec::new();
        let mut i: usize = pos;
        while i < e
            invariant
                pos <= i <= e <= t@.len(),
                chunk@ == t@.subrange(pos as int, i as int),
            decreases e - i,
        {
            chunk.push(t[i]);
            proof {
                assert(chunk@ =~= t@.subrange(pos as int, i + 1));
            }
            i += 1;
        }
        proof {
            lemma_raw_run_end_bounds(t@, (pos + 1) as nat);
        }
        Some((Part::Raw(chunk), e))
    }
}

// ---------------------------------------------------------------------------
// Whole selectors
// ---------------------------------------------------------------------------

/// Parses a header from selector text.  The text is trimmed; if it
/// then starts with `@` it is an at-rule header kept verbatim as raw
/// text, otherwise it must be a non-empty alternation of raw chunks
/// and classname references.
pub open spec fn spec_parse_selector(s: Seq<char>, loc: nat) -> Option<HeaderV> {
    let t = spec_trim(s);
    if t.len() > 0 && t[0] == '@' {
        Some(HeaderV { parts: seq![PartV::Raw(t)], loc, at_rule: true })
    } else {
        match spec_parse_parts(t, 0) {
            None => None,
            Some(ps) => Some(HeaderV { parts: ps, loc, at_rule: false }),
        }
    }
}

/// Parses a header from selector text (exec mirror of
/// `spec_parse_selector`); `loc` is the character offset of the token
/// in the enclosing source, kept for diagnostics.
pub fn parse(src: &Vec<char>, loc: usize) -> (r: Option<Header>)
    ensures
        match r {
            Some(h) => spec_parse_selector(src@, loc as nat) == Some(header_view(h)),
            None => spec_parse_selector(src@, loc as nat) is None,
        },
{
    let t = trim_text(src);
    if t.len() > 0 && t[0] == '@' {
        let mut parts: Vec<Part> = Vec::new();
        parts.push(Part::Raw(t));
        let h = Header { parts, loc, at_rule: true };
        proof {
            let hv = header_view(h);
            let sv = spec_parse_selector(src@, loc as nat)->Some_0;
            assert(hv.parts =~~= sv.parts);
            assert(hv =~~= sv);
        }
        return Some(h);
    }
    let mut parts: Vec<Part> = Vec::new();
    let ghost tv = t@;
    if t.len() == 0 {
        return None;
    }
    let mut pos: usize = 0;
    proof {
        assert(parts@.map_values(|p: Part| part_view(p)) =~= Seq::<PartV>::empty());
        if spec_parse_parts(tv, 0) is Some {
            let ps = spec_parse_parts(tv, 0)->Some_0;
            assert(Seq::<PartV>::empty() + ps =~= ps);
        }
    }
    loop
        invariant
            0 <= pos < tv.len(),
            tv == t@,
            tv == spec_trim(src@),
            tv.len() > 0,
            tv[0] != '@',
            spec_parse_parts(tv, 0) == (match spec_parse_parts(tv, pos as nat) {
                None => None::<Seq<PartV>>,
                Some(ps) => Some(parts@.map_values(|p: Part| part_view(p)) + ps),
            }),
        decreases tv.len() - pos,
    {
        match parse_part(&t, pos) {
            None => {
                return None;
            },
            Some((p, e)) => {
                let ghost acc0 = parts@.map_values(|q: Part| part_view(q));
                parts.push(p);
                let ghost acc1 = parts@.map_values(|q: Part| part_view(q));
                proof {
                    assert(acc1 =~~= acc0 + seq![part_view(p)]);
                }
                if e >= t.len() {
                    proof {
                        assert(spec_parse_parts(tv, pos as nat) == Some(seq![part_view(p)]));
                        assert(acc0 + seq![part_view(p)] =~~= acc1);
                        assert(spec_parse_parts(tv, 0) == Some(acc1));
                    }
                    let h = Header { parts, loc, at_rule: false };
                    proof {
                        let hv = header_view(h);
                        let sv = spec_parse_selector(src@, loc as nat)->Some_0;
                        assert(hv =~~= sv);
                    }
                    return Some(h);
                }
                proof {
                    assert(spec_parse_parts(tv, pos as nat) == (
                    match spec_parse_parts(tv, e as nat) {
                        None => None::<Seq<PartV>>,
                        Some(ps) => Some(seq![part_view(p)] + ps),
                    }));
                    if spec_parse_parts(tv, e as nat) is Some {
                        let ps = spec_parse_parts(tv, e as nat)->Some_0;
                        assert(acc0 + (seq![part_view(p)] + ps) =~~= acc1 + ps);
                    }
                }
                pos = e;
            },
        }
    }
}

impl Selector {
    /// Parses a selector (a header) from text.
    pub fn parse(src: &Vec<char>, loc: usize) -> (r: Option<Selector>)
        ensures
            match r {
                Some(sel) => spec_parse_selector(src@, loc as nat) == Some(
                    header_view(sel.header),
                ),
                None => spec_parse_selector(src@, loc as nat) is None,
            },
    {
        match parse(src, loc) {
            Some(header) => Some(Selector { header }),
            None => None,
        }
    }
}

} // verus!
