//! Parsing of style source text.
//!
//! The grammar is `signature? '{' ruleList '}'` with
//! `signature = '(' ident ':' ident ')' '->' ident`,
//! `rule = header '{' body '}'`, `header = ident | stringLiteral`,
//! and a body that is a comma-terminated list of nested rules (under
//! an at-rule header) or of `property: value` entries.
//!
//! Every executable parser mirrors a spec function, so the parse is a
//! pure function of the source text.  Parse errors carry the
//! character offset at which parsing stopped.

use vstd::prelude::*;

use crate::ast::{
    Entry, EntryV, Header, HeaderV, Part, PartV, PropertyValue, PropertyValueV, Rule,
    RuleBody, RuleBodyV, RuleList, RuleV, Signature, SignatureV, Style, StyleV, entry_view,
    header_view, rule_view, rules_view, signature_view, style_view, value_view,
};
use crate::selector::{is_space, space_char, spec_parse_selector};

verus! {

// ---------------------------------------------------------------------------
// Errors
// ---------------------------------------------------------------------------

/// What went wrong during a parse.
#[derive(Debug, Clone, Copy, PartialEq, Eq)]
pub enum ParseErrorKind {
    /// A selector literal that does not follow the selector grammar.
    BadSelector,
    /// An identifier was expected.
    ExpectedIdent,
    /// A `:` was expected.
    ExpectedColon,
    /// A `{` was expected.
    ExpectedOpenBrace,
    /// A `}` was expected.
    ExpectedCloseBrace,
    /// A `)` was expected.
    ExpectedCloseParen,
    /// A `->` was expected.
    ExpectedArrow,
    /// A string literal without a closing quote.
    UnterminatedString,
    /// An entry value was expected.
    MissingValue,
    /// Text remains after the closing brace of the style block.
    TrailingInput,
}

/// A terminal parse failure: the character offset at which parsing
/// stopped, and the reason.
#[derive(Debug, Clone, Copy, PartialEq, Eq)]
pub struct ParseError {
    pub loc: usize,
    pub kind: ParseErrorKind,
}

// ---------------------------------------------------------------------------
// Low-level scanning
// ---------------------------------------------------------------------------

/// The first non-whitespace position at or after `pos`.
pub open spec fn ws_end(s: Seq<char>, pos: nat) -> nat
    decreases s.len() - pos,
{
    if pos >= s.len() {
        pos
    } else if is_space(s[pos as int]) {
        ws_end(s, pos + 1)
    } else {
        pos
    }
}

pub proof fn lemma_ws_end_bounds(s: Seq<char>, pos: nat)
    requires
        pos <= s.len(),
    ensures
        pos <= ws_end(s, pos) <= s.len(),
    decreases s.len() - pos,
{
    if pos < s.len() && is_space(s[pos as int]) {
        lemma_ws_end_bounds(s, pos + 1);
    }
}

/// Skips whitespace (exec mirror of `ws_end`).
pub fn skip_ws(t: &Vec<char>, pos: usize) -> (e: usize)
    requires
        pos <= t@.len(),
    ensures
        e as nat == ws_end(t@, pos as nat),
        pos <= e <= t@.len(),
{
    let mut i: usize = pos;
    while i < t.len() && space_char(t[i])
        invariant
            pos <= i <= t@.len(),
            ws_end(t@, pos as nat) == ws_end(t@, i as nat),
        decreases t@.len() - i,
    {
        i += 1;
    }
    i
}

/// Whether a character may start an identifier.
pub open spec fn is_ident_start(c: char) -> bool {
    ('a' <= c && c <= 'z') || ('A' <= c && c <= 'Z') || c == '_'
}

/// Decides `is_ident_start`.
pub fn ident_start_char(c: char) -> (r: bool)
    ensures
        r == is_ident_start(c),
{
    ('a' <= c && c <= 'z') || ('A' <= c && c <= 'Z') || c == '_'
}

/// Parses an identifier at `pos` (no whitespace skipping): a letter
/// or `_` followed by identifier characters.
pub open spec fn spec_parse_ident(s: Seq<char>, pos: nat) -> Option<(Seq<char>, nat)> {
    if pos < s.len() && is_ident_start(s[pos as int]) {
        let e = crate::selector::ident_run_end(s, pos + 1);
        Some((s.subrange(pos as int, e as int), e))
    } else {
        None
    }
}

pub proof fn lemma_parse_ident_advances(s: Seq<char>, pos: nat)
    requires
        pos <= s.len(),
        spec_parse_ident(s, pos) is Some,
    ensures
        pos < spec_parse_ident(s, pos)->Some_0.1 <= s.len(),
        spec_parse_ident(s, pos)->Some_0.0.len() >= 1,
{
    crate::selector::lemma_ident_run_end_bounds(s, pos + 1);
}

/// Parses an identifier (exec mirror of `spec_parse_ident`).
pub fn parse_ident(t: &Vec<char>, pos: usize) -> (r: Option<(Vec<char>, usize)>)
    requires
        pos <= t@.len(),
    ensures
        match r {
            Some((id, e)) => spec_parse_ident(t@, pos as nat) == Some((id@, e as nat)) && pos
                < e <= t@.len(),
            None => spec_parse_ident(t@, pos as nat) is None,
        },
{
    let n = t.len();
    if pos >= n || !ident_start_char(t[pos]) {
        return None;
    }
    let e = crate::selector::find_ident_run_end(t, pos + 1);
    let mut id: Vec<char> = Vec::new();
    let mut i: usize = pos;
    while i < e
        invariant
            pos <= i <= e <= t@.len(),
            id@ == t@.subrange(pos as int, i as int),
        decreases e - i,
    {
        id.push(t[i]);
        proof {
            assert(id@ =~= t@.subrange(pos as int, i + 1));
        }
        i += 1;
    }
    Some((id, e))
}

/// The position of the first `"` at or after `pos`.
pub open spec fn quote_end(s: Seq<char>, pos: nat) -> nat
    decreases s.len() - pos,
{
    if pos >= s.len() {
        pos
    } else if s[pos as int] == '"' {
        pos
    } else {
        quote_end(s, pos + 1)
    }
}

pub proof fn lemma_quote_end_bounds(s: Seq<char>, pos: nat)
    requires
        pos <= s.len(),
    ensures
        pos <= quote_end(s, pos) <= s.len(),
    decreases s.len() - pos,
{
    if pos < s.len() && s[pos as int] != '"' {
        lemma_quote_end_bounds(s, pos + 1);
    }
}

/// Parses a string literal at `pos`: a `"` up to the next `"`.  The
/// result is the text between the quotes and the position after the
/// closing quote.
pub open spec fn spec_parse_string(s: Seq<char>, pos: nat) -> Option<(Seq<char>, nat)> {
    if pos < s.len() && s[pos as int] == '"' {
        let q = quote_end(s, pos + 1);
        if q < s.len() {
            Some((s.subrange(pos as int + 1, q as int), q + 1))
        } else {
            None
        }
    } else {
        None
    }
}

pub proof fn lemma_parse_string_advances(s: Seq<char>, pos: nat)
    requires
        pos <= s.len(),
        spec_parse_string(s, pos) is Some,
    ensures
        pos < spec_parse_string(s, pos)->Some_0.1 <= s.len(),
{
    lemma_quote_end_bounds(s, pos + 1);
}

/// Parses a string literal (exec mirror of `spec_parse_string`).
pub fn parse_string(t: &Vec<char>, pos: usize) -> (r: Option<(Vec<char>, usize)>)
    requires
        pos < t@.len(),
        t@[pos as int] == '"',
    ensures
        match r {
            Some((content, e)) => spec_parse_string(t@, pos as nat) == Some(
                (content@, e as nat),
            ) && pos < e <= t@.len(),
            None => spec_parse_string(t@, pos as nat) is None,
        },
{
    let n = t.len();
    let mut q: usize = pos + 1;
    while q < n && t[q] != '"'
        invariant
            pos + 1 <= q <= n,
            n == t@.len(),
            quote_end(t@, (pos + 1) as nat) == quote_end(t@, q as nat),
        decreases n - q,
    {
        q += 1;
    }
    if q >= n {
        return None;
    }
    let mut content: Vec<char> = Vec::new();
    let mut i: usize = pos + 1;
    while i < q
        invariant
            pos + 1 <= i <= q <= t@.len(),
            content@ == t@.subrange(pos as int + 1, i as int),
        decreases q - i,
    {
        content.push(t[i]);
        proof {
            assert(content@ =~= t@.subrange(pos as int + 1, i + 1));
        }
        i += 1;
    }
    Some((content, q + 1))
}

// ---------------------------------------------------------------------------
// Values
// ---------------------------------------------------------------------------

/// Scans to the end of an opaque value expression: the first `,` or
/// closing bracket at nesting depth zero, skipping over string
/// literals and bracketed groups.
pub open spec fn value_end(s: Seq<char>, pos: nat, depth: nat, in_str: bool) -> nat
    decreases s.len() - pos,
{
    if pos >= s.len() {
        pos
    } else if in_str {
        if s[pos as int] == '"' {
            value_end(s, pos + 1, depth, false)
        } else {
            value_end(s, pos + 1, depth, true)
        }
    } else if s[pos as int] == '"' {
        value_end(s, pos + 1, depth, true)
    } else if s[pos as int] == '(' || s[pos as int] == '[' || s[pos as int] == '{' {
        value_end(s, pos + 1, depth + 1, false)
    } else if s[pos as int] == ')' || s[pos as int] == ']' || s[pos as int] == '}' {
        if depth == 0 {
            pos
        } else {
            value_end(s, pos + 1, (depth - 1) as nat, false)
        }
    } else if s[pos as int] == ',' && depth == 0 {
        pos
    } else {
        value_end(s, pos + 1, depth, false)
    }
}

pub proof fn lemma_value_end_bounds(s: Seq<char>, pos: nat, depth: nat, in_str: bool)
    requires
        pos <= s.len(),
    ensures
        pos <= value_end(s, pos, depth, in_str) <= s.len(),
    decreases s.len() - pos,
{
    if pos < s.len() {
        if in_str {
            if s[pos as int] == '"' {
                lemma_value_end_bounds(s, pos + 1, depth, false);
            } else {
                lemma_value_end_bounds(s, pos + 1, depth, true);
            }
        } else if s[pos as int] == '"' {
            lemma_value_end_bounds(s, pos + 1, depth, true);
        } else if s[pos as int] == '(' || s[pos as int] == '[' || s[pos as int] == '{' {
            lemma_value_end_bounds(s, pos + 1, depth + 1, false);
        } else if s[pos as int] == ')' || s[pos as int] == ']' || s[pos as int] == '}' {
            if depth != 0 {
                lemma_value_end_bounds(s, pos + 1, (depth - 1) as nat, false);
            }
        } else if !(s[pos as int] == ',' && depth == 0) {
            lemma_value_end_bounds(s, pos + 1, depth, false);
        }
    }
}

/// Finds the end of a value expression (exec mirror of `value_end`
/// started with depth zero, outside a string).
pub fn find_value_end(t: &Vec<char>, pos: usize) -> (e: usize)
    requires
        pos <= t@.len(),
    ensures
        e as nat == value_end(t@, pos as nat, 0, false),
        pos <= e <= t@.len(),
{
    let n = t.len();
    let mut i: usize = pos;
    let mut depth: usize = 0;
    let mut in_str = false;
    loop
        invariant
            pos <= i <= n,
            n == t@.len(),
            depth <= i,
            value_end(t@, pos as nat, 0, false) == value_end(
                t@,
                i as nat,
                depth as nat,
                in_str,
            ),
        decreases n - i,
    {
        if i >= n {
            return i;
        }
        let c = t[i];
        if in_str {
            if c == '"' {
                in_str = false;
            }
        } else if c == '"' {
            in_str = true;
        } else if c == '(' || c == '[' || c == '{' {
            depth += 1;
        } else if c == ')' || c == ']' || c == '}' {
            if depth == 0 {
                return i;
            }
            depth -= 1;
        } else if c == ',' && depth == 0 {
            return i;
        }
        i += 1;
    }
}

/// The value of an entry: a quoted literal followed by `,`, `}` or
/// the end of the text becomes `Lit`; anything else is kept as the
/// raw (trimmed) expression text, `Expr`.  An empty value fails.
pub open spec fn spec_parse_value(s: Seq<char>, pos: nat) -> Option<(PropertyValueV, nat)> {
    if pos < s.len() && s[pos as int] == '"' {
        match spec_parse_string(s, pos) {
            None => None,
            Some((content, q)) => {
                let q1 = ws_end(s, q);
                if q1 >= s.len() || s[q1 as int] == ',' || s[q1 as int] == '}' {
                    Some((PropertyValueV::Lit(content), q))
                } else {
                    spec_parse_value_expr(s, pos)
                }
            },
        }
    } else {
        spec_parse_value_expr(s, pos)
    }
}

/// An opaque expression value: the raw text up to the end of the
/// value, with surrounding whitespace removed.
pub open spec fn spec_parse_value_expr(s: Seq<char>, pos: nat) -> Option<(
    PropertyValueV,
    nat,
)> {
    let e = value_end(s, pos, 0, false);
    let raw = s.subrange(pos as int, e as int);
    let txt = crate::selector::spec_trim(raw);
    if txt.len() == 0 {
        None
    } else {
        Some((PropertyValueV::Expr(txt), e))
    }
}

pub proof fn lemma_parse_value_advances(s: Seq<char>, pos: nat)
    requires
        pos <= s.len(),
        spec_parse_value(s, pos) is Some,
    ensures
        pos < spec_parse_value(s, pos)->Some_0.1 <= s.len(),
{
    lemma_value_end_bounds(s, pos, 0, false);
    if pos < s.len() && s[pos as int] == '"' && spec_parse_string(s, pos) is Some {
        lemma_parse_string_advances(s, pos);
    }
    if spec_parse_value(s, pos) == spec_parse_value_expr(s, pos) || !(pos < s.len() && s[
        pos as int
    ] == '"') {
        let e = value_end(s, pos, 0, false);
        let raw = s.subrange(pos as int, e as int);
        if spec_parse_value_expr(s, pos) is Some {
            crate::selector::lemma_trim_len(raw);
            if e == pos {
                assert(raw.len() == 0);
            }
        }
    }
}

/// Parses an entry value (exec mirror of `spec_parse_value`).
pub fn parse_value(t: &Vec<char>, pos: usize) -> (r: Result<(PropertyValue, usize), ParseError>)
    requires
        pos <= t@.len(),
    ensures
        match r {
            Ok((v, e)) => spec_parse_value(t@, pos as nat) == Some((value_view(v), e as nat))
                && pos < e <= t@.len(),
            Err(_) => spec_parse_value(t@, pos as nat) is None,
        },
{
    let n = t.len();
    if pos < n && t[pos] == '"' {
        match parse_string(t, pos) {
            None => {
                return Err(ParseError { loc: pos, kind: ParseErrorKind::UnterminatedString });
            },
            Some((content, q)) => {
                let q1 = skip_ws(t, q);
                if q1 >= n || t[q1] == ',' || t[q1] == '}' {
                    return Ok((PropertyValue::Lit(content), q));
                }
            },
        }
    }
    let e = find_value_end(t, pos);
    let mut raw: Vec<char> = Vec::new();
    let mut i: usize = pos;
    while i < e
        invariant
            pos <= i <= e <= t@.len(),
            raw@ == t@.subrange(pos as int, i as int),
        decreases e - i,
    {
        raw.push(t[i]);
        proof {
            assert(raw@ =~= t@.subrange(pos as int, i + 1));
        }
        i += 1;
    }
    let txt = crate::selector::trim_text(&raw);
    if txt.len() == 0 {
        return Err(ParseError { loc: pos, kind: ParseErrorKind::MissingValue });
    }
    proof {
        crate::selector::lemma_trim_len(raw@);
    }
    Ok((PropertyValue::Expr(txt), e))
}

// ---------------------------------------------------------------------------
// Entries
// ---------------------------------------------------------------------------

/// Replaces `_` with `-`; bare-identifier properties are written with
/// underscores in the source but mean hyphenated CSS properties.
pub open spec fn hyphenate(s: Seq<char>) -> Seq<char> {
    s.map_values(|c: char| if c == '_' { '-' } else { c })
}

/// Parses one `property: value` entry at `pos` (no leading
/// whitespace).  A quoted property is used verbatim; a bare
/// identifier has its underscores replaced by hyphens.
pub open spec fn spec_parse_entry(s: Seq<char>, pos: nat) -> Option<(EntryV, nat)> {
    let prop = if pos < s.len() && s[pos as int] == '"' {
        spec_parse_string(s, pos)
    } else {
        match spec_parse_ident(s, pos) {
            None => None,
            Some((id, q)) => Some((hyphenate(id), q)),
        }
    };
    match prop {
        None => None,
        Some((property, p1)) => {
            let p2 = ws_end(s, p1);
            if p2 < s.len() && s[p2 as int] == ':' {
                let p3 = ws_end(s, p2 + 1);
                match spec_parse_value(s, p3) {
                    None => None,
                    Some((v, p4)) => Some((EntryV { property, value: v }, p4)),
                }
            } else {
                None
            }
        },
    }
}

pub proof fn lemma_parse_entry_advances(s: Seq<char>, pos: nat)
    requires
        pos <= s.len(),
        spec_parse_entry(s, pos) is Some,
    ensures
        pos < spec_parse_entry(s, pos)->Some_0.1 <= s.len(),
{
    if pos < s.len() && s[pos as int] == '"' {
        lemma_parse_string_advances(s, pos);
        let (_, p1) = spec_parse_string(s, pos)->Some_0;
        lemma_ws_end_bounds(s, p1);
        let p2 = ws_end(s, p1);
        lemma_ws_end_bounds(s, (p2 + 1) as nat);
        lemma_parse_value_advances(s, ws_end(s, (p2 + 1) as nat));
    } else {
        lemma_parse_ident_advances(s, pos);
        let (_, p1) = spec_parse_ident(s, pos)->Some_0;
        lemma_ws_end_bounds(s, p1);
        let p2 = ws_end(s, p1);
        lemma_ws_end_bounds(s, (p2 + 1) as nat);
        lemma_parse_value_advances(s, ws_end(s, (p2 + 1) as nat));
    }
}

impl Entry {
    /// Parses one entry (exec mirror of `spec_parse_entry`).
    pub fn parse(t: &Vec<char>, pos: usize) -> (r: Result<(Entry, usize), ParseError>)
        requires
            pos <= t@.len(),
        ensures
            match r {
                Ok((e, q)) => spec_parse_entry(t@, pos as nat) == Some(
                    (entry_view(e), q as nat),
                ) && pos < q <= t@.len(),
                Err(_) => spec_parse_entry(t@, pos as nat) is None,
            },
    {
        let n = t.len();
        let property: Vec<char>;
        let p1: usize;
        if pos < n && t[pos] == '"' {
            match parse_string(t, pos) {
                None => {
                    return Err(
                        ParseError { loc: pos, kind: ParseErrorKind::UnterminatedString },
                    );
                },
                Some((content, q)) => {
                    property = content;
                    p1 = q;
                },
            }
        } else {
            match parse_ident(t, pos) {
                None => {
                    return Err(ParseError { loc: pos, kind: ParseErrorKind::ExpectedIdent });
                },
                Some((id, q)) => {
                    let mut mapped: Vec<char> = Vec::new();
                    let mut i: usize = 0;
                    while i < id.len()
                        invariant
                            0 <= i <= id@.len(),
                            mapped@ == hyphenate(id@.take(i as int)),
                        decreases id@.len() - i,
                    {
                        let c = id[i];
                        if c == '_' {
                            mapped.push('-');
                        } else {
                            mapped.push(c);
                        }
                        proof {
                            assert(mapped@ =~= hyphenate(id@.take(i + 1)));
                        }
                        i += 1;
                    }
                    proof {
                        assert(id@.take(id@.len() as int) =~= id@);
                    }
                    property = mapped;
                    p1 = q;
                },
            }
        }
        let p2 = skip_ws(t, p1);
        if !(p2 < n && t[p2] == ':') {
            return Err(ParseError { loc: p2, kind: ParseErrorKind::ExpectedColon });
        }
        let p3 = skip_ws(t, p2 + 1);
        match parse_value(t, p3) {
            Err(err) => Err(err),
            Ok((v, p4)) => Ok((Entry { property, value: v }, p4)),
        }
    }
}

/// Parses a comma-terminated entry list running up to a closing `}`
/// (which is not consumed) or the end of the text.  A trailing comma
/// is allowed.
pub open spec fn spec_parse_entry_list(s: Seq<char>, pos: nat) -> Option<(Seq<EntryV>, nat)>
    decreases s.len() - pos,
{
    let p = ws_end(s, pos);
    if p >= s.len() || s[p as int] == '}' {
        Some((Seq::empty(), p))
    } else {
        match spec_parse_entry(s, p) {
            None => None,
            Some((e0, q)) => {
                let q1 = ws_end(s, q);
                if q1 < s.len() && s[q1 as int] == ',' {
                    if q1 + 1 > pos {
                        match spec_parse_entry_list(s, q1 + 1) {
                            None => None,
                            Some((rest, qq)) => Some((seq![e0] + rest, qq)),
                        }
                    } else {
                        None
                    }
                } else {
                    Some((seq![e0], q1))
                }
            },
        }
    }
}

pub proof fn lemma_parse_entry_list_bounds(s: Seq<char>, pos: nat)
    requires
        pos <= s.len(),
        spec_parse_entry_list(s, pos) is Some,
    ensures
        pos <= spec_parse_entry_list(s, pos)->Some_0.1 <= s.len(),
    decreases s.len() - pos,
{
    lemma_ws_end_bounds(s, pos);
    let p = ws_end(s, pos);
    if p >= s.len() || s[p as int] == '}' {
    } else {
        let (e0, q) = spec_parse_entry(s, p)->Some_0;
        lemma_parse_entry_advances(s, p);
        lemma_ws_end_bounds(s, q);
        let q1 = ws_end(s, q);
        if q1 < s.len() && s[q1 as int] == ',' {
            lemma_parse_entry_list_bounds(s, q1 + 1);
        }
    }
}

/// Parses an entry list (exec mirror of `spec_parse_entry_list`).
pub fn parse_entries(t: &Vec<char>, pos: usize) -> (r: Result<(Vec<Entry>, usize), ParseError>)
    requires
        pos <= t@.len(),
    ensures
        match r {
            Ok((es, q)) => spec_parse_entry_list(t@, pos as nat) == Some(
                (es@.map_values(|e: Entry| entry_view(e)), q as nat),
            ) && pos <= q <= t@.len(),
            Err(_) => spec_parse_entry_list(t@, pos as nat) is None,
        },
{
    let n = t.len();
    let mut acc: Vec<Entry> = Vec::new();
    let mut cur: usize = pos;
    proof {
        assert(acc@.map_values(|e: Entry| entry_view(e)) =~= Seq::<EntryV>::empty());
        if spec_parse_entry_list(t@, pos as nat) is Some {
            let (rest, _) = spec_parse_entry_list(t@, pos as nat)->Some_0;
            assert(Seq::<EntryV>::empty() + rest =~= rest);
        }
    }
    loop
        invariant
            pos <= cur <= n,
            n == t@.len(),
            spec_parse_entry_list(t@, pos as nat) == (
            match spec_parse_entry_list(t@, cur as nat) {
                None => None::<(Seq<EntryV>, nat)>,
                Some((rest, q)) => Some(
                    (acc@.map_values(|e: Entry| entry_view(e)) + rest, q),
                ),
            }),
        decreases n - cur,
    {
        let p = skip_ws(t, cur);
        if p >= n || t[p] == '}' {
            proof {
                let av = acc@.map_values(|e: Entry| entry_view(e));
                assert(spec_parse_entry_list(t@, cur as nat) == Some(
                    (Seq::<EntryV>::empty(), p as nat),
                ));
                assert(av + Seq::<EntryV>::empty() =~= av);
            }
            return Ok((acc, p));
        }
        match Entry::parse(t, p) {
            Err(err) => {
                return Err(err);
            },
            Ok((e0, q)) => {
                let ghost a0 = acc@.map_values(|e: Entry| entry_view(e));
                let ghost e0v = entry_view(e0);
                acc.push(e0);
                let ghost a1 = acc@.map_values(|e: Entry| entry_view(e));
                proof {
                    assert(a1 =~~= a0 + seq![e0v]);
                }
                let q1 = skip_ws(t, q);
                if q1 < n && t[q1] == ',' {
                    proof {
                        if spec_parse_entry_list(t@, (q1 + 1) as nat) is Some {
                            let (rest, _) = spec_parse_entry_list(t@, (q1 + 1) as nat)->Some_0;
                            assert(a0 + (seq![e0v] + rest) =~~= a1 + rest);
                        }
                    }
                    cur = q1 + 1;
                } else {
                    proof {
                        assert(spec_parse_entry_list(t@, cur as nat) == Some(
                            (seq![e0v], q1 as nat),
                        ));
                        assert(a0 + seq![e0v] =~~= a1);
                    }
                    return Ok((acc, q1));
                }
            },
        }
    }
}

// ---------------------------------------------------------------------------
// Rule headers
// ---------------------------------------------------------------------------

/// Parses a rule header token at `pos`: a bare identifier (an
/// implicit classname reference) or a quoted selector literal.
pub open spec fn spec_parse_header_token(s: Seq<char>, pos: nat) -> Option<(HeaderV, nat)> {
    if pos < s.len() && s[pos as int] == '"' {
        match spec_parse_string(s, pos) {
            None => None,
            Some((content, q)) => match spec_parse_selector(content, pos) {
                None => None,
                Some(hv) => Some((hv, q)),
            },
        }
    } else {
        match spec_parse_ident(s, pos) {
            None => None,
            Some((id, q)) => Some(
                (
                    HeaderV {
                        parts: seq![PartV::ClassName(id)],
                        loc: pos,
                        at_rule: false,
                    },
                    q,
                ),
            ),
        }
    }
}

pub proof fn lemma_parse_header_token_advances(s: Seq<char>, pos: nat)
    requires
        pos <= s.len(),
        spec_parse_header_token(s, pos) is Some,
    ensures
        pos < spec_parse_header_token(s, pos)->Some_0.1 <= s.len(),
{
    if pos < s.len() && s[pos as int] == '"' {
        lemma_parse_string_advances(s, pos);
    } else {
        lemma_parse_ident_advances(s, pos);
    }
}

impl Header {
    /// Parses a header token (exec mirror of
    /// `spec_parse_header_token`).
    pub fn parse(t: &Vec<char>, pos: usize) -> (r: Result<(Header, usize), ParseError>)
        requires
            pos <= t@.len(),
        ensures
            match r {
                Ok((h, q)) => spec_parse_header_token(t@, pos as nat) == Some(
                    (header_view(h), q as nat),
                ) && pos < q <= t@.len(),
                Err(_) => spec_parse_header_token(t@, pos as nat) is None,
            },
    {
        let n = t.len();
        if pos < n && t[pos] == '"' {
            match parse_string(t, pos) {
                None => Err(ParseError { loc: pos, kind: ParseErrorKind::UnterminatedString }),
                Some((content, q)) => {
                    match crate::selector::parse(&content, pos) {
                        None => Err(ParseError { loc: pos, kind: ParseErrorKind::BadSelector }),
                        Some(h) => Ok((h, q)),
                    }
                },
            }
        } else {
            match parse_ident(t, pos) {
                None => Err(ParseError { loc: pos, kind: ParseErrorKind::ExpectedIdent }),
                Some((id, q)) => {
                    let mut parts: Vec<Part> = Vec::new();
                    let ghost idv = id@;
                    parts.push(Part::ClassName(id));
                    let h = Header { parts, loc: pos, at_rule: false };
                    proof {
                        let hv = header_view(h);
                        assert(hv.parts =~~= seq![PartV::ClassName(idv)]);
                        assert(hv =~~= spec_parse_header_token(t@, pos as nat)->Some_0.0);
                    }
                    Ok((h, q))
                },
            }
        }
    }
}

// ---------------------------------------------------------------------------
// Rules
// ---------------------------------------------------------------------------

/// Parses one rule at `pos` (no leading whitespace): a header token,
/// then a brace-delimited body.  Under an at-rule header the body is
/// a nested rule list; otherwise it is an entry list.
pub open spec fn spec_parse_rule(s: Seq<char>, pos: nat) -> Option<(RuleV, nat)>
    decreases s.len() - pos, 0nat,
{
    match spec_parse_header_token(s, pos) {
        None => None,
        Some((hv, p1)) => {
            let p2 = ws_end(s, p1);
            if p2 < s.len() && s[p2 as int] == '{' {
                if hv.at_rule {
                    if p2 + 1 > pos && p2 + 1 <= s.len() {
                        match spec_parse_rule_list(s, p2 + 1) {
                            None => None,
                            Some((children, p3)) => {
                                if p3 < s.len() && s[p3 as int] == '}' {
                                    Some(
                                        (
                                            RuleV {
                                                header: hv,
                                                body: RuleBodyV::AtRule { children },
                                            },
                                            p3 + 1,
                                        ),
                                    )
                                } else {
                                    None
                                }
                            },
                        }
                    } else {
                        None
                    }
                } else {
                    match spec_parse_entry_list(s, p2 + 1) {
                        None => None,
                        Some((entries, p3)) => {
                            if p3 < s.len() && s[p3 as int] == '}' {
                                Some(
                                    (
                                        RuleV {
                                            header: hv,
                                            body: RuleBodyV::Normal { entries },
                                        },
                                        p3 + 1,
                                    ),
                                )
                            } else {
                                None
                            }
                        },
                    }
                }
            } else {
                None
            }
        },
    }
}

/// Parses a comma-terminated rule list running up to a closing `}`
/// (not consumed) or the end of the text.  A trailing comma is
/// allowed; the list may be empty.
pub open spec fn spec_parse_rule_list(s: Seq<char>, pos: nat) -> Option<(Seq<RuleV>, nat)>
    decreases s.len() - pos, 1nat,
{
    let p = ws_end(s, pos);
    if p >= s.len() || s[p as int] == '}' {
        Some((Seq::empty(), p))
    } else if p >= pos {
        match spec_parse_rule(s, p) {
            None => None,
            Some((r, q)) => {
                let q1 = ws_end(s, q);
                if q1 < s.len() && s[q1 as int] == ',' {
                    if q1 + 1 > pos {
                        match spec_parse_rule_list(s, q1 + 1) {
                            None => None,
                            Some((rest, qq)) => Some((seq![r] + rest, qq)),
                        }
                    } else {
                        None
                    }
                } else {
                    Some((seq![r], q1))
                }
            },
        }
    } else {
        None
    }
}

pub proof fn lemma_parse_rule_advances(s: Seq<char>, pos: nat)
    requires
        pos <= s.len(),
        spec_parse_rule(s, pos) is Some,
    ensures
        pos < spec_parse_rule(s, pos)->Some_0.1 <= s.len(),
    decreases s.len() - pos, 0nat,
{
    lemma_parse_header_token_advances(s, pos);
    let (hv, p1) = spec_parse_header_token(s, pos)->Some_0;
    lemma_ws_end_bounds(s, p1);
    let p2 = ws_end(s, p1);
    if hv.at_rule {
        lemma_parse_rule_list_bounds(s, p2 + 1);
        let (children, p3) = spec_parse_rule_list(s, p2 + 1)->Some_0;
        assert(p3 >= p2 + 1 > pos);
        assert(spec_parse_rule(s, pos)->Some_0.1 == p3 + 1);
    } else {
        lemma_parse_entry_list_bounds(s, p2 + 1);
        let (entries, p3) = spec_parse_entry_list(s, p2 + 1)->Some_0;
        assert(p3 >= p2 + 1 > pos);
        assert(spec_parse_rule(s, pos)->Some_0.1 == p3 + 1);
    }
}

pub proof fn lemma_parse_rule_list_bounds(s: Seq<char>, pos: nat)
    requires
        pos <= s.len(),
        spec_parse_rule_list(s, pos) is Some,
    ensures
        pos <= spec_parse_rule_list(s, pos)->Some_0.1 <= s.len(),
    decreases s.len() - pos, 1nat,
{
    lemma_ws_end_bounds(s, pos);
    let p = ws_end(s, pos);
    if p >= s.len() || s[p as int] == '}' {
    } else {
        lemma_parse_rule_advances(s, p);
        let (r, q) = spec_parse_rule(s, p)->Some_0;
        lemma_ws_end_bounds(s, q);
        let q1 = ws_end(s, q);
        if q1 < s.len() && s[q1 as int] == ',' {
            lemma_parse_rule_list_bounds(s, q1 + 1);
        }
    }
}

impl Rule {
    /// Parses one rule (exec mirror of `spec_parse_rule`).
    pub fn parse(t: &Vec<char>, pos: usize) -> (r: Result<(Rule, usize), ParseError>)
        requires
            pos <= t@.len(),
        ensures
            match r {
                Ok((rule, q)) => spec_parse_rule(t@, pos as nat) == Some(
                    (rule_view(rule), q as nat),
                ) && pos < q <= t@.len(),
                Err(_) => spec_parse_rule(t@, pos as nat) is None,
            },
        decreases t@.len() - pos, 0nat,
    {
        let n = t.len();
        let (header, p1) = match Header::parse(t, pos) {
            Err(err) => {
                return Err(err);
            },
            Ok(hp) => hp,
        };
        let p2 = skip_ws(t, p1);
        if !(p2 < n && t[p2] == '{') {
            return Err(ParseError { loc: p2, kind: ParseErrorKind::ExpectedOpenBrace });
        }
        if header.at_rule {
            let (children, p3) = match RuleList::parse(t, p2 + 1) {
                Err(err) => {
                    return Err(err);
                },
                Ok(cp) => cp,
            };
            if p3 < n && t[p3] == '}' {
                let rule = Rule { header, body: RuleBody::AtRule { children: children.rules } };
                proof {
                    assert(rule_view(rule) =~~= spec_parse_rule(t@, pos as nat)->Some_0.0);
                }
                Ok((rule, p3 + 1))
            } else {
                Err(ParseError { loc: p3, kind: ParseErrorKind::ExpectedCloseBrace })
            }
        } else {
            let (entries, p3) = match parse_entries(t, p2 + 1) {
                Err(err) => {
                    return Err(err);
                },
                Ok(ep) => ep,
            };
            if p3 < n && t[p3] == '}' {
                let rule = Rule { header, body: RuleBody::Normal { entries } };
                proof {
                    assert(rule_view(rule) =~~= spec_parse_rule(t@, pos as nat)->Some_0.0);
                }
                Ok((rule, p3 + 1))
            } else {
                Err(ParseError { loc: p3, kind: ParseErrorKind::ExpectedCloseBrace })
            }
        }
    }
}

impl RuleList {
    /// Parses a rule list (exec mirror of `spec_parse_rule_list`).
    pub fn parse(t: &Vec<char>, pos: usize) -> (r: Result<(RuleList, usize), ParseError>)
        requires
            pos <= t@.len(),
        ensures
            match r {
                Ok((rl, q)) => spec_parse_rule_list(t@, pos as nat) == Some(
                    (rules_view(rl.rules@), q as nat),
                ) && pos <= q <= t@.len(),
                Err(_) => spec_parse_rule_list(t@, pos as nat) is None,
            },
        decreases t@.len() - pos, 1nat,
    {
        let n = t.len();
        let mut acc: Vec<Rule> = Vec::new();
        let mut cur: usize = pos;
        proof {
            crate::ast::lemma_rules_view_len(acc@);
            assert(rules_view(acc@) =~= Seq::<RuleV>::empty());
            if spec_parse_rule_list(t@, pos as nat) is Some {
                let (rest, _) = spec_parse_rule_list(t@, pos as nat)->Some_0;
                assert(Seq::<RuleV>::empty() + rest =~= rest);
            }
        }
        loop
            invariant
                pos <= cur <= n,
                n == t@.len(),
                spec_parse_rule_list(t@, pos as nat) == (
                match spec_parse_rule_list(t@, cur as nat) {
                    None => None::<(Seq<RuleV>, nat)>,
                    Some((rest, q)) => Some((rules_view(acc@) + rest, q)),
                }),
            decreases n - cur,
        {
            let p = skip_ws(t, cur);
            if p >= n || t[p] == '}' {
                proof {
                    let av = rules_view(acc@);
                    assert(spec_parse_rule_list(t@, cur as nat) == Some(
                        (Seq::<RuleV>::empty(), p as nat),
                    ));
                    assert(av + Seq::<RuleV>::empty() =~= av);
                }
                return Ok((RuleList { rules: acc }, p));
            }
            match Rule::parse(t, p) {
                Err(err) => {
                    return Err(err);
                },
                Ok((r0, q)) => {
                    let ghost accv0 = acc@;
                    let ghost a0 = rules_view(acc@);
                    let ghost r0v = rule_view(r0);
                    acc.push(r0);
                    let ghost a1 = rules_view(acc@);
                    proof {
                        assert(acc@.take(acc@.len() - 1) =~= accv0);
                        lemma_rules_view_push(a0, acc@, r0v);
                    }
                    let q1 = skip_ws(t, q);
                    if q1 < n && t[q1] == ',' {
                        proof {
                            if spec_parse_rule_list(t@, (q1 + 1) as nat) is Some {
                                let (rest, _) = spec_parse_rule_list(
                                    t@,
                                    (q1 + 1) as nat,
                                )->Some_0;
                                assert(a0 + (seq![r0v] + rest) =~~= a1 + rest);
                            }
                        }
                        cur = q1 + 1;
                    } else {
                        proof {
                            assert(spec_parse_rule_list(t@, cur as nat) == Some(
                                (seq![r0v], q1 as nat),
                            ));
                            assert(a0 + seq![r0v] =~~= a1);
                        }
                        return Ok((RuleList { rules: acc }, q1));
                    }
                },
            }
        }
    }
}

/// Pushing a rule extends the view by that rule's view.
pub proof fn lemma_rules_view_push(a0: Seq<RuleV>, rs: Seq<Rule>, last: RuleV)
    requires
        rs.len() > 0,
        a0 == rules_view(rs.take(rs.len() - 1)),
        last == rule_view(rs[rs.len() - 1]),
    ensures
        rules_view(rs) == a0 + seq![last],
{
    crate::ast::lemma_rules_view_len(rs);
    crate::ast::lemma_rules_view_len(rs.take(rs.len() - 1));
    assert forall|i: int| 0 <= i < rs.len() implies rules_view(rs)[i] == (a0 + seq![last])[i] by {
        crate::ast::lemma_rules_view_index(rs, i);
        if i < rs.len() - 1 {
            crate::ast::lemma_rules_view_index(rs.take(rs.len() - 1), i);
            assert(rs.take(rs.len() - 1)[i] == rs[i]);
        }
    }
    assert(rules_view(rs) =~= a0 + seq![last]);
}

// ---------------------------------------------------------------------------
// Signatures and styles
// ---------------------------------------------------------------------------

/// Parses a signature at `pos` (no leading whitespace):
/// `( themeVar : ThemeType ) -> ResultType`.
pub open spec fn spec_parse_signature(s: Seq<char>, pos: nat) -> Option<(SignatureV, nat)> {
    if pos < s.len() && s[pos as int] == '(' {
        let p1 = ws_end(s, pos + 1);
        match spec_parse_ident(s, p1) {
            None => None,
            Some((var, p2)) => {
                let p3 = ws_end(s, p2);
                if p3 < s.len() && s[p3 as int] == ':' {
                    let p4 = ws_end(s, p3 + 1);
                    match spec_parse_ident(s, p4) {
                        None => None,
                        Some((ty, p5)) => {
                            let p6 = ws_end(s, p5);
                            if p6 < s.len() && s[p6 as int] == ')' {
                                let p7 = ws_end(s, p6 + 1);
                                if p7 + 1 < s.len() && s[p7 as int] == '-' && s[p7 as int + 1]
                                    == '>' {
                                    let p8 = ws_end(s, p7 + 2);
                                    match spec_parse_ident(s, p8) {
                                        None => None,
                                        Some((cls, p9)) => Some(
                                            (
                                                SignatureV {
                                                    theme_varname: var,
                                                    theme_type: ty,
                                                    classname: cls,
                                                },
                                                p9,
                                            ),
                                        ),
                                    }
                                } else {
                                    None
                                }
                            } else {
                                None
                            }
                        },
                    }
                } else {
                    None
                }
            },
        }
    } else {
        None
    }
}

impl Signature {
    /// Parses a signature (exec mirror of `spec_parse_signature`).
    pub fn parse(t: &Vec<char>, pos: usize) -> (r: Result<(Signature, usize), ParseError>)
        requires
            pos <= t@.len(),
        ensures
            match r {
                Ok((sig, q)) => spec_parse_signature(t@, pos as nat) == Some(
                    (signature_view(sig), q as nat),
                ) && q <= t@.len(),
                Err(_) => spec_parse_signature(t@, pos as nat) is None,
            },
    {
        let n = t.len();
        if !(pos < n && t[pos] == '(') {
            return Err(ParseError { loc: pos, kind: ParseErrorKind::ExpectedIdent });
        }
        let p1 = skip_ws(t, pos + 1);
        let (theme_varname, p2) = match parse_ident(t, p1) {
            None => {
                return Err(ParseError { loc: p1, kind: ParseErrorKind::ExpectedIdent });
            },
            Some(x) => x,
        };
        let p3 = skip_ws(t, p2);
        if !(p3 < n && t[p3] == ':') {
            return Err(ParseError { loc: p3, kind: ParseErrorKind::ExpectedColon });
        }
        let p4 = skip_ws(t, p3 + 1);
        let (theme_type, p5) = match parse_ident(t, p4) {
            None => {
                return Err(ParseError { loc: p4, kind: ParseErrorKind::ExpectedIdent });
            },
            Some(x) => x,
        };
        let p6 = skip_ws(t, p5);
        if !(p6 < n && t[p6] == ')') {
            return Err(ParseError { loc: p6, kind: ParseErrorKind::ExpectedCloseParen });
        }
        let p7 = skip_ws(t, p6 + 1);
        if !(p7 < n && t[p7] == '-' && p7 + 1 < n && t[p7 + 1] == '>') {
            return Err(ParseError { loc: p7, kind: ParseErrorKind::ExpectedArrow });
        }
        let p8 = skip_ws(t, p7 + 2);
        let (classname, p9) = match parse_ident(t, p8) {
            None => {
                return Err(ParseError { loc: p8, kind: ParseErrorKind::ExpectedIdent });
            },
            Some(x) => x,
        };
        Ok((Signature { theme_varname, theme_type, classname }, p9))
    }
}

/// Parses a whole style block: an optional signature (present exactly
/// when the first non-whitespace character is `(`), then a
/// brace-delimited rule list, then the end of the text.
pub open spec fn spec_parse_style(s: Seq<char>) -> Option<StyleV> {
    let p0 = ws_end(s, 0);
    if p0 < s.len() && s[p0 as int] == '(' {
        match spec_parse_signature(s, p0) {
            None => None,
            Some((sig, p1)) => spec_parse_style_tail(s, Some(sig), p1),
        }
    } else {
        spec_parse_style_tail(s, None, p0)
    }
}

/// The brace-delimited rule list after the optional signature.
pub open spec fn spec_parse_style_tail(s: Seq<char>, sig: Option<SignatureV>, pos: nat) -> Option<
    StyleV,
> {
    if pos <= s.len() {
        let p2 = ws_end(s, pos);
        if p2 < s.len() && s[p2 as int] == '{' {
            match spec_parse_rule_list(s, p2 + 1) {
                None => None,
                Some((rules, p3)) => {
                    if p3 < s.len() && s[p3 as int] == '}' {
                        let p4 = ws_end(s, p3 + 1);
                        if p4 >= s.len() {
                            Some(StyleV { signature: sig, rules })
                        } else {
                            None
                        }
                    } else {
                        None
                    }
                },
            }
        } else {
            None
        }
    } else {
        None
    }
}

impl Style {
    /// Parses a whole style block (exec mirror of
    /// `spec_parse_style`).
    pub fn parse(t: &Vec<char>) -> (r: Result<Style, ParseError>)
        ensures
            match r {
                Ok(style) => spec_parse_style(t@) == Some(style_view(style)),
                Err(_) => spec_parse_style(t@) is None,
            },
    {
        let n = t.len();
        let p0 = skip_ws(t, 0);
        let signature: Option<Signature>;
        let p1: usize;
        if p0 < n && t[p0] == '(' {
            match Signature::parse(t, p0) {
                Err(err) => {
                    return Err(err);
                },
                Ok((sig, q)) => {
                    signature = Some(sig);
                    p1 = q;
                },
            }
        } else {
            signature = None;
            p1 = p0;
        }
        let p2 = skip_ws(t, p1);
        if !(p2 < n && t[p2] == '{') {
            return Err(ParseError { loc: p2, kind: ParseErrorKind::ExpectedOpenBrace });
        }
        let (rules, p3) = match RuleList::parse(t, p2 + 1) {
            Err(err) => {
                return Err(err);
            },
            Ok(x) => x,
        };
        if !(p3 < n && t[p3] == '}') {
            return Err(ParseError { loc: p3, kind: ParseErrorKind::ExpectedCloseBrace });
        }
        let p4 = skip_ws(t, p3 + 1);
        if p4 < n {
            return Err(ParseError { loc: p4, kind: ParseErrorKind::TrailingInput });
        }
        let style = Style { signature, rules };
        proof {
            assert(style_view(style) =~~= spec_parse_style(t@)->Some_0);
        }
        Ok(style)
    }
}

} // verus!
