//! The output assembler.
//!
//! Walking the rule tree produces one big format template: literal
//! text with `{`/`}` doubled (escaped), `{}` placeholders, and an
//! ordered parameter list.  A classname part becomes the placeholder
//! text `.css-{}` with a `start + slot` parameter; an entry becomes
//! `  {}: {};\n` with its property and value as parameters.

use vstd::prelude::*;

use crate::ast::{
    Entry, EntryV, Header, HeaderV, Part, PartV, PropertyValueV, Rule, RuleBody, RuleBodyV,
    RuleList, RuleV, body_view, entry_view, header_classnames, header_view, part_view,
    rule_classnames, rule_view, rules_classnames, rules_view, body_classnames,
};
use crate::table::{ClassnameTable, table_contains, table_index, table_wf};

verus! {

// ---------------------------------------------------------------------------
// Parameters and output views
// ---------------------------------------------------------------------------

/// One parameter of the assembled template, in placeholder order:
/// a classname slot (rendered as `start + slot`), a literal text
/// (a property name or a quoted value), or an opaque host expression.
#[derive(Debug, Clone)]
pub enum Param {
    Slot(u64),
    Lit(Vec<char>),
    Expr(Vec<char>),
}

/// View of a parameter.
#[verifier::ext_equal]
pub ghost enum ParamV {
    Slot(u64),
    Lit(Seq<char>),
    Expr(Seq<char>),
}

pub open spec fn param_view(p: Param) -> ParamV {
    match p {
        Param::Slot(k) => ParamV::Slot(k),
        Param::Lit(s) => ParamV::Lit(s@),
        Param::Expr(s) => ParamV::Expr(s@),
    }
}

/// View of an assembled output: the format text and its parameters.
#[verifier::ext_equal]
pub ghost struct OutV {
    pub fmt: Seq<char>,
    pub params: Seq<ParamV>,
}

pub open spec fn out_empty() -> OutV {
    OutV { fmt: Seq::empty(), params: Seq::empty() }
}

pub open spec fn out_cat(a: OutV, b: OutV) -> OutV {
    OutV { fmt: a.fmt + b.fmt, params: a.params + b.params }
}

// ---------------------------------------------------------------------------
// Escaping
// ---------------------------------------------------------------------------

/// Doubles every literal brace, so that raw text can live inside a
/// format template that uses single braces for placeholders.
pub open spec fn escape_braces(s: Seq<char>) -> Seq<char>
    decreases s.len(),
{
    if s.len() == 0 {
        Seq::empty()
    } else {
        (if s[0] == '{' {
            seq!['{', '{']
        } else if s[0] == '}' {
            seq!['}', '}']
        } else {
            seq![s[0]]
        }) + escape_braces(s.skip(1))
    }
}

proof fn lemma_escape_take_step(s: Seq<char>, i: int)
    requires
        0 <= i < s.len(),
    ensures
        escape_braces(s.take(i + 1)) == escape_braces(s.take(i)) + (if s[i] == '{' {
            seq!['{', '{']
        } else if s[i] == '}' {
            seq!['}', '}']
        } else {
            seq![s[i]]
        }),
    decreases i,
{
    if i == 0 {
        assert(s.take(1) =~= seq![s[0]]);
        assert(s.take(1).skip(1) =~= Seq::<char>::empty());
        assert(s.take(0) =~= Seq::<char>::empty());
        assert(escape_braces(s.take(1)) =~= escape_braces(s.take(0)) + (if s[0] == '{' {
            seq!['{', '{']
        } else if s[0] == '}' {
            seq!['}', '}']
        } else {
            seq![s[0]]
        }));
    } else {
        lemma_escape_take_step(s.skip(1), i - 1);
        assert(s.take(i + 1).skip(1) =~= s.skip(1).take(i));
        assert(s.take(i).skip(1) =~= s.skip(1).take(i - 1));
        assert(s.take(i + 1)[0] == s[0]);
        assert(s.take(i)[0] == s[0]);
        assert(s.skip(1)[i - 1] == s[i]);
        assert(escape_braces(s.take(i + 1)) =~= escape_braces(s.take(i)) + (if s[i] == '{' {
            seq!['{', '{']
        } else if s[i] == '}' {
            seq!['}', '}']
        } else {
            seq![s[i]]
        }));
    }
}

// ---------------------------------------------------------------------------
// Template fragments
// ---------------------------------------------------------------------------

/// The placeholder emitted for a classname reference.
pub open spec fn css_placeholder() -> Seq<char> {
    seq!['.', 'c', 's', 's', '-', '{', '}']
}

/// The (escaped) text that opens a rule block.
pub open spec fn rule_open() -> Seq<char> {
    seq![' ', '{', '{', '\n']
}

/// The (escaped) text that closes a rule block.
pub open spec fn rule_close() -> Seq<char> {
    seq!['}', '}', '\n']
}

/// The format text of one entry: two placeholders for property and
/// value.
pub open spec fn entry_format() -> Seq<char> {
    seq![' ', ' ', '{', '}', ':', ' ', '{', '}', ';', '\n']
}

// ---------------------------------------------------------------------------
// What the assembler produces (specification)
// ---------------------------------------------------------------------------

/// The output of one selector part: raw text escaped, a classname as
/// the `.css-{}` placeholder with its slot parameter.
pub open spec fn part_out(p: PartV, t: ClassnameTable) -> OutV {
    match p {
        PartV::Raw(s) => OutV { fmt: escape_braces(s), params: Seq::empty() },
        PartV::ClassName(n) => OutV {
            fmt: css_placeholder(),
            params: seq![ParamV::Slot(table_index(t, n) as u64)],
        },
    }
}

pub open spec fn parts_out(ps: Seq<PartV>, t: ClassnameTable) -> OutV
    decreases ps.len(),
{
    if ps.len() == 0 {
        out_empty()
    } else {
        out_cat(part_out(ps[0], t), parts_out(ps.skip(1), t))
    }
}

pub open spec fn header_out(h: HeaderV, t: ClassnameTable) -> OutV {
    parts_out(h.parts, t)
}

/// The output of one entry: its fixed format text, with the property
/// and the value as parameters.
pub open spec fn entry_out(e: EntryV) -> OutV {
    OutV {
        fmt: entry_format(),
        params: seq![
            ParamV::Lit(e.property),
            match e.value {
                PropertyValueV::Lit(s) => ParamV::Lit(s),
                PropertyValueV::Expr(s) => ParamV::Expr(s),
            },
        ],
    }
}

pub open spec fn entries_out(es: Seq<EntryV>) -> OutV
    decreases es.len(),
{
    if es.len() == 0 {
        out_empty()
    } else {
        out_cat(entry_out(es[0]), entries_out(es.skip(1)))
    }
}

pub open spec fn rule_out(r: RuleV, t: ClassnameTable) -> OutV
    decreases r,
{
    out_cat(
        header_out(r.header, t),
        out_cat(
            OutV { fmt: rule_open(), params: Seq::empty() },
            out_cat(body_out(r.body, t), OutV { fmt: rule_close(), params: Seq::empty() }),
        ),
    )
}

pub open spec fn body_out(b: RuleBodyV, t: ClassnameTable) -> OutV
    decreases b,
{
    match b {
        RuleBodyV::AtRule { children } => rules_out(children, t),
        RuleBodyV::Normal { entries } => entries_out(entries),
    }
}

pub open spec fn rules_out(rs: Seq<RuleV>, t: ClassnameTable) -> OutV
    decreases rs,
{
    if rs.len() == 0 {
        out_empty()
    } else {
        out_cat(rule_out(rs[0], t), rules_out(rs.skip(1), t))
    }
}

// ---------------------------------------------------------------------------
// Coverage: every referenced classname has a slot
// ---------------------------------------------------------------------------

/// Every classname in the pair list has a slot in the table.
pub open spec fn pairs_covered(ps: Seq<(Seq<char>, nat)>, t: ClassnameTable) -> bool {
    forall|k: int| 0 <= k < ps.len() ==> table_contains(t, ps[k].0)
}

/// The classnames of a rule list split at any point.
pub proof fn lemma_rules_classnames_split(rs: Seq<RuleV>, j: int)
    requires
        0 <= j <= rs.len(),
    ensures
        rules_classnames(rs) == rules_classnames(rs.take(j)) + rules_classnames(rs.skip(j)),
    decreases j,
{
    if j == 0 {
        assert(rs.take(0) =~= Seq::<RuleV>::empty());
        assert(rs.skip(0) =~= rs);
        assert(rules_classnames(rs) =~~= rules_classnames(rs.take(0)) + rules_classnames(
            rs.skip(0),
        ));
    } else {
        lemma_rules_classnames_split(rs, j - 1);
        crate::ast::lemma_rules_classnames_take_step(rs, j - 1);
        assert(rs.skip(j - 1)[0] == rs[j - 1]);
        assert(rs.skip(j - 1).skip(1) =~= rs.skip(j));
        assert(rules_classnames(rs.skip(j - 1)) == rule_classnames(rs[j - 1])
            + rules_classnames(rs.skip(j)));
        assert(rules_classnames(rs) =~~= rules_classnames(rs.take(j)) + rules_classnames(
            rs.skip(j),
        ));
    }
}

/// Where one rule's classnames sit inside the whole list's.
pub proof fn lemma_rules_classnames_sub(rs: Seq<RuleV>, i: int)
    requires
        0 <= i < rs.len(),
    ensures
        forall|k: int|
            0 <= k < rule_classnames(rs[i]).len() ==> {
                let off = rules_classnames(rs.take(i)).len();
                off + k < rules_classnames(rs).len() && rules_classnames(rs)[off + k as int]
                    == #[trigger] rule_classnames(rs[i])[k]
            },
{
    lemma_rules_classnames_split(rs, i);
    assert(rs.skip(i)[0] == rs[i]);
    assert(rs.skip(i).skip(1) =~= rs.skip(i + 1));
    assert(rules_classnames(rs.skip(i)) == rule_classnames(rs[i]) + rules_classnames(
        rs.skip(i + 1),
    ));
}

/// Where one part's classname sits inside the header's classnames.
pub proof fn lemma_parts_classnames_sub(ps: Seq<PartV>, loc: nat, i: int)
    requires
        0 <= i < ps.len(),
    ensures
        (ps[i] is ClassName) ==> {
            let off = crate::ast::parts_classnames(ps.take(i), loc).len();
            off < crate::ast::parts_classnames(ps, loc).len()
                && crate::ast::parts_classnames(ps, loc)[off as int] == (
            ps[i]->ClassName_0, loc)
        },
    decreases i,
{
    if i == 0 {
        assert(ps.skip(0) =~= ps);
        assert(ps.take(0) =~= Seq::<PartV>::empty());
    } else {
        lemma_parts_classnames_sub(ps.skip(1), loc, i - 1);
        assert(ps.skip(1)[i - 1] == ps[i]);
        assert(ps.take(i).skip(1) =~= ps.skip(1).take(i - 1));
        assert(ps.take(i)[0] == ps[0]);
        assert(ps.skip(1).take(i - 1) =~= ps.take(i).skip(1));
    }
}

// ---------------------------------------------------------------------------
// The assembled output (executable)
// ---------------------------------------------------------------------------

/// The output being assembled: the format text, the parameters in
/// placeholder order, and the classname table the slots come from.
#[derive(Debug)]
pub struct Output {
    pub format_str: Vec<char>,
    pub params: Vec<Param>,
    pub map: ClassnameTable,
}

/// View of the output under assembly.
pub open spec fn output_view(o: Output) -> OutV {
    OutV { fmt: o.format_str@, params: o.params@.map_values(|p: Param| param_view(p)) }
}

/// Every slot parameter pushed so far indexes a name of the table.
pub open spec fn output_slots_ok(o: Output) -> bool {
    forall|j: int|
        0 <= j < o.params@.len() ==> ((#[trigger] param_view(o.params@[j])) is Slot
            ==> param_view(o.params@[j])->Slot_0 < o.map.names@.len())
}

impl Output {
    /// Starts an empty output over the given classname table.
    pub fn new(map: ClassnameTable) -> (o: Output)
        ensures
            output_view(o) == out_empty(),
            o.map == map,
            output_slots_ok(o),
    {
        let o = Output { format_str: Vec::new(), params: Vec::new(), map };
        proof {
            assert(output_view(o) =~~= out_empty());
        }
        o
    }

    /// Appends raw text to the format string, doubling every brace so
    /// it cannot be mistaken for a placeholder.
    pub fn push_str(&mut self, s: &Vec<char>)
        ensures
            final(self).map == old(self).map,
            final(self).params@ == old(self).params@,
            output_view(*final(self)) == out_cat(
                output_view(*old(self)),
                (OutV { fmt: escape_braces(s@), params: Seq::empty() }),
            ),
    {
        let ghost orig = self.format_str@;
        let ghost origp = self.params@;
        let mut i: usize = 0;
        proof {
            assert(s@.take(0) =~= Seq::<char>::empty());
        }
        while i < s.len()
            invariant
                0 <= i <= s@.len(),
                self.params@ == origp,
                self.map == old(self).map,
                self.format_str@ == orig + escape_braces(s@.take(i as int)),
            decreases s@.len() - i,
        {
            let c = s[i];
            if c == '{' {
                self.format_str.push('{');
                self.format_str.push('{');
            } else if c == '}' {
                self.format_str.push('}');
                self.format_str.push('}');
            } else {
                self.format_str.push(c);
            }
            proof {
                lemma_escape_take_step(s@, i as int);
                assert(self.format_str@ =~= orig + escape_braces(s@.take(i + 1)));
            }
            i += 1;
        }
        proof {
            assert(s@.take(s@.len() as int) =~= s@);
            assert(output_view(*self) =~~= out_cat(
                output_view(*old(self)),
                (OutV { fmt: escape_braces(s@), params: Seq::empty() }),
            ));
        }
    }

    /// Appends the placeholder for a classname reference: `.css-{}`
    /// in the format string and the name's slot as a parameter.
    pub fn push_classname(&mut self, name: &Vec<char>)
        requires
            table_wf(old(self).map),
            table_contains(old(self).map, name@),
        ensures
            final(self).map == old(self).map,
            output_view(*final(self)) == out_cat(
                output_view(*old(self)),
                part_out(PartV::ClassName(name@), old(self).map),
            ),
            output_slots_ok(*old(self)) ==> output_slots_ok(*final(self)),
    {
        match self.map.slot_of(name) {
            Some(slot) => {
                self.format_str.push('.');
                self.format_str.push('c');
                self.format_str.push('s');
                self.format_str.push('s');
                self.format_str.push('-');
                self.format_str.push('{');
                self.format_str.push('}');
                self.params.push(Param::Slot(slot as u64));
                proof {
                    assert(self.format_str@ =~= old(self).format_str@ + css_placeholder());
                    assert(self.params@.map_values(|p: Param| param_view(p)) =~~= old(
                        self,
                    ).params@.map_values(|p: Param| param_view(p)) + seq![
                        ParamV::Slot(table_index(old(self).map, name@) as u64),
                    ]);
                    assert(output_view(*self) =~~= out_cat(
                        output_view(*old(self)),
                        part_out(PartV::ClassName(name@), old(self).map),
                    ));
                }
            },
            None => {
                proof {
                    assert(false);
                }
            },
        }
    }
}

impl Part {
    /// Appends this part to the output.
    pub fn append(&self, result: &mut Output)
        requires
            table_wf(old(result).map),
            (part_view(*self) is ClassName) ==> table_contains(
                old(result).map,
                part_view(*self)->ClassName_0,
            ),
        ensures
            final(result).map == old(result).map,
            output_view(*final(result)) == out_cat(
                output_view(*old(result)),
                part_out(part_view(*self), old(result).map),
            ),
            output_slots_ok(*old(result)) ==> output_slots_ok(*final(result)),
    {
        match self {
            Part::Raw(s) => {
                result.push_str(s);
            },
            Part::ClassName(n) => {
                result.push_classname(n);
            },
        }
    }
}

/// Step lemma for assembling a part sequence.
proof fn lemma_parts_out_take_step(ps: Seq<PartV>, t: ClassnameTable, i: int)
    requires
        0 <= i < ps.len(),
    ensures
        parts_out(ps.take(i + 1), t) == out_cat(parts_out(ps.take(i), t), part_out(ps[i], t)),
    decreases i,
{
    if i == 0 {
        assert(ps.take(1) =~= seq![ps[0]]);
        assert(ps.take(1).skip(1) =~= Seq::<PartV>::empty());
        assert(ps.take(0) =~= Seq::<PartV>::empty());
        assert(parts_out(ps.take(1), t) =~~= out_cat(
            parts_out(ps.take(0), t),
            part_out(ps[0], t),
        ));
    } else {
        lemma_parts_out_take_step(ps.skip(1), t, i - 1);
        assert(ps.take(i + 1).skip(1) =~= ps.skip(1).take(i));
        assert(ps.take(i).skip(1) =~= ps.skip(1).take(i - 1));
        assert(ps.take(i + 1)[0] == ps[0]);
        assert(ps.take(i)[0] == ps[0]);
        assert(ps.skip(1)[i - 1] == ps[i]);
        assert(parts_out(ps.take(i + 1), t) =~~= out_cat(
            parts_out(ps.take(i), t),
            part_out(ps[i], t),
        ));
    }
}

impl Header {
    /// Appends the whole header: raw parts escaped, classname parts
    /// as slot placeholders.
    pub fn append(&self, result: &mut Output)
        requires
            table_wf(old(result).map),
            pairs_covered(
                crate::ast::header_classnames(header_view(*self)),
                old(result).map,
            ),
        ensures
            final(result).map == old(result).map,
            output_view(*final(result)) == out_cat(
                output_view(*old(result)),
                header_out(header_view(*self), old(result).map),
            ),
            output_slots_ok(*old(result)) ==> output_slots_ok(*final(result)),
    {
        let ghost ok0 = output_slots_ok(*result);
        let ghost orig = output_view(*result);
        let ghost pv = header_view(*self).parts;
        let mut i: usize = 0;
        proof {
            assert(pv.take(0) =~= Seq::<PartV>::empty());
            assert(output_view(*result) =~~= out_cat(orig, parts_out(pv.take(0), result.map)));
        }
        while i < self.parts.len()
            invariant
                0 <= i <= self.parts@.len(),
                pv == header_view(*self).parts,
                pv.len() == self.parts@.len(),
                table_wf(result.map),
                result.map == old(result).map,
                pairs_covered(crate::ast::header_classnames(header_view(*self)), result.map),
                ok0 ==> output_slots_ok(*result),
                output_view(*result) == out_cat(orig, parts_out(pv.take(i as int), result.map)),
            decreases self.parts@.len() - i,
        {
            proof {
                assert(pv[i as int] == part_view(self.parts@[i as int]));
                if pv[i as int] is ClassName {
                    lemma_parts_classnames_sub(pv, self.loc as nat, i as int);
                }
            }
            self.parts[i].append(result);
            proof {
                lemma_parts_out_take_step(pv, result.map, i as int);
                assert(output_view(*result) =~~= out_cat(
                    orig,
                    parts_out(pv.take(i + 1), result.map),
                ));
            }
            i += 1;
        }
        proof {
            assert(pv.take(pv.len() as int) =~= pv);
        }
    }
}

/// Coverage distributes over concatenation.
proof fn lemma_covered_cat(a: Seq<(Seq<char>, nat)>, b: Seq<(Seq<char>, nat)>, t: ClassnameTable)
    requires
        pairs_covered(a + b, t),
    ensures
        pairs_covered(a, t),
        pairs_covered(b, t),
{
    assert forall|k: int| 0 <= k < a.len() implies table_contains(t, a[k].0) by {
        assert((a + b)[k] == a[k]);
    }
    assert forall|k: int| 0 <= k < b.len() implies table_contains(t, b[k].0) by {
        assert((a + b)[a.len() + k] == b[k]);
    }
}

impl Entry {
    /// Appends this entry: the fixed `  {}: {};\n` format text plus
    /// the property and value as parameters.
    pub fn append(&self, result: &mut Output)
        ensures
            final(result).map == old(result).map,
            output_view(*final(result)) == out_cat(
                output_view(*old(result)),
                entry_out(entry_view(*self)),
            ),
            output_slots_ok(*old(result)) ==> output_slots_ok(*final(result)),
    {
        result.format_str.push(' ');
        result.format_str.push(' ');
        result.format_str.push('{');
        result.format_str.push('}');
        result.format_str.push(':');
        result.format_str.push(' ');
        result.format_str.push('{');
        result.format_str.push('}');
        result.format_str.push(';');
        result.format_str.push('\n');
        result.params.push(Param::Lit(crate::ast::clone_chars(&self.property)));
        match &self.value {
            crate::ast::PropertyValue::Lit(v) => {
                result.params.push(Param::Lit(crate::ast::clone_chars(v)));
            },
            crate::ast::PropertyValue::Expr(v) => {
                result.params.push(Param::Expr(crate::ast::clone_chars(v)));
            },
        }
        proof {
            assert(result.format_str@ =~= old(result).format_str@ + entry_format());
            assert(result.params@.map_values(|p: Param| param_view(p)) =~~= old(
                result,
            ).params@.map_values(|p: Param| param_view(p)) + entry_out(entry_view(*self)).params);
            assert(output_view(*result) =~~= out_cat(
                output_view(*old(result)),
                entry_out(entry_view(*self)),
            ));
        }
    }
}

/// Step lemma for assembling an entry sequence.
proof fn lemma_entries_out_take_step(es: Seq<EntryV>, i: int)
    requires
        0 <= i < es.len(),
    ensures
        entries_out(es.take(i + 1)) == out_cat(entries_out(es.take(i)), entry_out(es[i])),
    decreases i,
{
    if i == 0 {
        assert(es.take(1) =~= seq![es[0]]);
        assert(es.take(1).skip(1) =~= Seq::<EntryV>::empty());
        assert(es.take(0) =~= Seq::<EntryV>::empty());
        assert(entries_out(es.take(1)) =~~= out_cat(entries_out(es.take(0)), entry_out(es[0])));
    } else {
        lemma_entries_out_take_step(es.skip(1), i - 1);
        assert(es.take(i + 1).skip(1) =~= es.skip(1).take(i));
        assert(es.take(i).skip(1) =~= es.skip(1).take(i - 1));
        assert(es.take(i + 1)[0] == es[0]);
        assert(es.take(i)[0] == es[0]);
        assert(es.skip(1)[i - 1] == es[i]);
        assert(entries_out(es.take(i + 1)) =~~= out_cat(
            entries_out(es.take(i)),
            entry_out(es[i]),
        ));
    }
}

/// Step lemma for assembling a rule sequence.
proof fn lemma_rules_out_take_step(rs: Seq<RuleV>, t: ClassnameTable, i: int)
    requires
        0 <= i < rs.len(),
    ensures
        rules_out(rs.take(i + 1), t) == out_cat(rules_out(rs.take(i), t), rule_out(rs[i], t)),
    decreases i,
{
    if i == 0 {
        assert(rs.take(1) =~= seq![rs[0]]);
        assert(rs.take(1).skip(1) =~= Seq::<RuleV>::empty());
        assert(rs.take(0) =~= Seq::<RuleV>::empty());
        assert(rules_out(rs.take(1), t) =~~= out_cat(
            rules_out(rs.take(0), t),
            rule_out(rs[0], t),
        ));
    } else {
        lemma_rules_out_take_step(rs.skip(1), t, i - 1);
        assert(rs.take(i + 1).skip(1) =~= rs.skip(1).take(i));
        assert(rs.take(i).skip(1) =~= rs.skip(1).take(i - 1));
        assert(rs.take(i + 1)[0] == rs[0]);
        assert(rs.take(i)[0] == rs[0]);
        assert(rs.skip(1)[i - 1] == rs[i]);
        assert(rules_out(rs.take(i + 1), t) =~~= out_cat(
            rules_out(rs.take(i), t),
            rule_out(rs[i], t),
        ));
    }
}

impl Rule {
    /// Appends this rule: its header, an opening brace line, its
    /// body, and a closing brace line.
    pub fn append(&self, result: &mut Output)
        requires
            table_wf(old(result).map),
            pairs_covered(rule_classnames(rule_view(*self)), old(result).map),
        ensures
            final(result).map == old(result).map,
            output_view(*final(result)) == out_cat(
                output_view(*old(result)),
                rule_out(rule_view(*self), old(result).map),
            ),
            output_slots_ok(*old(result)) ==> output_slots_ok(*final(result)),
        decreases *self,
    {
        let ghost orig = output_view(*result);
        let ghost rv = rule_view(*self);
        proof {
            lemma_covered_cat(
                crate::ast::header_classnames(rv.header),
                body_classnames(rv.body),
                result.map,
            );
        }
        self.header.append(result);
        result.format_str.push(' ');
        result.format_str.push('{');
        result.format_str.push('{');
        result.format_str.push('\n');
        let ghost mid = output_view(*result);
        proof {
            assert(mid =~~= out_cat(
                out_cat(orig, header_out(rv.header, result.map)),
                (OutV { fmt: rule_open(), params: Seq::empty() }),
            ));
        }
        self.body.append(result);
        result.format_str.push('}');
        result.format_str.push('}');
        result.format_str.push('\n');
        proof {
            assert(output_view(*result) =~~= out_cat(orig, rule_out(rv, result.map)));
        }
    }
}

impl RuleBody {
    /// Appends the body: every entry of a normal body, every child
    /// rule of an at-rule body.
    pub fn append(&self, result: &mut Output)
        requires
            table_wf(old(result).map),
            pairs_covered(body_classnames(body_view(*self)), old(result).map),
        ensures
            final(result).map == old(result).map,
            output_view(*final(result)) == out_cat(
                output_view(*old(result)),
                body_out(body_view(*self), old(result).map),
            ),
            output_slots_ok(*old(result)) ==> output_slots_ok(*final(result)),
        decreases *self,
    {
        let ghost ok0 = output_slots_ok(*result);
        let ghost orig = output_view(*result);
        match self {
            RuleBody::Normal { entries } => {
                let ghost ev = entries@.map_values(|e: Entry| entry_view(e));
                let mut i: usize = 0;
                proof {
                    assert(ev.take(0) =~= Seq::<EntryV>::empty());
                    assert(output_view(*result) =~~= out_cat(orig, entries_out(ev.take(0))));
                }
                while i < entries.len()
                    invariant
                        0 <= i <= entries@.len(),
                        ev == entries@.map_values(|e: Entry| entry_view(e)),
                        ev.len() == entries@.len(),
                        result.map == old(result).map,
                        ok0 ==> output_slots_ok(*result),
                        output_view(*result) == out_cat(orig, entries_out(ev.take(i as int))),
                    decreases entries@.len() - i,
                {
                    entries[i].append(result);
                    proof {
                        lemma_entries_out_take_step(ev, i as int);
                        assert(output_view(*result) =~~= out_cat(
                            orig,
                            entries_out(ev.take(i + 1)),
                        ));
                    }
                    i += 1;
                }
                proof {
                    assert(ev.take(ev.len() as int) =~= ev);
                    assert(body_out(body_view(*self), result.map) == entries_out(ev));
                }
            },
            RuleBody::AtRule { children } => {
                let ghost cv = rules_view(children@);
                let mut i: usize = 0;
                proof {
                    crate::ast::lemma_rules_view_len(children@);
                    assert(cv.take(0) =~= Seq::<RuleV>::empty());
                    assert(output_view(*result) =~~= out_cat(
                        orig,
                        rules_out(cv.take(0), result.map),
                    ));
                }
                while i < children.len()
                    invariant
                        (*self) is AtRule,
                        *children == (*self)->AtRule_children,
                        0 <= i <= children@.len(),
                        cv == rules_view(children@),
                        cv.len() == children@.len(),
                        table_wf(result.map),
                        result.map == old(result).map,
                        pairs_covered(rules_classnames(cv), result.map),
                        ok0 ==> output_slots_ok(*result),
                        output_view(*result) == out_cat(
                            orig,
                            rules_out(cv.take(i as int), result.map),
                        ),
                    decreases children@.len() - i,
                {
                    proof {
                        crate::ast::lemma_rules_view_index(children@, i as int);
                        let c = (*self)->AtRule_children;
                        assert(decreases_to!(*self => c));
                        assert(decreases_to!(c => c@));
                        assert(decreases_to!(c@ => c@[i as int]));
                        assert(decreases_to!(*self => children@[i as int]));
                        lemma_rules_classnames_sub(cv, i as int);
                        let rcn = rule_classnames(cv[i as int]);
                        let off = rules_classnames(cv.take(i as int)).len();
                        assert forall|k: int| 0 <= k < rcn.len() implies table_contains(
                            result.map,
                            rcn[k].0,
                        ) by {
                            assert(rules_classnames(cv)[off + k as int] == rcn[k]);
                        }
                    }
                    children[i].append(result);
                    proof {
                        lemma_rules_out_take_step(cv, result.map, i as int);
                        assert(output_view(*result) =~~= out_cat(
                            orig,
                            rules_out(cv.take(i + 1), result.map),
                        ));
                    }
                    i += 1;
                }
                proof {
                    assert(cv.take(cv.len() as int) =~= cv);
                    assert(body_out(body_view(*self), result.map) == rules_out(cv, result.map));
                }
            },
        }
    }
}

impl RuleList {
    /// Appends every rule of the list in order.
    pub fn append(&self, result: &mut Output)
        requires
            table_wf(old(result).map),
            pairs_covered(rules_classnames(rules_view(self.rules@)), old(result).map),
        ensures
            final(result).map == old(result).map,
            output_view(*final(result)) == out_cat(
                output_view(*old(result)),
                rules_out(rules_view(self.rules@), old(result).map),
            ),
            output_slots_ok(*old(result)) ==> output_slots_ok(*final(result)),
    {
        let ghost ok0 = output_slots_ok(*result);
        let ghost orig = output_view(*result);
        let ghost cv = rules_view(self.rules@);
        let mut i: usize = 0;
        proof {
            crate::ast::lemma_rules_view_len(self.rules@);
            assert(cv.take(0) =~= Seq::<RuleV>::empty());
            assert(output_view(*result) =~~= out_cat(orig, rules_out(cv.take(0), result.map)));
        }
        while i < self.rules.len()
            invariant
                0 <= i <= self.rules@.len(),
                cv == rules_view(self.rules@),
                cv.len() == self.rules@.len(),
                table_wf(result.map),
                result.map == old(result).map,
                pairs_covered(rules_classnames(cv), result.map),
                ok0 ==> output_slots_ok(*result),
                output_view(*result) == out_cat(orig, rules_out(cv.take(i as int), result.map)),
            decreases self.rules@.len() - i,
        {
            proof {
                crate::ast::lemma_rules_view_index(self.rules@, i as int);
                lemma_rules_classnames_sub(cv, i as int);
                let rcn = rule_classnames(cv[i as int]);
                let off = rules_classnames(cv.take(i as int)).len();
                assert forall|k: int| 0 <= k < rcn.len() implies table_contains(
                    result.map,
                    rcn[k].0,
                ) by {
                    assert(rules_classnames(cv)[off + k as int] == rcn[k]);
                }
            }
            self.rules[i].append(result);
            proof {
                lemma_rules_out_take_step(cv, result.map, i as int);
                assert(output_view(*result) =~~= out_cat(
                    orig,
                    rules_out(cv.take(i + 1), result.map),
                ));
            }
            i += 1;
        }
        proof {
            assert(cv.take(cv.len() as int) =~= cv);
        }
    }
}

} // verus!
