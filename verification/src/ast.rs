//! The style language's abstract syntax tree.
//!
//! A `Style` is a signature plus a list of rules.  Each rule has a
//! header (an ordered mix of raw selector text and classname
//! references) and a body that is either a flat list of property
//! entries or, under an at-rule header, a nested list of rules.
//!
//! Every node has a ghost view (`PartV`, `RuleV`, ...) built from
//! `Seq`, so that contracts can speak about the tree mathematically.

use vstd::prelude::*;

verus! {

// ---------------------------------------------------------------------------
// Ghost views
// ---------------------------------------------------------------------------

/// View of one selector part.
#[verifier::ext_equal]
pub ghost enum PartV {
    Raw(Seq<char>),
    ClassName(Seq<char>),
}

/// View of a rule header.
#[verifier::ext_equal]
pub ghost struct HeaderV {
    pub parts: Seq<PartV>,
    pub loc: nat,
    pub at_rule: bool,
}

/// View of a property value: either the contents of a quoted literal
/// or an opaque host-language expression, kept as raw text.
#[verifier::ext_equal]
pub ghost enum PropertyValueV {
    Lit(Seq<char>),
    Expr(Seq<char>),
}

/// View of one `property: value` entry.
#[verifier::ext_equal]
pub ghost struct EntryV {
    pub property: Seq<char>,
    pub value: PropertyValueV,
}

/// View of a rule body.
#[verifier::ext_equal]
pub ghost enum RuleBodyV {
    AtRule { children: Seq<RuleV> },
    Normal { entries: Seq<EntryV> },
}

/// View of a rule.
#[verifier::ext_equal]
pub ghost struct RuleV {
    pub header: HeaderV,
    pub body: RuleBodyV,
}

/// View of a style signature.
#[verifier::ext_equal]
pub ghost struct SignatureV {
    pub theme_varname: Seq<char>,
    pub theme_type: Seq<char>,
    pub classname: Seq<char>,
}

/// View of a whole style block.
#[verifier::ext_equal]
pub ghost struct StyleV {
    pub signature: Option<SignatureV>,
    pub rules: Seq<RuleV>,
}

// ---------------------------------------------------------------------------
// Executable tree
// ---------------------------------------------------------------------------

/// One selector part: raw text, or a reference to a classname.
#[derive(Debug, Clone)]
pub enum Part {
    Raw(Vec<char>),
    ClassName(Vec<char>),
}

/// A rule header: its parts, the character offset of the header token
/// in the source (for diagnostics), and whether it is an at-rule.
#[derive(Debug, Clone)]
pub struct Header {
    pub parts: Vec<Part>,
    pub loc: usize,
    pub at_rule: bool,
}

/// A selector: a thin wrapper around a non-at-rule header.
#[derive(Debug, Clone)]
pub struct Selector {
    pub header: Header,
}

/// A property value, threaded through to the output without being
/// interpreted: either the contents of a quoted literal or the raw
/// text of a host-language expression.
#[derive(Debug, Clone)]
pub enum PropertyValue {
    Lit(Vec<char>),
    Expr(Vec<char>),
}

/// One `property: value` entry of a normal rule body.
#[derive(Debug, Clone)]
pub struct Entry {
    pub property: Vec<char>,
    pub value: PropertyValue,
}

/// A rule body: nested rules under an at-rule header, a flat entry
/// list otherwise.
#[derive(Debug)]
pub enum RuleBody {
    AtRule { children: Vec<Rule> },
    Normal { entries: Vec<Entry> },
}

/// A header together with its body.
#[derive(Debug)]
pub struct Rule {
    pub header: Header,
    pub body: RuleBody,
}

/// An ordered list of rules.
#[derive(Debug)]
pub struct RuleList {
    pub rules: Vec<Rule>,
}

/// The signature of a style block: theme parameter name, theme type
/// name and the name of the generated result type.
#[derive(Debug, Clone)]
pub struct Signature {
    pub theme_varname: Vec<char>,
    pub theme_type: Vec<char>,
    pub classname: Vec<char>,
}

/// A whole style block: optional signature plus top-level rules.
#[derive(Debug)]
pub struct Style {
    pub signature: Option<Signature>,
    pub rules: RuleList,
}

// ---------------------------------------------------------------------------
// View functions
// ---------------------------------------------------------------------------

pub open spec fn part_view(p: Part) -> PartV {
    match p {
        Part::Raw(s) => PartV::Raw(s@),
        Part::ClassName(s) => PartV::ClassName(s@),
    }
}

pub open spec fn header_view(h: Header) -> HeaderV {
    HeaderV {
        parts: h.parts@.map_values(|p: Part| part_view(p)),
        loc: h.loc as nat,
        at_rule: h.at_rule,
    }
}

pub open spec fn value_view(v: PropertyValue) -> PropertyValueV {
    match v {
        PropertyValue::Lit(s) => PropertyValueV::Lit(s@),
        PropertyValue::Expr(s) => PropertyValueV::Expr(s@),
    }
}

pub open spec fn entry_view(e: Entry) -> EntryV {
    EntryV { property: e.property@, value: value_view(e.value) }
}

pub open spec fn rule_view(r: Rule) -> RuleV
    decreases r,
{
    RuleV { header: header_view(r.header), body: body_view(r.body) }
}

pub open spec fn body_view(b: RuleBody) -> RuleBodyV
    decreases b,
{
    match b {
        RuleBody::AtRule { children } => RuleBodyV::AtRule {
            children: rules_view(children@),
        },
        RuleBody::Normal { entries } => RuleBodyV::Normal {
            entries: entries@.map_values(|e: Entry| entry_view(e)),
        },
    }
}

pub open spec fn rules_view(rs: Seq<Rule>) -> Seq<RuleV>
    decreases rs,
{
    if rs.len() == 0 {
        Seq::empty()
    } else {
        seq![rule_view(rs[0])] + rules_view(rs.skip(1))
    }
}

pub open spec fn signature_view(s: Signature) -> SignatureV {
    SignatureV {
        theme_varname: s.theme_varname@,
        theme_type: s.theme_type@,
        classname: s.classname@,
    }
}

pub open spec fn style_view(s: Style) -> StyleV {
    StyleV {
        signature: match s.signature {
            Some(sig) => Some(signature_view(sig)),
            None => None,
        },
        rules: rules_view(s.rules.rules@),
    }
}

/// Views of a rule sequence: pointwise rule views.
pub proof fn lemma_rules_view_index(rs: Seq<Rule>, i: int)
    requires
        0 <= i < rs.len(),
    ensures
        rules_view(rs).len() == rs.len(),
        rules_view(rs)[i] == rule_view(rs[i]),
    decreases rs.len(),
{
    lemma_rules_view_len(rs);
    if i > 0 {
        lemma_rules_view_index(rs.skip(1), i - 1);
        assert(rs.skip(1)[i - 1] == rs[i]);
    }
}

pub proof fn lemma_rules_view_len(rs: Seq<Rule>)
    ensures
        rules_view(rs).len() == rs.len(),
    decreases rs.len(),
{
    if rs.len() > 0 {
        lemma_rules_view_len(rs.skip(1));
    }
}

// ---------------------------------------------------------------------------
// Classname collection (specification)
// ---------------------------------------------------------------------------

/// The classname references of a part sequence, in order of
/// appearance, each tagged with the owning header's location.
pub open spec fn parts_classnames(ps: Seq<PartV>, loc: nat) -> Seq<(Seq<char>, nat)>
    decreases ps.len(),
{
    if ps.len() == 0 {
        Seq::empty()
    } else {
        (match ps[0] {
            PartV::ClassName(n) => seq![(n, loc)],
            PartV::Raw(_) => Seq::empty(),
        }) + parts_classnames(ps.skip(1), loc)
    }
}

pub open spec fn header_classnames(h: HeaderV) -> Seq<(Seq<char>, nat)> {
    parts_classnames(h.parts, h.loc)
}

pub open spec fn rule_classnames(r: RuleV) -> Seq<(Seq<char>, nat)>
    decreases r,
{
    header_classnames(r.header) + body_classnames(r.body)
}

pub open spec fn body_classnames(b: RuleBodyV) -> Seq<(Seq<char>, nat)>
    decreases b,
{
    match b {
        RuleBodyV::AtRule { children } => rules_classnames(children),
        RuleBodyV::Normal { .. } => Seq::empty(),
    }
}

pub open spec fn rules_classnames(rs: Seq<RuleV>) -> Seq<(Seq<char>, nat)>
    decreases rs,
{
    if rs.len() == 0 {
        Seq::empty()
    } else {
        rule_classnames(rs[0]) + rules_classnames(rs.skip(1))
    }
}

// ---------------------------------------------------------------------------
// Classname collection (executable)
// ---------------------------------------------------------------------------

impl Part {
    /// Whether this part is a classname reference.
    pub fn is_class(&self) -> (r: bool)
        ensures
            r == (part_view(*self) is ClassName),
    {
        match self {
            Part::ClassName(_) => true,
            Part::Raw(_) => false,
        }
    }
}

impl Header {
    /// Appends every classname referenced by this header, tagged with
    /// the header's location, in order of appearance.
    pub fn collect_classnames(&self, result: &mut Vec<(Vec<char>, usize)>)
        ensures
            collected_view(final(result)@) == collected_view(old(result)@)
                + header_classnames(header_view(*self)),
    {
        let ghost orig = result@;
        let mut i: usize = 0;
        while i < self.parts.len()
            invariant
                0 <= i <= self.parts@.len(),
                collected_view(result@) == collected_view(orig)
                    + parts_classnames(
                    header_view(*self).parts.take(i as int),
                    self.loc as nat,
                ),
            decreases self.parts@.len() - i,
        {
            let ghost all = header_view(*self).parts;
            let ghost before = result@;
            proof {
                lemma_parts_classnames_take_step(all, self.loc as nat, i as int);
                assert(all[i as int] == part_view(self.parts@[i as int]));
            }
            match &self.parts[i] {
                Part::ClassName(name) => {
                    let cloned = clone_chars(name);
                    proof {
                        assert(all[i as int] == PartV::ClassName(name@));
                        assert(cloned@ == name@);
                    }
                    result.push((cloned, self.loc));
                    proof {
                        assert(collected_view(result@) =~~= collected_view(before)
                            + seq![(name@, self.loc as nat)]);
                        assert(collected_view(result@) =~~= collected_view(orig)
                            + parts_classnames(all.take(i + 1), self.loc as nat));
                    }
                }
                Part::Raw(_) => {
                    proof {
                        assert(collected_view(result@) =~~= collected_view(orig)
                            + parts_classnames(all.take(i + 1), self.loc as nat));
                    }
                }
            }
            i += 1;
        }
        proof {
            let all = header_view(*self).parts;
            assert(all.take(all.len() as int) =~= all);
        }
    }

    /// Appends one character to the trailing raw part, or starts a new
    /// raw part if the header does not end in one.
    pub fn push_char(&mut self, ch: char)
        ensures
            final(self).loc == old(self).loc,
            final(self).at_rule == old(self).at_rule,
            header_view(*final(self)).parts == spec_push_char(
                header_view(*old(self)).parts,
                ch,
            ),
    {
        let n = self.parts.len();
        let mut extended = false;
        if n > 0 {
            match &self.parts[n - 1] {
                Part::Raw(_) => {
                    extended = true;
                }
                Part::ClassName(_) => {}
            }
        }
        if extended {
            let last = self.parts.remove(n - 1);
            match last {
                Part::Raw(mut r) => {
                    r.push(ch);
                    self.parts.push(Part::Raw(r));
                    proof {
                        let ops = header_view(*old(self)).parts;
                        let nps = header_view(*self).parts;
                        assert(nps =~~= spec_push_char(ops, ch));
                    }
                }
                Part::ClassName(c) => {
                    // unreachable: the last part was just seen to be raw
                    self.parts.push(Part::ClassName(c));
                    proof {
                        assert(false);
                    }
                }
            }
        } else {
            let mut single: Vec<char> = Vec::new();
            single.push(ch);
            self.parts.push(Part::Raw(single));
            proof {
                let ops = header_view(*old(self)).parts;
                let nps = header_view(*self).parts;
                assert(nps =~~= spec_push_char(ops, ch));
            }
        }
    }
}

/// What `push_char` does to a part sequence.
pub open spec fn spec_push_char(ps: Seq<PartV>, ch: char) -> Seq<PartV> {
    if ps.len() > 0 && (ps.last() is Raw) {
        ps.take(ps.len() - 1) + seq![PartV::Raw(ps.last()->Raw_0 + seq![ch])]
    } else {
        ps + seq![PartV::Raw(seq![ch])]
    }
}

/// The name sequences of a collected pair list.
pub open spec fn collected_view(v: Seq<(Vec<char>, usize)>) -> Seq<(Seq<char>, nat)> {
    v.map_values(|p: (Vec<char>, usize)| (p.0@, p.1 as nat))
}

proof fn lemma_parts_classnames_take_step(ps: Seq<PartV>, loc: nat, i: int)
    requires
        0 <= i < ps.len(),
    ensures
        parts_classnames(ps.take(i + 1), loc) == parts_classnames(ps.take(i), loc)
            + (match ps[i] {
            PartV::ClassName(n) => seq![(n, loc)],
            PartV::Raw(_) => Seq::<(Seq<char>, nat)>::empty(),
        }),
    decreases i,
{
    if i == 0 {
        assert(ps.take(1) =~= seq![ps[0]]);
        assert(ps.take(1).skip(1) =~= Seq::<PartV>::empty());
        assert(ps.take(0) =~= Seq::<PartV>::empty());
        assert(parts_classnames(seq![ps[0]], loc) =~= parts_classnames(ps.take(1), loc));
    } else {
        lemma_parts_classnames_take_step(ps.skip(1), loc, i - 1);
        assert(ps.take(i + 1).skip(1) =~= ps.skip(1).take(i));
        assert(ps.take(i).skip(1) =~= ps.skip(1).take(i - 1));
        assert(ps.take(i + 1)[0] == ps[0]);
        assert(ps.take(i)[0] == ps[0]);
        assert(ps.skip(1)[i - 1] == ps[i]);
    }
}

/// Clones a character vector.
pub fn clone_chars(v: &Vec<char>) -> (r: Vec<char>)
    ensures
        r@ == v@,
{
    let mut r: Vec<char> = Vec::new();
    let mut i: usize = 0;
    while i < v.len()
        invariant
            0 <= i <= v@.len(),
            r@ == v@.take(i as int),
        decreases v@.len() - i,
    {
        r.push(v[i]);
        proof {
            assert(r@ =~= v@.take(i + 1));
        }
        i += 1;
    }
    proof {
        assert(v@.take(v@.len() as int) =~= v@);
    }
    r
}

/// Step lemma for collecting over a rule sequence.
pub proof fn lemma_rules_classnames_take_step(rs: Seq<RuleV>, i: int)
    requires
        0 <= i < rs.len(),
    ensures
        rules_classnames(rs.take(i + 1)) == rules_classnames(rs.take(i)) + rule_classnames(
            rs[i],
        ),
    decreases i,
{
    if i == 0 {
        assert(rs.take(1) =~= seq![rs[0]]);
        assert(rs.take(1).skip(1) =~= Seq::<RuleV>::empty());
        assert(rs.take(0) =~= Seq::<RuleV>::empty());
        assert(rules_classnames(seq![rs[0]]) == rule_classnames(rs[0]) + rules_classnames(
            Seq::<RuleV>::empty(),
        ));
        assert(rules_classnames(rs.take(0)) + rule_classnames(rs[0]) =~~= rule_classnames(
            rs[0],
        ) + rules_classnames(Seq::<RuleV>::empty()));
    } else {
        lemma_rules_classnames_take_step(rs.skip(1), i - 1);
        assert(rs.take(i + 1).skip(1) =~= rs.skip(1).take(i));
        assert(rs.take(i).skip(1) =~= rs.skip(1).take(i - 1));
        assert(rs.take(i + 1)[0] == rs[0]);
        assert(rs.take(i)[0] == rs[0]);
        assert(rs.skip(1)[i - 1] == rs[i]);
        assert(rules_classnames(rs.take(i + 1)) == rule_classnames(rs[0]) + rules_classnames(
            rs.skip(1).take(i),
        ));
        assert(rules_classnames(rs.take(i)) == rule_classnames(rs[0]) + rules_classnames(
            rs.skip(1).take(i - 1),
        ));
        assert(rules_classnames(rs.take(i + 1)) =~~= rules_classnames(rs.take(i))
            + rule_classnames(rs[i]));
    }
}

impl Rule {
    /// Appends every classname referenced in this rule, including
    /// references nested inside at-rule bodies, in order of
    /// appearance.
    pub fn collect_classnames(&self, result: &mut Vec<(Vec<char>, usize)>)
        ensures
            collected_view(final(result)@) == collected_view(old(result)@) + rule_classnames(
                rule_view(*self),
            ),
        decreases *self,
    {
        let ghost orig = result@;
        self.header.collect_classnames(result);
        self.body.collect_classnames(result);
        proof {
            assert(collected_view(result@) =~~= collected_view(orig) + rule_classnames(
                rule_view(*self),
            ));
        }
    }
}

impl RuleBody {
    /// Appends the classnames of a rule body: nothing for a normal
    /// entry list, the classnames of every child for an at-rule body.
    pub fn collect_classnames(&self, result: &mut Vec<(Vec<char>, usize)>)
        ensures
            collected_view(final(result)@) == collected_view(old(result)@) + body_classnames(
                body_view(*self),
            ),
        decreases *self,
    {
        let ghost orig = result@;
        match self {
            RuleBody::Normal { .. } => {
                proof {
                    assert(collected_view(result@) =~~= collected_view(orig) + body_classnames(
                        body_view(*self),
                    ));
                }
            }
            RuleBody::AtRule { children } => {
                let ghost cv = rules_view(children@);
                let mut i: usize = 0;
                proof {
                    lemma_rules_view_len(children@);
                    assert(cv.take(0) =~= Seq::<RuleV>::empty());
                    assert(collected_view(result@) =~~= collected_view(orig)
                        + rules_classnames(cv.take(0)));
                }
                while i < children.len()
                    invariant
                        (*self) is AtRule,
                        *children == (*self)->AtRule_children,
                        0 <= i <= children@.len(),
                        cv == rules_view(children@),
                        cv.len() == children@.len(),
                        collected_view(result@) == collected_view(orig) + rules_classnames(
                            cv.take(i as int),
                        ),
                    decreases children@.len() - i,
                {
                    proof {
                        lemma_rules_view_index(children@, i as int);
                        let c = (*self)->AtRule_children;
                        assert(decreases_to!(*self => c));
                        assert(decreases_to!(c => c@));
                        assert(decreases_to!(c@ => c@[i as int]));
                        assert(decreases_to!(*self => children@[i as int]));
                    }
                    children[i].collect_classnames(result);
                    proof {
                        lemma_rules_classnames_take_step(cv, i as int);
                        assert(collected_view(result@) =~~= collected_view(orig)
                            + rules_classnames(cv.take(i + 1)));
                    }
                    i += 1;
                }
                proof {
                    assert(cv.take(cv.len() as int) =~= cv);
                }
            }
        }
    }
}

impl RuleList {
    /// Appends every classname referenced anywhere in the list, in
    /// order of appearance.
    pub fn collect_classnames(&self, result: &mut Vec<(Vec<char>, usize)>)
        ensures
            collected_view(final(result)@) == collected_view(old(result)@) + rules_classnames(
                rules_view(self.rules@),
            ),
    {
        let ghost orig = result@;
        let ghost cv = rules_view(self.rules@);
        let mut i: usize = 0;
        proof {
            lemma_rules_view_len(self.rules@);
            assert(cv.take(0) =~= Seq::<RuleV>::empty());
            assert(collected_view(result@) =~~= collected_view(orig) + rules_classnames(
                cv.take(0),
            ));
        }
        while i < self.rules.len()
            invariant
                0 <= i <= self.rules@.len(),
                cv == rules_view(self.rules@),
                cv.len() == self.rules@.len(),
                collected_view(result@) == collected_view(orig) + rules_classnames(
                    cv.take(i as int),
                ),
            decreases self.rules@.len() - i,
        {
            proof {
                lemma_rules_view_index(self.rules@, i as int);
            }
            self.rules[i].collect_classnames(result);
            proof {
                lemma_rules_classnames_take_step(cv, i as int);
                assert(collected_view(result@) =~~= collected_view(orig) + rules_classnames(
                    cv.take(i + 1),
                ));
            }
            i += 1;
        }
        proof {
            assert(cv.take(cv.len() as int) =~= cv);
        }
    }
}

impl Selector {
    /// Appends every classname referenced by the wrapped header.
    pub fn collect_classnames(&self, result: &mut Vec<(Vec<char>, usize)>)
        ensures
            collected_view(final(result)@) == collected_view(old(result)@) + header_classnames(
                header_view(self.header),
            ),
    {
        self.header.collect_classnames(result);
    }
}

} // verus!
