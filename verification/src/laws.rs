//! Laws of the compiler, stated and proved over the public
//! specifications.
//!
//! Compilation is deterministic: everything a compile produces is a
//! pure spec function of the source text, and the classname table is
//! determined by the *set* of distinct classnames alone.  Classname
//! collection is closed under at-rule nesting: a reference at any
//! depth reaches the collected list.

use vstd::prelude::*;

use crate::ast::{RuleBodyV, RuleV, body_classnames, rule_classnames, rules_classnames};
use crate::compile::CompiledStyle;
use crate::order::{lemma_lex_lt_trichotomy, lex_lt};
use crate::output::{body_out, part_out, parts_out, rule_out, rules_out};
use crate::table::{
    ClassnameTable, lemma_table_index_unique, pairs_model, table_contains, table_index,
    table_model, table_names, table_wf,
};

verus! {

// ---------------------------------------------------------------------------
// Sorted name lists are unique for their set
// ---------------------------------------------------------------------------

/// Two strictly sorted name lists with the same members are equal:
/// the sorted order leaves no freedom.
pub proof fn lemma_sorted_names_unique(a: Seq<Seq<char>>, b: Seq<Seq<char>>)
    requires
        forall|i: int, j: int| 0 <= i < j < a.len() ==> lex_lt(a[i], a[j]),
        forall|i: int, j: int| 0 <= i < j < b.len() ==> lex_lt(b[i], b[j]),
        forall|n: Seq<char>| a.contains(n) <==> b.contains(n),
    ensures
        a == b,
    decreases a.len(),
{
    if a.len() == 0 {
        if b.len() > 0 {
            assert(b.contains(b[0]));
            assert(a.contains(b[0]));
            assert(false);
        }
        assert(a =~= b);
    } else if b.len() == 0 {
        assert(a.contains(a[0]));
        assert(b.contains(a[0]));
        assert(false);
    } else {
        assert(a.contains(a[0]));
        assert(b.contains(a[0]));
        let ib = choose|i: int| 0 <= i < b.len() && b[i] == a[0];
        assert(b.contains(b[0]));
        assert(a.contains(b[0]));
        let ja = choose|i: int| 0 <= i < a.len() && a[i] == b[0];
        if a[0] != b[0] {
            assert(ib >= 1);
            assert(lex_lt(b[0], b[ib]));
            assert(ja >= 1);
            assert(lex_lt(a[0], a[ja]));
            lemma_lex_lt_trichotomy(a[0], b[0]);
            assert(false);
        }
        let at = a.skip(1);
        let bt = b.skip(1);
        assert forall|i: int, j: int| 0 <= i < j < at.len() implies lex_lt(at[i], at[j]) by {
            assert(at[i] == a[i + 1]);
            assert(at[j] == a[j + 1]);
        }
        assert forall|i: int, j: int| 0 <= i < j < bt.len() implies lex_lt(bt[i], bt[j]) by {
            assert(bt[i] == b[i + 1]);
            assert(bt[j] == b[j + 1]);
        }
        assert forall|n: Seq<char>| at.contains(n) <==> bt.contains(n) by {
            lemma_lex_lt_trichotomy(a[0], a[0]);
            if at.contains(n) {
                let i = choose|i: int| 0 <= i < at.len() && at[i] == n;
                assert(a[i + 1] == n);
                assert(lex_lt(a[0], n));
                assert(a.contains(n));
                assert(b.contains(n));
                let k = choose|k: int| 0 <= k < b.len() && b[k] == n;
                assert(n != b[0]);
                assert(k >= 1);
                assert(bt[k - 1] == n);
                assert(bt.contains(n));
            }
            if bt.contains(n) {
                let i = choose|i: int| 0 <= i < bt.len() && bt[i] == n;
                assert(b[i + 1] == n);
                assert(lex_lt(b[0], n));
                assert(b.contains(n));
                assert(a.contains(n));
                let k = choose|k: int| 0 <= k < a.len() && a[k] == n;
                assert(n != a[0]);
                assert(k >= 1);
                assert(at[k - 1] == n);
                assert(at.contains(n));
            }
        }
        lemma_sorted_names_unique(at, bt);
        assert forall|k: int| 0 <= k < a.len() implies a[k] == b[k] by {
            if k > 0 {
                assert(a[k] == at[k - 1]);
                assert(b[k] == bt[k - 1]);
            }
        }
        assert(a =~= b);
    }
}

/// Two well-formed tables with the same model are the same table:
/// name lists and recorded locations agree.
pub proof fn lemma_table_unique(t1: ClassnameTable, t2: ClassnameTable)
    requires
        table_wf(t1),
        table_wf(t2),
        table_model(t1) == table_model(t2),
    ensures
        table_names(t1) == table_names(t2),
        t1.locs@ == t2.locs@,
{
    let a = table_names(t1);
    let b = table_names(t2);
    assert forall|n: Seq<char>| a.contains(n) <==> b.contains(n) by {
        if a.contains(n) {
            let i = choose|i: int| 0 <= i < a.len() && a[i] == n;
            assert(t1.names@[i]@ == n);
            assert(table_contains(t1, n));
            assert(table_model(t1).dom().contains(n));
            assert(table_contains(t2, n));
            let j = choose|j: int| 0 <= j < t2.names@.len() && t2.names@[j]@ == n;
            assert(b[j] == n);
            assert(b.contains(n));
        }
        if b.contains(n) {
            let i = choose|i: int| 0 <= i < b.len() && b[i] == n;
            assert(t2.names@[i]@ == n);
            assert(table_contains(t2, n));
            assert(table_model(t2).dom().contains(n));
            assert(table_contains(t1, n));
            let j = choose|j: int| 0 <= j < t1.names@.len() && t1.names@[j]@ == n;
            assert(a[j] == n);
            assert(a.contains(n));
        }
    }
    lemma_sorted_names_unique(a, b);
    assert forall|i: int| 0 <= i < t1.locs@.len() implies t1.locs@[i] == t2.locs@[i] by {
        let n = t1.names@[i]@;
        lemma_table_index_unique(t1, i);
        assert(a[i] == t1.names@[i]@);
        assert(a.len() == b.len());
        assert(b[i] == t2.names@[i]@);
        assert(t2.names@[i]@ == n);
        lemma_table_index_unique(t2, i);
        assert(table_model(t1)[n] == t1.locs@[i] as nat);
        assert(table_model(t2)[n] == t2.locs@[i] as nat);
    }
    assert(t1.locs@ =~= t2.locs@);
}

// ---------------------------------------------------------------------------
// Assembly depends on the table only through its name list
// ---------------------------------------------------------------------------

/// Tables with the same name list assign the same slot to a held
/// name, so a covered part assembles the same either way.
pub proof fn lemma_part_out_agree(p: crate::ast::PartV, t1: ClassnameTable, t2: ClassnameTable)
    requires
        table_wf(t1),
        table_wf(t2),
        table_names(t1) == table_names(t2),
        (p is ClassName) ==> table_contains(t1, p->ClassName_0),
    ensures
        part_out(p, t1) == part_out(p, t2),
{
    match p {
        crate::ast::PartV::Raw(_) => {},
        crate::ast::PartV::ClassName(n) => {
            assert(table_contains(t1, n));
            let i = table_index(t1, n);
            assert(0 <= i < t1.names@.len() && t1.names@[i]@ == n);
            assert(table_names(t1)[i] == n);
            assert(table_names(t1).len() == table_names(t2).len());
            assert(table_names(t1).len() == t1.names@.len());
            assert(table_names(t2).len() == t2.names@.len());
            assert(0 <= i < t2.names@.len());
            assert(table_names(t2)[i] == t2.names@[i]@);
            assert(t2.names@[i]@ == n);
            lemma_table_index_unique(t1, i);
            lemma_table_index_unique(t2, i);
            assert(part_out(p, t1) =~~= part_out(p, t2));
        },
    }
}

/// Covered part lists assemble the same over agreeing tables.
pub proof fn lemma_parts_out_agree(
    ps: Seq<crate::ast::PartV>,
    loc: nat,
    t1: ClassnameTable,
    t2: ClassnameTable,
)
    requires
        table_wf(t1),
        table_wf(t2),
        table_names(t1) == table_names(t2),
        crate::output::pairs_covered(crate::ast::parts_classnames(ps, loc), t1),
    ensures
        parts_out(ps, t1) == parts_out(ps, t2),
    decreases ps.len(),
{
    if ps.len() > 0 {
        let cn = crate::ast::parts_classnames(ps, loc);
        if ps[0] is ClassName {
            assert(cn[0] == (ps[0]->ClassName_0, loc));
        }
        lemma_part_out_agree(ps[0], t1, t2);
        let rest = crate::ast::parts_classnames(ps.skip(1), loc);
        let head = crate::ast::parts_classnames(ps.take(1), loc);
        assert forall|k: int|
            0 <= k < rest.len() implies table_contains(t1, (#[trigger] rest[k]).0) by {
            let headlen: int = if ps[0] is ClassName {
                1
            } else {
                0
            };
            assert(cn[headlen + k] == rest[k]);
        }
        lemma_parts_out_agree(ps.skip(1), loc, t1, t2);
        assert(parts_out(ps, t1) =~~= parts_out(ps, t2));
    }
}

/// Covered rules assemble the same over agreeing tables.
pub proof fn lemma_rule_out_agree(r: RuleV, t1: ClassnameTable, t2: ClassnameTable)
    requires
        table_wf(t1),
        table_wf(t2),
        table_names(t1) == table_names(t2),
        crate::output::pairs_covered(rule_classnames(r), t1),
    ensures
        rule_out(r, t1) == rule_out(r, t2),
    decreases r,
{
    let hc = crate::ast::header_classnames(r.header);
    let bc = body_classnames(r.body);
    assert forall|k: int| 0 <= k < hc.len() implies table_contains(t1, (#[trigger] hc[k]).0) by {
        assert(rule_classnames(r)[k] == hc[k]);
    }
    assert forall|k: int| 0 <= k < bc.len() implies table_contains(t1, (#[trigger] bc[k]).0) by {
        assert(rule_classnames(r)[hc.len() + k] == bc[k]);
    }
    lemma_parts_out_agree(r.header.parts, r.header.loc, t1, t2);
    lemma_body_out_agree(r.body, t1, t2);
    assert(rule_out(r, t1) =~~= rule_out(r, t2));
}

/// Covered rule bodies assemble the same over agreeing tables.
pub proof fn lemma_body_out_agree(b: RuleBodyV, t1: ClassnameTable, t2: ClassnameTable)
    requires
        table_wf(t1),
        table_wf(t2),
        table_names(t1) == table_names(t2),
        crate::output::pairs_covered(body_classnames(b), t1),
    ensures
        body_out(b, t1) == body_out(b, t2),
    decreases b,
{
    match b {
        RuleBodyV::Normal { .. } => {},
        RuleBodyV::AtRule { children } => {
            lemma_rules_out_agree(children, t1, t2);
        },
    }
}

/// Covered rule lists assemble the same over agreeing tables.
pub proof fn lemma_rules_out_agree(rs: Seq<RuleV>, t1: ClassnameTable, t2: ClassnameTable)
    requires
        table_wf(t1),
        table_wf(t2),
        table_names(t1) == table_names(t2),
        crate::output::pairs_covered(rules_classnames(rs), t1),
    ensures
        rules_out(rs, t1) == rules_out(rs, t2),
    decreases rs,
{
    if rs.len() > 0 {
        let head = rule_classnames(rs[0]);
        let rest = rules_classnames(rs.skip(1));
        assert forall|k: int|
            0 <= k < head.len() implies table_contains(t1, (#[trigger] head[k]).0) by {
            assert(rules_classnames(rs)[k] == head[k]);
        }
        assert forall|k: int|
            0 <= k < rest.len() implies table_contains(t1, (#[trigger] rest[k]).0) by {
            assert(rules_classnames(rs)[head.len() + k] == rest[k]);
        }
        lemma_rule_out_agree(rs[0], t1, t2);
        lemma_rules_out_agree(rs.skip(1), t1, t2);
        assert(rules_out(rs, t1) =~~= rules_out(rs, t2));
    }
}

// ---------------------------------------------------------------------------
// Determinism of compilation
// ---------------------------------------------------------------------------

/// Compiling the same source twice yields the same artifact: the
/// classname tables hold the same names at the same slots with the
/// same locations, and the templates are byte-identical with the same
/// parameters.  The two compiles are described by the contract of
/// compilation: a well-formed, covered table whose model is the
/// collected classnames, and the output assembled over it.
pub proof fn lemma_compile_deterministic(rules: Seq<RuleV>, c1: CompiledStyle, c2: CompiledStyle)
    requires
        crate::compile::compiled_wf(c1),
        crate::compile::compiled_wf(c2),
        table_model(c1.output.map) == pairs_model(rules_classnames(rules)),
        table_model(c2.output.map) == pairs_model(rules_classnames(rules)),
        crate::output::output_view(c1.output) == rules_out(rules, c1.output.map),
        crate::output::output_view(c2.output) == rules_out(rules, c2.output.map),
    ensures
        table_names(c1.output.map) == table_names(c2.output.map),
        c1.output.map.locs@ == c2.output.map.locs@,
        c1.output.format_str@ == c2.output.format_str@,
        crate::output::output_view(c1.output) == crate::output::output_view(c2.output),
{
    lemma_table_unique(c1.output.map, c2.output.map);
    let cn = rules_classnames(rules);
    crate::table::lemma_pairs_model_dom(cn);
    assert forall|k: int|
        0 <= k < cn.len() implies table_contains(c1.output.map, (#[trigger] cn[k]).0) by {
        assert(pairs_model(cn).dom().contains(cn[k].0));
        assert(table_model(c1.output.map).dom().contains(cn[k].0));
    }
    lemma_rules_out_agree(rules, c1.output.map, c2.output.map);
}

/// Slot assignment is a pure function of the set of distinct
/// classnames: two well-formed tables holding the same names assign
/// every name the same slot, whatever order the names were collected
/// in and wherever they occurred.
pub proof fn lemma_slots_from_set_alone(t1: ClassnameTable, t2: ClassnameTable)
    requires
        table_wf(t1),
        table_wf(t2),
        forall|n: Seq<char>| table_contains(t1, n) <==> table_contains(t2, n),
    ensures
        table_names(t1) == table_names(t2),
        forall|n: Seq<char>|
            table_contains(t1, n) ==> table_index(t1, n) == table_index(t2, n),
{
    let a = table_names(t1);
    let b = table_names(t2);
    assert forall|n: Seq<char>| a.contains(n) <==> b.contains(n) by {
        if a.contains(n) {
            let i = choose|i: int| 0 <= i < a.len() && a[i] == n;
            assert(t1.names@[i]@ == n);
            assert(table_contains(t1, n));
            let j = choose|j: int| 0 <= j < t2.names@.len() && t2.names@[j]@ == n;
            assert(b[j] == n);
            assert(b.contains(n));
        }
        if b.contains(n) {
            let i = choose|i: int| 0 <= i < b.len() && b[i] == n;
            assert(t2.names@[i]@ == n);
            assert(table_contains(t2, n));
            let j = choose|j: int| 0 <= j < t1.names@.len() && t1.names@[j]@ == n;
            assert(a[j] == n);
            assert(a.contains(n));
        }
    }
    lemma_sorted_names_unique(a, b);
    assert forall|n: Seq<char>|
        table_contains(t1, n) implies table_index(t1, n) == table_index(t2, n) by {
        let i = table_index(t1, n);
        assert(0 <= i < t1.names@.len() && t1.names@[i]@ == n);
        assert(a[i] == n);
        assert(a.len() == b.len());
        assert(a.len() == t1.names@.len());
        assert(b.len() == t2.names@.len());
        assert(b[i] == t2.names@[i]@);
        assert(t2.names@[i]@ == n);
        lemma_table_index_unique(t2, i);
    }
}

// ---------------------------------------------------------------------------
// Closure of classname collection
// ---------------------------------------------------------------------------

/// Classname collection reaches through at-rule nesting: a classname
/// referenced by a child of an at-rule body occurs in the collected
/// list of the enclosing rule list.
pub proof fn lemma_collect_closure(rs: Seq<RuleV>, i: int, j: int, k: int)
    requires
        0 <= i < rs.len(),
        rs[i].body is AtRule,
        0 <= j < rs[i].body->AtRule_children.len(),
        0 <= k < rule_classnames(rs[i].body->AtRule_children[j]).len(),
    ensures
        exists|m: int|
            0 <= m < rules_classnames(rs).len() && rules_classnames(rs)[m] == rule_classnames(
                rs[i].body->AtRule_children[j],
            )[k],
{
    let children = rs[i].body->AtRule_children;
    crate::output::lemma_rules_classnames_sub(children, j);
    let off1 = rules_classnames(children.take(j)).len();
    assert(rules_classnames(children)[off1 + k] == rule_classnames(children[j])[k]);
    let hc = crate::ast::header_classnames(rs[i].header);
    assert(body_classnames(rs[i].body) == rules_classnames(children));
    assert(rule_classnames(rs[i])[hc.len() + off1 + k] == rules_classnames(children)[off1
        + k]);
    crate::output::lemma_rules_classnames_sub(rs, i);
    let off2 = rules_classnames(rs.take(i)).len();
    assert(rules_classnames(rs)[off2 + hc.len() + off1 + k] == rule_classnames(rs[i])[hc.len()
        + off1 + k]);
}

} // verus!
