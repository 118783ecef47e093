//! The compiled artifact of one style block.
//!
//! Compiling parses the source, resolves the classname table and
//! assembles the output template.  The result carries a caller-chosen
//! registration identity, the template with its parameters, and the
//! classname table, and is everything the runtime cache needs.

use vstd::prelude::*;

use crate::ast::{rules_classnames, style_view};
use crate::output::{Output, output_view, rules_out, param_view};
use crate::parser::{ParseError, spec_parse_style};
use crate::render::{dec_digits, params_fit, push_dec, spec_render};
use crate::table::{
    ClassnameTable, lemma_pairs_model_dom, pairs_model, table_model, table_wf,
};

verus! {

/// A compiled style block: a registration identity, the assembled
/// template and parameters, and the classname table whose slots the
/// parameters reference.
#[derive(Debug)]
pub struct CompiledStyle {
    pub id: u64,
    pub output: Output,
}

/// Well-formedness of a compiled style: the table is well formed and
/// every slot parameter points at one of its names.
pub open spec fn compiled_wf(c: CompiledStyle) -> bool {
    &&& table_wf(c.output.map)
    &&& crate::output::output_slots_ok(c.output)
}

/// The number of distinct classnames of a compiled style.
pub open spec fn compiled_count(c: CompiledStyle) -> nat {
    c.output.map.names@.len()
}

/// The text a compiled style renders for a given slot base.
pub open spec fn compiled_css(c: CompiledStyle, start: u64) -> Seq<char> {
    spec_render(
        c.output.format_str@,
        c.output.params@.map_values(|p: crate::output::Param| param_view(p)),
        start,
    )
}

/// When the counter window fits, every slot parameter fits.
pub proof fn lemma_compiled_params_fit(c: CompiledStyle, start: u64)
    requires
        compiled_wf(c),
        start + compiled_count(c) <= u64::MAX,
    ensures
        params_fit(c.output.params@.map_values(|p: crate::output::Param| param_view(p)), start),
{
    let pv = c.output.params@.map_values(|p: crate::output::Param| param_view(p));
    assert forall|j: int|
        0 <= j < pv.len() implies ((#[trigger] pv[j]) is Slot ==> start + pv[j]->Slot_0
            <= u64::MAX) by {
        assert(pv[j] == param_view(c.output.params@[j]));
        assert(param_view(c.output.params@[j]) is Slot ==> param_view(
            c.output.params@[j],
        )->Slot_0 < c.output.map.names@.len());
    }
}

/// Compiles one style block: parse, resolve the classname table, and
/// assemble the output.  `id` is the process-unique identity under
/// which the runtime cache deduplicates this style.
pub fn compile_style(id: u64, src: &Vec<char>) -> (r: Result<CompiledStyle, ParseError>)
    ensures
        match r {
            Ok(c) => {
                &&& spec_parse_style(src@) is Some
                &&& compiled_wf(c)
                &&& c.id == id
                &&& table_model(c.output.map) == pairs_model(
                    rules_classnames(spec_parse_style(src@)->Some_0.rules),
                )
                &&& output_view(c.output) == rules_out(
                    spec_parse_style(src@)->Some_0.rules,
                    c.output.map,
                )
            },
            Err(_) => spec_parse_style(src@) is None,
        },
{
    let style = match crate::ast::Style::parse(src) {
        Err(err) => {
            return Err(err);
        },
        Ok(s) => s,
    };
    let table = style.rules.resolve();
    let ghost pairs = rules_classnames(crate::ast::rules_view(style.rules.rules@));
    proof {
        lemma_pairs_model_dom(pairs);
        assert forall|k: int|
            0 <= k < pairs.len() implies crate::table::table_contains(
            table,
            (#[trigger] pairs[k]).0,
        ) by {
            assert(pairs_model(pairs).dom().contains(pairs[k].0));
            assert(table_model(table).dom().contains(pairs[k].0));
        }
    }
    let mut out = Output::new(table);
    style.rules.append(&mut out);
    let c = CompiledStyle { id, output: out };
    proof {
        assert(output_view(c.output) =~~= rules_out(
            spec_parse_style(src@)->Some_0.rules,
            c.output.map,
        ));
        assert(crate::output::output_slots_ok(c.output));
    }
    Ok(c)
}

/// The runtime classname for a slot: `css-` followed by the decimal
/// value of `start + slot`.
pub open spec fn css_name(start: u64, i: int) -> Seq<char> {
    seq!['c', 's', 's', '-'] + dec_digits((start + i) as nat)
}

/// Clones a list of names.
pub fn clone_names(v: &Vec<Vec<char>>) -> (r: Vec<Vec<char>>)
    ensures
        r@.len() == v@.len(),
        forall|i: int| 0 <= i < v@.len() ==> r@[i]@ == v@[i]@,
{
    let mut r: Vec<Vec<char>> = Vec::new();
    let mut i: usize = 0;
    while i < v.len()
        invariant
            0 <= i <= v@.len(),
            r@.len() == i,
            forall|k: int| 0 <= k < i ==> r@[k]@ == v@[k]@,
        decreases v@.len() - i,
    {
        r.push(crate::ast::clone_chars(&v[i]));
        i += 1;
    }
    r
}

/// Builds the constructor's result for a list of classnames: each
/// name is bound to the string `css-` followed by `start + slot`.
pub fn construct_classnames(names: &Vec<Vec<char>>, start: u64) -> (r: Vec<
    (Vec<char>, Vec<char>),
>)
    requires
        start + names@.len() <= u64::MAX,
    ensures
        r@.len() == names@.len(),
        forall|i: int|
            0 <= i < r@.len() ==> (#[trigger] r@[i]).0@ == names@[i]@ && r@[i].1@ == css_name(
                start,
                i,
            ),
{
    let mut r: Vec<(Vec<char>, Vec<char>)> = Vec::new();
    let mut i: usize = 0;
    while i < names.len()
        invariant
            0 <= i <= names@.len(),
            start + names@.len() <= u64::MAX,
            r@.len() == i,
            forall|k: int|
                0 <= k < i ==> (#[trigger] r@[k]).0@ == names@[k]@ && r@[k].1@ == css_name(
                    start,
                    k,
                ),
        decreases names@.len() - i,
    {
        let name = crate::ast::clone_chars(&names[i]);
        let mut value: Vec<char> = Vec::new();
        value.push('c');
        value.push('s');
        value.push('s');
        value.push('-');
        push_dec(&mut value, start + i as u64);
        proof {
            assert(value@ =~= css_name(start, i as int));
        }
        r.push((name, value));
        i += 1;
    }
    r
}

impl CompiledStyle {
    /// The constructor routine: binds each classname, in slot order,
    /// to its final runtime name `css-{start + slot}`.
    pub fn construct(&self, start: u64) -> (r: Vec<(Vec<char>, Vec<char>)>)
        requires
            start + compiled_count(*self) <= u64::MAX,
        ensures
            r@.len() == compiled_count(*self),
            forall|i: int|
                0 <= i < r@.len() ==> (#[trigger] r@[i]).0@ == self.output.map.names@[i]@
                    && r@[i].1@ == css_name(start, i),
    {
        construct_classnames(&self.output.map.names, start)
    }

    /// The number of distinct classnames this style declares.
    pub fn class_count(&self) -> (n: u64)
        ensures
            n as nat == compiled_count(*self),
    {
        self.output.map.len() as u64
    }
}

} // verus!
