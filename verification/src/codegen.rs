//! Emission of host-language source code for a compiled style.
//!
//! A style block with a signature expands to two items: a struct
//! holding one `String` field per distinct classname, and an
//! implementation whose `generate` writes the assembled template with
//! its parameters and advances the counter by the class count, and
//! whose `new` binds each field to `format!("css-{}", start + slot)`.

use vstd::prelude::*;

use vstd::string::StrSliceExecFns;

use crate::ast::{Signature, SignatureV, Style, rules_classnames, signature_view, style_view};
use crate::output::{Output, OutV, Param, ParamV, output_view, param_view};
use crate::parser::{ParseError, ParseErrorKind, spec_parse_style};
use crate::render::dec_digits;
use crate::table::{pairs_model, table_model, table_names, table_wf};

verus! {

// ---------------------------------------------------------------------------
// Text helpers
// ---------------------------------------------------------------------------

/// Appends the characters of a text fragment.
pub fn push_text(out: &mut Vec<char>, s: &str)
    ensures
        final(out)@ == old(out)@ + s@,
{
    let n = s.unicode_len();
    let mut i: usize = 0;
    while i < n
        invariant
            0 <= i <= n,
            n == s@.len(),
            out@ == old(out)@ + s@.take(i as int),
        decreases n - i,
    {
        out.push(s.get_char(i));
        proof {
            assert(out@ =~= old(out)@ + s@.take(i + 1));
        }
        i += 1;
    }
    proof {
        assert(s@.take(s@.len() as int) =~= s@);
    }
}

/// Appends a name (a classname or identifier held by the library).
pub fn push_name(out: &mut Vec<char>, s: &Vec<char>)
    ensures
        final(out)@ == old(out)@ + s@,
{
    let mut i: usize = 0;
    while i < s.len()
        invariant
            0 <= i <= s@.len(),
            out@ == old(out)@ + s@.take(i as int),
        decreases s@.len() - i,
    {
        out.push(s[i]);
        proof {
            assert(out@ =~= old(out)@ + s@.take(i + 1));
        }
        i += 1;
    }
    proof {
        assert(s@.take(s@.len() as int) =~= s@);
    }
}

/// Escapes text for inclusion in a double-quoted source literal.
pub open spec fn str_lit(s: Seq<char>) -> Seq<char>
    decreases s.len(),
{
    if s.len() == 0 {
        Seq::empty()
    } else {
        (if s[0] == '"' {
            seq!['\\', '"']
        } else if s[0] == '\\' {
            seq!['\\', '\\']
        } else if s[0] == '\n' {
            seq!['\\', 'n']
        } else {
            seq![s[0]]
        }) + str_lit(s.skip(1))
    }
}

proof fn lemma_str_lit_take_step(s: Seq<char>, i: int)
    requires
        0 <= i < s.len(),
    ensures
        str_lit(s.take(i + 1)) == str_lit(s.take(i)) + (if s[i] == '"' {
            seq!['\\', '"']
        } else if s[i] == '\\' {
            seq!['\\', '\\']
        } else if s[i] == '\n' {
            seq!['\\', 'n']
        } else {
            seq![s[i]]
        }),
    decreases i,
{
    if i == 0 {
        assert(s.take(1) =~= seq![s[0]]);
        assert(s.take(1).skip(1) =~= Seq::<char>::empty());
        assert(s.take(0) =~= Seq::<char>::empty());
        assert(str_lit(s.take(1)) =~= str_lit(s.take(0)) + (if s[0] == '"' {
            seq!['\\', '"']
        } else if s[0] == '\\' {
            seq!['\\', '\\']
        } else if s[0] == '\n' {
            seq!['\\', 'n']
        } else {
            seq![s[0]]
        }));
    } else {
        lemma_str_lit_take_step(s.skip(1), i - 1);
        assert(s.take(i + 1).skip(1) =~= s.skip(1).take(i));
        assert(s.take(i).skip(1) =~= s.skip(1).take(i - 1));
        assert(s.take(i + 1)[0] == s[0]);
        assert(s.take(i)[0] == s[0]);
        assert(s.skip(1)[i - 1] == s[i]);
        assert(str_lit(s.take(i + 1)) =~= str_lit(s.take(i)) + (if s[i] == '"' {
            seq!['\\', '"']
        } else if s[i] == '\\' {
            seq!['\\', '\\']
        } else if s[i] == '\n' {
            seq!['\\', 'n']
        } else {
            seq![s[i]]
        }));
    }
}

/// Appends text escaped as a source literal.
pub fn push_str_lit(out: &mut Vec<char>, s: &Vec<char>)
    ensures
        final(out)@ == old(out)@ + str_lit(s@),
{
    let mut i: usize = 0;
    proof {
        assert(s@.take(0) =~= Seq::<char>::empty());
    }
    while i < s.len()
        invariant
            0 <= i <= s@.len(),
            out@ == old(out)@ + str_lit(s@.take(i as int)),
        decreases s@.len() - i,
    {
        let c = s[i];
        if c == '"' {
            out.push('\\');
            out.push('"');
        } else if c == '\\' {
            out.push('\\');
            out.push('\\');
        } else if c == '\n' {
            out.push('\\');
            out.push('n');
        } else {
            out.push(c);
        }
        proof {
            lemma_str_lit_take_step(s@, i as int);
            assert(out@ =~= old(out)@ + str_lit(s@.take(i + 1)));
        }
        i += 1;
    }
    proof {
        assert(s@.take(s@.len() as int) =~= s@);
    }
}

// ---------------------------------------------------------------------------
// Parameters
// ---------------------------------------------------------------------------

/// The source text of one parameter of the big `write!`: a slot
/// becomes `start + <slot>u64`, a literal becomes a quoted string,
/// an opaque expression is pasted verbatim.
pub open spec fn param_src(p: ParamV) -> Seq<char> {
    ", "@ + (match p {
        ParamV::Slot(k) => "start + "@ + dec_digits(k as nat) + "u64"@,
        ParamV::Lit(s) => "\""@ + str_lit(s) + "\""@,
        ParamV::Expr(s) => s,
    })
}

/// The source text of a parameter list.
pub open spec fn params_src(ps: Seq<ParamV>) -> Seq<char>
    decreases ps.len(),
{
    if ps.len() == 0 {
        Seq::empty()
    } else {
        param_src(ps[0]) + params_src(ps.skip(1))
    }
}

proof fn lemma_params_src_take_step(ps: Seq<ParamV>, i: int)
    requires
        0 <= i < ps.len(),
    ensures
        params_src(ps.take(i + 1)) == params_src(ps.take(i)) + param_src(ps[i]),
    decreases i,
{
    if i == 0 {
        assert(ps.take(1) =~= seq![ps[0]]);
        assert(ps.take(1).skip(1) =~= Seq::<ParamV>::empty());
        assert(ps.take(0) =~= Seq::<ParamV>::empty());
        assert(params_src(ps.take(1)) =~= params_src(ps.take(0)) + param_src(ps[0]));
    } else {
        lemma_params_src_take_step(ps.skip(1), i - 1);
        assert(ps.take(i + 1).skip(1) =~= ps.skip(1).take(i));
        assert(ps.take(i).skip(1) =~= ps.skip(1).take(i - 1));
        assert(ps.take(i + 1)[0] == ps[0]);
        assert(ps.take(i)[0] == ps[0]);
        assert(ps.skip(1)[i - 1] == ps[i]);
        assert(params_src(ps.take(i + 1)) =~= params_src(ps.take(i)) + param_src(ps[i]));
    }
}

impl Output {
    /// The one big `write!` of the generated `generate` body: the
    /// whole format template as one literal, then every parameter.
    pub fn to_source(&self) -> (r: Vec<char>)
        ensures
            r@ == output_src(output_view(*self)),
    {
        let mut out: Vec<char> = Vec::new();
        push_text(&mut out, "let _ = write!(css, \"");
        push_str_lit(&mut out, &self.format_str);
        push_text(&mut out, "\"");
        let ghost pv = self.params@.map_values(|p: Param| param_view(p));
        let ghost base = out@;
        let mut i: usize = 0;
        proof {
            assert(pv.take(0) =~= Seq::<ParamV>::empty());
            assert(out@ =~= base + params_src(pv.take(0)));
        }
        while i < self.params.len()
            invariant
                0 <= i <= self.params@.len(),
                pv == self.params@.map_values(|p: Param| param_view(p)),
                pv.len() == self.params@.len(),
                out@ == base + params_src(pv.take(i as int)),
            decreases self.params@.len() - i,
        {
            proof {
                assert(pv[i as int] == param_view(self.params@[i as int]));
            }
            let ghost before = out@;
            push_text(&mut out, ", ");
            match &self.params[i] {
                Param::Slot(k) => {
                    push_text(&mut out, "start + ");
                    crate::render::push_dec(&mut out, *k);
                    push_text(&mut out, "u64");
                },
                Param::Lit(s) => {
                    push_text(&mut out, "\"");
                    push_str_lit(&mut out, s);
                    push_text(&mut out, "\"");
                },
                Param::Expr(s) => {
                    push_name(&mut out, s);
                },
            }
            proof {
                assert(out@ =~= before + param_src(pv[i as int]));
                lemma_params_src_take_step(pv, i as int);
                assert(out@ =~= base + params_src(pv.take(i + 1)));
            }
            i += 1;
        }
        proof {
            assert(pv.take(pv.len() as int) =~= pv);
        }
        push_text(&mut out, ");");
        out
    }
}

/// The generated `write!` statement for an assembled output.
pub open spec fn output_src(o: OutV) -> Seq<char> {
    "let _ = write!(css, \""@ + str_lit(o.fmt) + "\""@ + params_src(o.params) + ");"@
}

// ---------------------------------------------------------------------------
// The generated struct
// ---------------------------------------------------------------------------

/// The field declarations of the generated struct: one public
/// `String` field per distinct classname, in slot order.
pub open spec fn fields_src(names: Seq<Seq<char>>) -> Seq<char>
    decreases names.len(),
{
    if names.len() == 0 {
        Seq::empty()
    } else {
        "    pub "@ + names[0] + ": String,\n"@ + fields_src(names.skip(1))
    }
}

proof fn lemma_fields_src_take_step(names: Seq<Seq<char>>, i: int)
    requires
        0 <= i < names.len(),
    ensures
        fields_src(names.take(i + 1)) == fields_src(names.take(i)) + ("    pub "@ + names[i]
            + ": String,\n"@),
    decreases i,
{
    if i == 0 {
        assert(names.take(1) =~= seq![names[0]]);
        assert(names.take(1).skip(1) =~= Seq::<Seq<char>>::empty());
        assert(names.take(0) =~= Seq::<Seq<char>>::empty());
        assert(fields_src(names.take(1)) =~= fields_src(names.take(0)) + ("    pub "@
            + names[0] + ": String,\n"@));
    } else {
        lemma_fields_src_take_step(names.skip(1), i - 1);
        assert(names.take(i + 1).skip(1) =~= names.skip(1).take(i));
        assert(names.take(i).skip(1) =~= names.skip(1).take(i - 1));
        assert(names.take(i + 1)[0] == names[0]);
        assert(names.take(i)[0] == names[0]);
        assert(names.skip(1)[i - 1] == names[i]);
        assert(fields_src(names.take(i + 1)) =~= fields_src(names.take(i)) + ("    pub "@
            + names[i] + ": String,\n"@));
    }
}

/// The source of the generated struct definition.
pub open spec fn class_definition_src(classname: Seq<char>, names: Seq<Seq<char>>) -> Seq<
    char,
> {
    "struct "@ + classname + " {\n"@ + fields_src(names) + "}\n"@
}

/// Emits the generated struct definition: a struct named after the
/// signature's result type with one `String` field per classname.
pub fn class_definition_source(classname: &Vec<char>, names: &Vec<Vec<char>>) -> (r: Vec<
    char,
>)
    ensures
        r@ == class_definition_src(classname@, names@.map_values(|n: Vec<char>| n@)),
{
    let ghost nv = names@.map_values(|n: Vec<char>| n@);
    let mut out: Vec<char> = Vec::new();
    push_text(&mut out, "struct ");
    push_name(&mut out, classname);
    push_text(&mut out, " {\n");
    let ghost base = out@;
    let mut i: usize = 0;
    proof {
        assert(nv.take(0) =~= Seq::<Seq<char>>::empty());
        assert(out@ =~= base + fields_src(nv.take(0)));
    }
    while i < names.len()
        invariant
            0 <= i <= names@.len(),
            nv == names@.map_values(|n: Vec<char>| n@),
            nv.len() == names@.len(),
            out@ == base + fields_src(nv.take(i as int)),
        decreases names@.len() - i,
    {
        proof {
            assert(nv[i as int] == names@[i as int]@);
        }
        push_text(&mut out, "    pub ");
        push_name(&mut out, &names[i]);
        push_text(&mut out, ": String,\n");
        proof {
            lemma_fields_src_take_step(nv, i as int);
            assert(out@ =~= base + fields_src(nv.take(i + 1)));
        }
        i += 1;
    }
    proof {
        assert(nv.take(nv.len() as int) =~= nv);
    }
    push_text(&mut out, "}\n");
    proof {
        assert(out@ =~= class_definition_src(classname@, nv));
    }
    out
}

// ---------------------------------------------------------------------------
// The generated trait implementation
// ---------------------------------------------------------------------------

/// The field initializers of the generated constructor, from slot
/// `i` on: each field is bound to `format!("css-{}", start + slot)`.
pub open spec fn ctor_fields_src(names: Seq<Seq<char>>, i: nat) -> Seq<char>
    decreases names.len() - i,
{
    if i >= names.len() {
        Seq::empty()
    } else {
        "            "@ + names[i as int] + ": format!(\"css-{}\", start + "@ + dec_digits(i)
            + "u64),\n"@ + ctor_fields_src(names, i + 1)
    }
}

/// The source of the generated trait implementation: `generate`
/// writes the template and advances the counter by the class count;
/// `new` builds the struct from `start`.
pub open spec fn trait_impl_src(sig: SignatureV, names: Seq<Seq<char>>, o: OutV) -> Seq<
    char,
> {
    "impl Classes for "@ + sig.classname + " {\n    type Theme = "@ + sig.theme_type
        + ";\n\n    fn generate("@ + sig.theme_varname
        + ": &Self::Theme, css: &mut String, counter: &mut u64) {\n        use core::fmt::Write;\n        let start = *counter;\n        "@
        + output_src(o) + "\n        *counter = start + "@ + dec_digits(names.len())
        + "u64;\n    }\n\n    fn new(start: u64) -> Self {\n        Self {\n"@
        + ctor_fields_src(names, 0) + "        }\n    }\n}\n"@
}

/// Emits the generated trait implementation.
pub fn trait_impl_source(sig: &Signature, names: &Vec<Vec<char>>, output: &Output) -> (r: Vec<
    char,
>)
    ensures
        r@ == trait_impl_src(
            signature_view(*sig),
            names@.map_values(|n: Vec<char>| n@),
            output_view(*output),
        ),
{
    let ghost nv = names@.map_values(|n: Vec<char>| n@);
    let mut out: Vec<char> = Vec::new();
    push_text(&mut out, "impl Classes for ");
    push_name(&mut out, &sig.classname);
    push_text(&mut out, " {\n    type Theme = ");
    push_name(&mut out, &sig.theme_type);
    push_text(&mut out, ";\n\n    fn generate(");
    push_name(&mut out, &sig.theme_varname);
    push_text(
        &mut out,
        ": &Self::Theme, css: &mut String, counter: &mut u64) {\n        use core::fmt::Write;\n        let start = *counter;\n        ",
    );
    let write_stmt = output.to_source();
    push_name(&mut out, &write_stmt);
    push_text(&mut out, "\n        *counter = start + ");
    let n = names.len();
    crate::render::push_dec(&mut out, n as u64);
    proof {
        assert(n as u64 as nat == nv.len());
    }
    push_text(&mut out, "u64;\n    }\n\n    fn new(start: u64) -> Self {\n        Self {\n");
    let ghost base = out@;
    let mut i: usize = 0;
    while i < n
        invariant
            0 <= i <= n,
            n == names@.len(),
            nv == names@.map_values(|q: Vec<char>| q@),
            nv.len() == names@.len(),
            out@ + ctor_fields_src(nv, i as nat) == base + ctor_fields_src(nv, 0),
        decreases n - i,
    {
        let ghost before = out@;
        proof {
            assert(nv[i as int] == names@[i as int]@);
        }
        push_text(&mut out, "            ");
        push_name(&mut out, &names[i]);
        push_text(&mut out, ": format!(\"css-{}\", start + ");
        crate::render::push_dec(&mut out, i as u64);
        push_text(&mut out, "u64),\n");
        proof {
            assert(i as u64 as nat == i as nat);
            assert(out@ =~= before + ("            "@ + nv[i as int]
                + ": format!(\"css-{}\", start + "@ + dec_digits(i as nat) + "u64),\n"@));
            assert(out@ + ctor_fields_src(nv, (i + 1) as nat) =~= before + ctor_fields_src(
                nv,
                i as nat,
            ));
        }
        i += 1;
    }
    proof {
        assert(ctor_fields_src(nv, n as nat) =~= Seq::<char>::empty());
        assert(out@ =~= base + ctor_fields_src(nv, 0));
    }
    push_text(&mut out, "        }\n    }\n}\n");
    proof {
        assert(out@ =~= trait_impl_src(signature_view(*sig), nv, output_view(*output)));
    }
    out
}

// ---------------------------------------------------------------------------
// A whole style block
// ---------------------------------------------------------------------------

/// The source of the whole expansion: the struct, then the trait
/// implementation.
pub open spec fn style_src(sig: SignatureV, names: Seq<Seq<char>>, o: OutV) -> Seq<char> {
    class_definition_src(sig.classname, names) + trait_impl_src(sig, names, o)
}

/// The expansion of one style block: the parsed style, its sorted
/// classnames, and the assembled output.
#[derive(Debug)]
pub struct StyleCode {
    pub signature: Signature,
    pub output: Output,
}

impl StyleCode {
    /// Resolves and assembles a parsed style.  The style must carry a
    /// signature: the generated code needs the type names.
    pub fn new(style: Style) -> (r: Result<StyleCode, ParseError>)
        ensures
            match r {
                Ok(code) => {
                    &&& style.signature is Some
                    &&& signature_view(code.signature) == signature_view(
                        style.signature->Some_0,
                    )
                    &&& table_wf(code.output.map)
                    &&& crate::output::output_slots_ok(code.output)
                    &&& table_model(code.output.map) == pairs_model(
                        rules_classnames(style_view(style).rules),
                    )
                    &&& output_view(code.output) == crate::output::rules_out(
                        style_view(style).rules,
                        code.output.map,
                    )
                },
                Err(_) => style.signature is None,
            },
    {
        let signature = match style.signature {
            None => {
                return Err(ParseError { loc: 0, kind: ParseErrorKind::ExpectedIdent });
            },
            Some(sig) => sig,
        };
        let table = style.rules.resolve();
        let ghost pairs = rules_classnames(crate::ast::rules_view(style.rules.rules@));
        proof {
            crate::table::lemma_pairs_model_dom(pairs);
            assert forall|k: int|
                0 <= k < pairs.len() implies crate::table::table_contains(
                table,
                (#[trigger] pairs[k]).0,
            ) by {
                assert(pairs_model(pairs).dom().contains(pairs[k].0));
                assert(table_model(table).dom().contains(pairs[k].0));
            }
        }
        let mut out = Output::new(table);
        style.rules.append(&mut out);
        proof {
            assert(output_view(out) =~~= crate::output::rules_out(
                style_view(style).rules,
                out.map,
            ));
        }
        Ok(StyleCode { signature, output: out })
    }

    /// The generated source text: struct definition, then trait
    /// implementation.
    pub fn to_source(&self) -> (r: Vec<char>)
        ensures
            r@ == style_src(
                signature_view(self.signature),
                table_names(self.output.map),
                output_view(self.output),
            ),
    {
        let mut out = class_definition_source(&self.signature.classname, &self.output.map.names);
        let ti = trait_impl_source(&self.signature, &self.output.map.names, &self.output);
        push_name(&mut out, &ti);
        proof {
            assert(table_names(self.output.map) == self.output.map.names@.map_values(
                |n: Vec<char>| n@,
            ));
        }
        out
    }
}

/// Compiles style source text into generated host-language source:
/// the struct of classnames and the `Classes` implementation.  The
/// style must carry a signature.
pub fn make_styles(src: &Vec<char>) -> (r: Result<Vec<char>, ParseError>)
    ensures
        r is Ok ==> spec_parse_style(src@) is Some && spec_parse_style(src@)->Some_0.signature
            is Some,
        r is Err ==> (spec_parse_style(src@) is None || spec_parse_style(
            src@,
        )->Some_0.signature is None),
        r is Ok ==> (exists|t: crate::table::ClassnameTable|
            {
                let sv = spec_parse_style(src@)->Some_0;
                &&& table_wf(t)
                &&& #[trigger] table_model(t) == pairs_model(rules_classnames(sv.rules))
                &&& r->Ok_0@ == style_src(
                    sv.signature->Some_0,
                    table_names(t),
                    crate::output::rules_out(sv.rules, t),
                )
            }),
{
    let style = match crate::ast::Style::parse(src) {
        Err(err) => {
            return Err(err);
        },
        Ok(s) => s,
    };
    let code = match StyleCode::new(style) {
        Err(err) => {
            return Err(err);
        },
        Ok(c) => c,
    };
    let text = code.to_source();
    proof {
        let t = code.output.map;
        assert(table_model(t) == pairs_model(
            rules_classnames(spec_parse_style(src@)->Some_0.rules),
        ));
    }
    Ok(text)
}

} // verus!
