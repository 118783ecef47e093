//! Tests of the compiler: parsing, classname resolution, template
//! assembly and code emission.

use css_in_rs::ast::{Part, Style};
use css_in_rs::codegen::make_styles;
use css_in_rs::compile::compile_style;
use css_in_rs::output::Param;
use css_in_rs::parser::ParseErrorKind;
use css_in_rs::render::render_template;
use css_in_rs::selector;

fn chars(s: &str) -> Vec<char> {
    s.chars().collect()
}

fn text(v: &Vec<char>) -> String {
    v.iter().collect()
}

fn selector_to_str(parts: &Vec<Part>) -> String {
    let mut result = String::new();
    for part in parts {
        match part {
            Part::Raw(s) => result.push_str(&format!("raw'{}'", text(s))),
            Part::ClassName(s) => result.push_str(&format!("classname'{}'", text(s))),
        }
    }
    result
}

#[test]
fn data_simple() {
    let input = chars(
        r##"(_theme: MyTheme) -> MyClasses {
            "div.red_text" {
                color: "red",
            },
            "div.blue_text" {
                color: "blue",
            },
            my_class {
                background_color: "#ababab",
                "12%": false,
            },
        }"##,
    );

    let style = Style::parse(&input).unwrap();
    let rules = &style.rules.rules;

    assert_eq!(rules.len(), 3);
    assert_eq!(selector_to_str(&rules[0].header.parts), "raw'div'classname'red_text'");
    assert_eq!(selector_to_str(&rules[1].header.parts), "raw'div'classname'blue_text'");
    assert_eq!(selector_to_str(&rules[2].header.parts), "classname'my_class'");

    // Third rule
    {
        let rule = &rules[2];
        match &rule.body {
            css_in_rs::ast::RuleBody::Normal { entries } => {
                assert_eq!(entries.len(), 2);
                assert_eq!(text(&entries[0].property), "background-color");
                assert_eq!(text(&entries[1].property), "12%");
            }
            _ => panic!("expected a normal body"),
        }
    }
}

#[test]
fn lib_simple() {
    let input = chars(
        r#"(theme: MyTheme) -> MyClasses {
            "div.red_color" {
                color: "red",
            },
            "div.blue_color" {
                color: "blue",
            },
        }"#,
    );

    let style = compile_style(7, &input).unwrap();

    // slots follow sorted name order, render order follows the source
    let expected_template = "div.css-{} {{\n  {}: {};\n}}\ndiv.css-{} {{\n  {}: {};\n}}\n";
    assert_eq!(text(&style.output.format_str), expected_template);

    let names: Vec<String> = style.output.map.names.iter().map(text).collect();
    assert_eq!(names, vec!["blue_color".to_string(), "red_color".to_string()]);

    let params = &style.output.params;
    assert_eq!(params.len(), 6);
    assert!(matches!(params[0], Param::Slot(1)));
    assert!(matches!(&params[1], Param::Lit(s) if text(s) == "color"));
    assert!(matches!(&params[2], Param::Lit(s) if text(s) == "red"));
    assert!(matches!(params[3], Param::Slot(0)));
    assert!(matches!(&params[4], Param::Lit(s) if text(s) == "color"));
    assert!(matches!(&params[5], Param::Lit(s) if text(s) == "blue"));

    // constructor: each classname bound to css-{start + slot}
    let classes = style.construct(0);
    assert_eq!(classes.len(), 2);
    assert_eq!(text(&classes[0].0), "blue_color");
    assert_eq!(text(&classes[0].1), "css-0");
    assert_eq!(text(&classes[1].0), "red_color");
    assert_eq!(text(&classes[1].1), "css-1");
}

#[test]
fn generated_code() {
    let input = chars(
        r#"(theme: MyTheme) -> MyClasses {
            "div.red_color" {
                color: "red",
            },
            "div.blue_color" {
                color: "blue",
            },
        }"#,
    );

    let source = make_styles(&input).unwrap();
    let mut expected = String::new();
    expected.push_str("struct MyClasses {\n");
    expected.push_str("    pub blue_color: String,\n");
    expected.push_str("    pub red_color: String,\n");
    expected.push_str("}\n");
    expected.push_str("impl Classes for MyClasses {\n");
    expected.push_str("    type Theme = MyTheme;\n");
    expected.push_str("\n");
    expected.push_str("    fn generate(theme: &Self::Theme, css: &mut String, counter: &mut u64) {\n");
    expected.push_str("        use core::fmt::Write;\n");
    expected.push_str("        let start = *counter;\n");
    expected.push_str("        let _ = write!(css, \"div.css-{} {{\\n  {}: {};\\n}}\\ndiv.css-{} {{\\n  {}: {};\\n}}\\n\", start + 1u64, \"color\", \"red\", start + 0u64, \"color\", \"blue\");\n");
    expected.push_str("        *counter = start + 2u64;\n");
    expected.push_str("    }\n");
    expected.push_str("\n");
    expected.push_str("    fn new(start: u64) -> Self {\n");
    expected.push_str("        Self {\n");
    expected.push_str("            blue_color: format!(\"css-{}\", start + 0u64),\n");
    expected.push_str("            red_color: format!(\"css-{}\", start + 1u64),\n");
    expected.push_str("        }\n");
    expected.push_str("    }\n");
    expected.push_str("}\n");
    assert_eq!(text(&source), expected);
}

#[test]
fn example_without_signature() {
    // the worked example: sorted table, render order follows the source
    let input = chars(r#"{ red_text { color: "red" }, "div.blue_text" { color: "blue" } }"#);
    let style = compile_style(1, &input).unwrap();

    let names: Vec<String> = style.output.map.names.iter().map(text).collect();
    assert_eq!(names, vec!["blue_text".to_string(), "red_text".to_string()]);

    let expected_template = ".css-{} {{\n  {}: {};\n}}\ndiv.css-{} {{\n  {}: {};\n}}\n";
    assert_eq!(text(&style.output.format_str), expected_template);
    assert!(matches!(style.output.params[0], Param::Slot(1)));
    assert!(matches!(style.output.params[3], Param::Slot(0)));

    // rendered against start = 0
    let mut css: Vec<char> = Vec::new();
    render_template(&style.output.format_str, &style.output.params, 0, &mut css);
    assert_eq!(text(&css), ".css-1 {\n  color: red;\n}\ndiv.css-0 {\n  color: blue;\n}\n");

    let classes = style.construct(0);
    assert_eq!(text(&classes[0].0), "blue_text");
    assert_eq!(text(&classes[0].1), "css-0");
    assert_eq!(text(&classes[1].0), "red_text");
    assert_eq!(text(&classes[1].1), "css-1");
}

#[test]
fn sorted_slot_assignment() {
    // appearance order zebra, alpha, mid; slots are lexicographic ranks
    let input = chars(r#"{ zebra { a: "1" }, alpha { a: "2" }, mid { a: "3" } }"#);
    let style = compile_style(1, &input).unwrap();
    let names: Vec<String> = style.output.map.names.iter().map(text).collect();
    assert_eq!(names, vec!["alpha".to_string(), "mid".to_string(), "zebra".to_string()]);
}

#[test]
fn duplicates_collapse() {
    let input = chars(r#"{ dup { a: "1" }, "div.dup" { a: "2" }, other { a: "3" } }"#);
    let style = compile_style(1, &input).unwrap();
    let names: Vec<String> = style.output.map.names.iter().map(text).collect();
    assert_eq!(names, vec!["dup".to_string(), "other".to_string()]);
}

#[test]
fn classnames_nested_in_at_rules() {
    let input = chars(
        r#"{
            "@keyframes shake" {
                "0%" { transform: "none" },
                ".deep_name" { transform: "none" },
            },
            outer { color: "red" },
        }"#,
    );
    let style = compile_style(1, &input).unwrap();
    let names: Vec<String> = style.output.map.names.iter().map(text).collect();
    assert_eq!(names, vec!["deep_name".to_string(), "outer".to_string()]);
}

#[test]
fn classnames_nested_two_levels_deep() {
    let input = chars(
        r#"{
            "@media screen" {
                "@supports (display: flex)" {
                    ".very_deep" { color: "red" },
                },
            },
        }"#,
    );
    let style = compile_style(1, &input).unwrap();
    let names: Vec<String> = style.output.map.names.iter().map(text).collect();
    assert_eq!(names, vec!["very_deep".to_string()]);
}

#[test]
fn at_rule_header_kept_verbatim() {
    let h = selector::parse(&chars("  @media (width > 100px) "), 3).unwrap();
    assert!(h.at_rule);
    assert_eq!(h.parts.len(), 1);
    assert!(matches!(&h.parts[0], Part::Raw(s) if text(s) == "@media (width > 100px)"));
    assert_eq!(h.loc, 3);
}

#[test]
fn selector_alternation() {
    let sel = css_in_rs::ast::Selector::parse(&chars(".container > .item"), 0).unwrap();
    assert_eq!(
        selector_to_str(&sel.header.parts),
        "classname'container'raw' > 'classname'item'"
    );
}

#[test]
fn classname_followed_by_hyphen_fails() {
    assert!(selector::parse(&chars("div.red-text"), 0).is_none());
    assert!(selector::parse(&chars(""), 0).is_none());
}

#[test]
fn part_is_class() {
    assert!(Part::ClassName(chars("a")).is_class());
    assert!(!Part::Raw(chars("a")).is_class());
}

#[test]
fn push_char_extends_trailing_raw() {
    let mut h = selector::parse(&chars("div.red"), 0).unwrap();
    h.push_char('>');
    assert_eq!(selector_to_str(&h.parts), "raw'div'classname'red'raw'>'");
    let mut h2 = selector::parse(&chars("div"), 0).unwrap();
    h2.push_char('!');
    assert_eq!(selector_to_str(&h2.parts), "raw'div!'");
}

#[test]
fn parse_errors() {
    // a quote that closes early swallows the brace as selector text
    let e = Style::parse(&chars(r#"{ "div { a: "1" } }"#)).unwrap_err();
    assert_eq!(e.kind, ParseErrorKind::ExpectedOpenBrace);
    // an unterminated string literal
    let e = Style::parse(&chars(r#"{ x { a: "1 } }"#)).unwrap_err();
    assert_eq!(e.kind, ParseErrorKind::UnterminatedString);
    let e = Style::parse(&chars(r#"{ x { a "1" } }"#)).unwrap_err();
    assert_eq!(e.kind, ParseErrorKind::ExpectedColon);
    let e = Style::parse(&chars(r#"{ x { a: } }"#)).unwrap_err();
    assert_eq!(e.kind, ParseErrorKind::MissingValue);
    let e = Style::parse(&chars(r#"{ x { a: "1" } } trailing"#)).unwrap_err();
    assert_eq!(e.kind, ParseErrorKind::TrailingInput);
    let e = Style::parse(&chars(r#"x { a: "1" }"#)).unwrap_err();
    assert_eq!(e.kind, ParseErrorKind::ExpectedOpenBrace);
    let e = Style::parse(&chars(r#"{ "div.red-x" { a: "1" } }"#)).unwrap_err();
    assert_eq!(e.kind, ParseErrorKind::BadSelector);
}

#[test]
fn signature_errors() {
    let e = Style::parse(&chars(r#"(t: T -> C { }"#)).unwrap_err();
    assert_eq!(e.kind, ParseErrorKind::ExpectedCloseParen);
    let e = Style::parse(&chars(r#"(t: T) C { }"#)).unwrap_err();
    assert_eq!(e.kind, ParseErrorKind::ExpectedArrow);
    let e = Style::parse(&chars(r#"(t T) -> C { }"#)).unwrap_err();
    assert_eq!(e.kind, ParseErrorKind::ExpectedColon);
    let e = Style::parse(&chars(r#"{ 1bad { a: "1" } }"#)).unwrap_err();
    assert_eq!(e.kind, ParseErrorKind::ExpectedIdent);
    let e = Style::parse(&chars(r#"{ x { a: "1""#)).unwrap_err();
    assert_eq!(e.kind, ParseErrorKind::ExpectedCloseBrace);
    // code emission needs a signature
    let e = make_styles(&chars(r#"{ x { a: "1" } }"#)).unwrap_err();
    assert_eq!(e.kind, ParseErrorKind::ExpectedIdent);
}

#[test]
fn slot_assignment_ignores_appearance_order() {
    // same set of classnames, opposite appearance order
    let one = compile_style(1, &chars(r#"{ aa { x: "1" }, bb { x: "2" } }"#)).unwrap();
    let two = compile_style(1, &chars(r#"{ bb { x: "2" }, aa { x: "1" } }"#)).unwrap();
    let n1: Vec<String> = one.output.map.names.iter().map(text).collect();
    let n2: Vec<String> = two.output.map.names.iter().map(text).collect();
    assert_eq!(n1, n2);
}

#[test]
fn compile_is_deterministic() {
    let input = chars(r#"{ b { x: "1" }, a { y: theme.z }, "@m" { c { z: "3" } } }"#);
    let s1 = compile_style(5, &input).unwrap();
    let s2 = compile_style(5, &input).unwrap();
    assert_eq!(text(&s1.output.format_str), text(&s2.output.format_str));
    let n1: Vec<String> = s1.output.map.names.iter().map(text).collect();
    let n2: Vec<String> = s2.output.map.names.iter().map(text).collect();
    assert_eq!(n1, n2);
    assert_eq!(s1.output.map.locs, s2.output.map.locs);
    assert_eq!(s1.output.params.len(), s2.output.params.len());
}

#[test]
fn braces_in_raw_text_are_escaped() {
    let mut out = css_in_rs::output::Output::new(css_in_rs::table::ClassnameTable::new());
    out.push_str(&chars("a{b}c"));
    assert_eq!(text(&out.format_str), "a{{b}}c");
    // and they render back as single braces
    let mut css: Vec<char> = Vec::new();
    render_template(&out.format_str, &out.params, 0, &mut css);
    assert_eq!(text(&css), "a{b}c");
}

#[test]
fn decimal_rendering() {
    for (n, s) in [(0u64, "0"), (7, "7"), (10, "10"), (12345, "12345")] {
        let mut v: Vec<char> = Vec::new();
        css_in_rs::render::push_dec(&mut v, n);
        assert_eq!(text(&v), s);
    }
}

#[test]
fn get_classnames_sorted() {
    let input = chars(r#"{ b { x: "1" }, a { x: "2" } }"#);
    let style = Style::parse(&input).unwrap();
    let names = style.get_classnames();
    let names: Vec<String> = names.iter().map(text).collect();
    assert_eq!(names, vec!["a".to_string(), "b".to_string()]);
}
