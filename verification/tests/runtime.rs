//! Tests of the runtime style cache: registration, dedup, theme
//! updates and replay.

use css_in_rs::compile::{CompiledStyle, compile_style};
use css_in_rs::provider::{
    Backend, BoundStyle, EmptyTheme, StringBackend, StyleProvider, Theme, ThemeVars,
};

fn chars(s: &str) -> Vec<char> {
    s.chars().collect()
}

fn text(v: &Vec<char>) -> String {
    v.iter().collect()
}

fn simple_style(id: u64) -> CompiledStyle {
    compile_style(id, &chars(r#"{ one { color: "red" } }"#)).unwrap()
}

fn two_class_style(id: u64) -> CompiledStyle {
    compile_style(id, &chars(r#"{ b { color: "blue" }, a { color: "aqua" } }"#)).unwrap()
}

#[test]
fn register_assigns_contiguous_windows() {
    let mut provider: StyleProvider<EmptyTheme, CompiledStyle, StringBackend> =
        StyleProvider::new_with_backend(StringBackend::new(), EmptyTheme);
    let s0 = provider.add_css_generator(two_class_style(1));
    let s1 = provider.add_css_generator(simple_style(2));
    assert_eq!(s0, 0);
    assert_eq!(s1, 2);
    assert_eq!(
        text(&provider.inner.backend.css),
        ".css-1 {\n  color: blue;\n}\n.css-0 {\n  color: aqua;\n}\n.css-2 {\n  color: red;\n}\n"
    );
}

#[test]
fn register_twice_is_deduplicated() {
    let mut provider: StyleProvider<EmptyTheme, CompiledStyle, StringBackend> =
        StyleProvider::new_with_backend(StringBackend::new(), EmptyTheme);
    let first = provider.add_css_generator(two_class_style(9));
    let css_after_first = text(&provider.inner.backend.css);
    let second = provider.add_css_generator(two_class_style(9));
    assert_eq!(first, second);
    // the generator ran only once: nothing was appended again
    assert_eq!(text(&provider.inner.backend.css), css_after_first);
    assert_eq!(provider.inner.generators.len(), 1);
}

#[test]
fn add_classes_returns_final_names() {
    let mut provider: StyleProvider<EmptyTheme, CompiledStyle, StringBackend> =
        StyleProvider::new_with_backend(StringBackend::new(), EmptyTheme);
    provider.add_css_generator(simple_style(1));
    let classes = provider.add_classes(two_class_style(2));
    assert_eq!(classes.len(), 2);
    assert_eq!(text(&classes[0].0), "a");
    assert_eq!(text(&classes[0].1), "css-1");
    assert_eq!(text(&classes[1].0), "b");
    assert_eq!(text(&classes[1].1), "css-2");
    // mounting again yields the same names
    let again = provider.add_classes(two_class_style(2));
    assert_eq!(text(&again[0].1), "css-1");
    assert_eq!(text(&again[1].1), "css-2");
}

fn themed_style(id: u64) -> BoundStyle {
    // `primary` is an opaque host expression; bind it to theme value 0
    let style = compile_style(id, &chars(r#"{ item { color: primary } }"#)).unwrap();
    // parameters: slot(item), "color", primary
    BoundStyle { style, bindings: vec![0, 0, 0] }
}

fn theme(value: &str) -> ThemeVars {
    ThemeVars { values: vec![chars(value)] }
}

#[test]
fn theme_update_replays_generators() {
    let mut provider: StyleProvider<ThemeVars, BoundStyle, StringBackend> =
        StyleProvider::new_with_backend(StringBackend::new(), theme("red"));
    provider.add_css_generator(themed_style(1));
    assert_eq!(text(&provider.inner.backend.css), ".css-0 {\n  color: red;\n}\n");

    provider.update_theme(theme("blue"));
    // same classname, new value: the full text is rebuilt
    assert_eq!(text(&provider.inner.backend.css), ".css-0 {\n  color: blue;\n}\n");
}

#[test]
fn equal_theme_update_is_noop() {
    let mut provider: StyleProvider<ThemeVars, BoundStyle, StringBackend> =
        StyleProvider::new_with_backend(StringBackend::new(), theme("red"));
    provider.add_css_generator(themed_style(1));
    let before = text(&provider.inner.backend.css);
    provider.update_theme(theme("red"));
    assert_eq!(text(&provider.inner.backend.css), before);
    // the theme value is also unchanged
    assert_eq!(provider.inner.current_theme.values.len(), 1);
    assert_eq!(text(&provider.inner.current_theme.values[0]), "red");
}

#[test]
fn replay_keeps_registration_order_and_windows() {
    let mut provider: StyleProvider<ThemeVars, BoundStyle, StringBackend> =
        StyleProvider::new_with_backend(StringBackend::new(), theme("red"));
    let s0 = provider.add_css_generator(themed_style(1));
    let other = compile_style(2, &chars(r#"{ fixed { margin: "0" } }"#)).unwrap();
    let s1 = provider.add_css_generator(BoundStyle { style: other, bindings: vec![] });
    assert_eq!(s0, 0);
    assert_eq!(s1, 1);

    provider.update_theme(theme("green"));
    // full text equals each generator re-run against the new theme,
    // in registration order, against its fixed window
    assert_eq!(
        text(&provider.inner.backend.css),
        ".css-0 {\n  color: green;\n}\n.css-1 {\n  margin: 0;\n}\n"
    );
}

#[test]
fn backend_replace_all() {
    let mut b = StringBackend::new();
    b.append_incremental(&chars("abc"));
    b.append_incremental(&chars("def"));
    assert_eq!(text(&b.css), "abcdef");
    b.replace_all(chars("xyz"));
    assert_eq!(text(&b.css), "xyz");
}

#[test]
fn empty_theme_compares_equal() {
    assert!(EmptyTheme.fast_cmp(&EmptyTheme));
    assert!(theme("a").fast_cmp(&theme("a")));
    assert!(!theme("a").fast_cmp(&theme("b")));
}
