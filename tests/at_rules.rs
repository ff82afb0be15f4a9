use simplecss::at_rule::{AtRule, StyleSheet};
use simplecss::stream::Span;

/// The text of `sp` in `src`.
fn txt(src: &str, sp: Span) -> &str {
    &src[sp.start..sp.end]
}

/// The `Debug` form of `v` with each span written as its quoted text.
fn show<T: std::fmt::Debug>(src: &str, v: &T) -> String {
    let raw = format!("{:?}", v);
    let pat = "Span { start: ";
    let mut out = String::new();
    let mut rest = raw.as_str();
    while let Some(i) = rest.find(pat) {
        out.push_str(&rest[..i]);
        let tail = &rest[i + pat.len()..];
        let comma = tail.find(", end: ").unwrap();
        let start: usize = tail[..comma].parse().unwrap();
        let tail2 = &tail[comma + ", end: ".len()..];
        let close = tail2.find(" }").unwrap();
        let end: usize = tail2[..close].parse().unwrap();
        out.push_str(&format!("{:?}", &src[start..end]));
        rest = &tail2[close + 2..];
    }
    out.push_str(rest);
    out
}

fn assert_rules(src: &str, style: &StyleSheet, rules: &[&str]) {
    for (i, want) in rules.iter().enumerate() {
        assert_eq!(show(src, &style.at_rules[i]), *want, "at rule {} did not parse correctly", i + 1);
    }
}

/// The one ordinary rule `a { color:red }` that closes each sheet below.
fn assert_only_a(src: &str, style: &StyleSheet) {
    assert_eq!(style.rules.len(), 1);
    assert_eq!(txt(src, style.rules[0].selector), "a");
    assert_eq!(style.rules[0].declarations.len(), 1);
    assert_eq!(txt(src, style.rules[0].declarations[0].name), "color");
    assert_eq!(txt(src, style.rules[0].declarations[0].value), "red");
}

const DIV_RULE: &str = "Rule { selector: \"div\", declarations: [Declaration { name: \"color\", value: \"red\", important: false }] }";

fn div_sheet() -> String {
    format!("StyleSheet {{ rules: [{}], at_rules: [] }}", DIV_RULE)
}

#[test]
fn container() {
    let src = r#"
        /* 1. With a <size-query> */
        @container (width > 400px) {
            div { color: red; }
        }

        /* 2. With an optional <container-name> */
        @container tall (height > 30rem) {
            div { color: red; }
        }

        /* 3. With a <scroll-state> */
        @container scroll-state(scrollable: top) {
            div { color: red; }
        }

        /* 4. With a <container-name> and a <scroll-state> */
        @container sticky-heading scroll-state(stuck: top) {
            div { color: red; }
        }

        /* 5. Multiple queries in a single condition */
        @container (width > 400px) and style(--responsive: true) {
            div { color: red; }
        }

        /* 6. Condition list */
        @container card (width > 400px), style(--responsive: true), scroll-state(stuck: top) {
            div { color: red; }
        }

        a { color:red }"#;
    let style = StyleSheet::parse(src.as_bytes());
    assert_only_a(src, &style);

    let width = "Feature(Feature { key: \"width\", comparison: Greater, value: \"400px\" })";
    let style_fn = "Function(ContainerFunction { name: \"style\", query: List { first: Feature(Feature { key: \"--responsive\", comparison: Equal, value: \"true\" }), rest: [] } })";
    let stuck = "Function(ContainerFunction { name: \"scroll-state\", query: List { first: Feature(Feature { key: \"stuck\", comparison: Equal, value: \"top\" }), rest: [] } })";
    let wrap = |conds: String| format!("Container(Container {{ conditions: [{}], contents: {} }})", conds, div_sheet());
    let rule1 = wrap(format!("QueryOnly(List {{ first: {}, rest: [] }})", width));
    let rule2 = wrap("NameAndQuery { name: \"tall\", query: List { first: Feature(Feature { key: \"height\", comparison: Greater, value: \"30rem\" }), rest: [] } }".to_string());
    let rule3 = wrap("QueryOnly(List { first: Function(ContainerFunction { name: \"scroll-state\", query: List { first: Feature(Feature { key: \"scrollable\", comparison: Equal, value: \"top\" }), rest: [] } }), rest: [] })".to_string());
    let rule4 = wrap(format!("NameAndQuery {{ name: \"sticky-heading\", query: List {{ first: {}, rest: [] }} }}", stuck));
    let rule5 = wrap(format!("QueryOnly(List {{ first: {}, rest: [And({})] }})", width, style_fn));
    let rule6 = wrap(format!(
        "NameAndQuery {{ name: \"card\", query: List {{ first: {}, rest: [] }} }}, QueryOnly(List {{ first: {}, rest: [] }}), QueryOnly(List {{ first: {}, rest: [] }})",
        width, style_fn, stuck
    ));
    assert_rules(src, &style, &[&rule1, &rule2, &rule3, &rule4, &rule5, &rule6]);
}

#[test]
fn font_face() {
    let src = r#"
        @font-face {
            font-family: "Trickster";
            src: local("Trickster"),
    url("trickster-COLRv1.otf") format("opentype") tech(color-COLRv1),
    url("trickster-outline.otf") format("opentype"),
    url("trickster-outline.woff") format("woff");
        }
        a { color:red }"#;
    let style = StyleSheet::parse(src.as_bytes());
    assert_only_a(src, &style);
    assert_eq!(style.at_rules.len(), 1);
    match &style.at_rules[0] {
        AtRule::FontFace(decls) => {
            assert_eq!(decls.len(), 2);
            assert_eq!(txt(src, decls[0].name), "font-family");
            assert_eq!(txt(src, decls[0].value), "\"Trickster\"");
            assert!(!decls[0].important);
            assert_eq!(txt(src, decls[1].name), "src");
            assert_eq!(
                txt(src, decls[1].value),
                r#"local("Trickster"),
    url("trickster-COLRv1.otf") format("opentype") tech(color-COLRv1),
    url("trickster-outline.otf") format("opentype"),
    url("trickster-outline.woff") format("woff")"#
            );
            assert!(!decls[1].important);
        }
        other => panic!("not a font-face rule: {:?}", other),
    }
}

#[test]
fn import() {
    let src = r#"
        @import "custom.css";
        @import url("chrome://communicator/skin/");
        @import src("some-source");

        /* layer tests */
        @import "test" layer;
        @import "test" layer(test-layer);

        /* media query tests */
        @import url("fine-print.css") print;
        @import src("bluish.css") print, screen;
        @import "common.css" screen;
        @import url("landscape.css") screen and (orientation: landscape);

        a { color:red }"#;
    let style = StyleSheet::parse(src.as_bytes());
    assert_only_a(src, &style);
    let imp = |url: &str, layer: &str, queries: &str| {
        format!("Import(Import {{ url: {}, layer: {}, supports: None, media_queries: [{}] }})", url, layer, queries)
    };
    let print = "OtherThing { not_only: None, media_type: \"print\", conditions: [] }";
    let screen = "OtherThing { not_only: None, media_type: \"screen\", conditions: [] }";
    let rules = [
        imp("String(\"custom.css\")", "None", ""),
        imp("Url(\"chrome://communicator/skin/\")", "None", ""),
        imp("Src(\"some-source\")", "None", ""),
        imp("String(\"test\")", "Some(Layer)", ""),
        imp("String(\"test\")", "Some(Named(\"test-layer\"))", ""),
        imp("Url(\"fine-print.css\")", "None", print),
        imp("Src(\"bluish.css\")", "None", &format!("{}, {}", print, screen)),
        imp("String(\"common.css\")", "None", screen),
        imp(
            "Url(\"landscape.css\")",
            "None",
            "OtherThing { not_only: None, media_type: \"screen\", conditions: [Media { media: Feature(KeyVal { key: \"orientation\", val: \"landscape\" }), conditions: [] }] }",
        ),
    ];
    let refs: Vec<&str> = rules.iter().map(|r| r.as_str()).collect();
    assert_rules(src, &style, &refs);
}

#[test]
fn keyframes() {
    let src = r#"
        @keyframes test-anim {
            from { color: red; }
            50% { color: cyan; }
            to { color: blue; }
        }
        a { color:red }"#;
    let style = StyleSheet::parse(src.as_bytes());
    assert_only_a(src, &style);
    let frame = |key: &str, colour: &str| {
        format!("KeyFrame {{ key: \"{}\", declarations: [Declaration {{ name: \"color\", value: \"{}\", important: false }}] }}", key, colour)
    };
    let want = format!(
        "Keyframes {{ name: \"test-anim\", frames: [{}, {}, {}] }}",
        frame("from", "red"),
        frame("50%", "cyan"),
        frame("to", "blue")
    );
    assert_eq!(show(src, &style.at_rules[0]), want);
}

#[test]
fn layer() {
    let src = r#"
        @layer module, state;

        @layer state {
            div { color: red; }
        }

        @layer module {
            div { color: red; }
        } 
        a { color:red }"#;
    let style = StyleSheet::parse(src.as_bytes());
    assert_only_a(src, &style);
    assert_eq!(style.at_rules.len(), 3);
    let rule1 = "Layer(Statement([\"module\", \"state\"]))".to_string();
    let rule2 = format!("Layer(Block {{ name: Some(\"state\"), rules: [{}] }})", DIV_RULE);
    let rule3 = format!("Layer(Block {{ name: Some(\"module\"), rules: [{}] }})", DIV_RULE);
    assert_rules(src, &style, &[&rule1, &rule2, &rule3]);
}

#[test]
fn media() {
    let src = r#"
        @media screen {
            div { color: red; }
        }

        @media only screen and (orientation: landscape) {
            div { color: red; }
        }

        /* When the width is between 600px and 900px OR above 1100px - change the appearance of <div> */
        @media screen and (max-width: 900px) and (min-width: 600px), (min-width: 1100px) {
            div { color: red; }
        }

        a { color:red }"#;
    let style = StyleSheet::parse(src.as_bytes());
    assert_only_a(src, &style);
    let media = |queries: &str| format!("Media(Media {{ query: [{}], rules: [{}] }})", queries, DIV_RULE);
    let rule1 = media("OtherThing { not_only: None, media_type: \"screen\", conditions: [] }");
    let rule2 = media("OtherThing { not_only: Some(Only), media_type: \"screen\", conditions: [Media { media: Feature(KeyVal { key: \"orientation\", val: \"landscape\" }), conditions: [] }] }");
    let rule3 = media("OtherThing { not_only: None, media_type: \"screen\", conditions: [Media { media: Feature(KeyVal { key: \"max-width\", val: \"900px\" }), conditions: [MediaAnd(Feature(KeyVal { key: \"min-width\", val: \"600px\" }))] }] }, Condition(List { first: Feature(KeyVal { key: \"min-width\", val: \"1100px\" }), conditions: [] })");
    assert_rules(src, &style, &[&rule1, &rule2, &rule3]);
}

#[test]
fn namespace() {
    let src = r#"
        /* Default namespace */
        @namespace url(XML-namespace-URL);
        @namespace "XML-namespace-URL";

        /* Prefixed namespace */
        @namespace prefix url(XML-namespace-URL);
        @namespace prefix "XML-namespace-URL";

        a { color:red }"#;
    let style = StyleSheet::parse(src.as_bytes());
    assert_only_a(src, &style);
    assert_eq!(style.at_rules.len(), 4);
    let rules = [
        "Namespace { name: None, value: \"url(XML-namespace-URL)\" }",
        "Namespace { name: None, value: \"XML-namespace-URL\" }",
        "Namespace { name: Some(\"prefix\"), value: \"url(XML-namespace-URL)\" }",
        "Namespace { name: Some(\"prefix\"), value: \"\\\"XML-namespace-URL\\\"\" }",
    ];
    assert_rules(src, &style, &rules);
}

#[test]
fn supports() {
    let src = r#"
        @supports not (not (transform-origin: 2px)) {
            div { color: red; }
        }
        @supports (display: grid) and (not (display: inline-grid)) {
            div { color: red; }
        }

        @supports (animation-name: test) {
            div { color: red; }
        }
        a { color:red }"#;
    let style = StyleSheet::parse(src.as_bytes());
    assert_only_a(src, &style);
    let rule1 = format!("Supports(Supports {{ condition: Not(Condition(Not(Feature(Declaration {{ name: \"transform-origin\", value: \"2px\", important: false }})))), rules: [{}] }})", DIV_RULE);
    let rule2 = format!("Supports(Supports {{ condition: List {{ first: Feature(Declaration {{ name: \"display\", value: \"grid\", important: false }}), list: [And(Condition(Not(Feature(Declaration {{ name: \"display\", value: \"inline-grid\", important: false }}))))] }}, rules: [{}] }})", DIV_RULE);
    assert_rules(src, &style, &[&rule1, &rule2]);
}
