use simplecss::at_rule::StyleSheet;
use simplecss::stream::Span;

fn txt(src: &str, sp: Span) -> &str {
    &src[sp.start..sp.end]
}

/// Writes the ordinary rules of a sheet as `selector { name:value; }`, one
/// per line, leaving out rules without declarations.
fn render(src: &str, style: &StyleSheet) -> String {
    let mut lines = Vec::new();
    for rule in &style.rules {
        if rule.declarations.is_empty() {
            continue;
        }
        let decls: Vec<String> = rule
            .declarations
            .iter()
            .map(|d| format!("{}:{};", txt(src, d.name), txt(src, d.value)))
            .collect();
        lines.push(format!("{} {{ {} }}", txt(src, rule.selector), decls.join(" ")));
    }
    lines.join("\n")
}

fn parse_render(src: &str) -> String {
    render(src, &StyleSheet::parse(src.as_bytes()))
}

#[test]
fn style_01() {
    assert_eq!(parse_render(""), "");
}

#[test]
fn style_02() {
    assert_eq!(parse_render("a {}"), "");
}

#[test]
fn style_03() {
    assert_eq!(parse_render("a { color:red }"), "a { color:red; }");
}

#[test]
fn style_04() {
    assert_eq!(parse_render("/**/"), "");
}

#[test]
fn style_05() {
    assert_eq!(parse_render("a { color:red } /**/"), "a { color:red; }");
}

#[test]
fn style_11() {
    assert_eq!(parse_render("@import \"subs.css\";\na { color:red }"), "a { color:red; }");
}

#[test]
fn style_12() {
    let src = "\
@media screen {
    p:before { content: 'Hello'; }
}
a { color:red }";
    assert_eq!(parse_render(src), "a { color:red; }");
}

#[test]
fn style_14() {
    assert_eq!(parse_render("p { color:green; color }"), "p { color:green; }");
}

#[test]
fn style_15() {
    assert_eq!(parse_render("p { color; color:green }"), "");
}

#[test]
fn style_16() {
    assert_eq!(parse_render("p { color:green; color: }"), "p { color:green; }");
}

#[test]
fn style_17() {
    assert_eq!(parse_render("p { color:green; color:; color:red; }"), "p { color:green; }");
}

#[test]
fn style_18() {
    assert_eq!(parse_render("p { color:green; color{;color:maroon} }"), "p { color:green; }");
}

#[test]
fn style_19() {
    assert_eq!(parse_render("p { color{;color:maroon} color:green; }"), "");
}

#[test]
fn style_21() {
    assert_eq!(parse_render(":le>*"), "");
}

#[test]
fn style_22() {
    let src = "\
@media screen {
    p:before { content: 'Hello'; }
}
a { color:red }";
    let (style, raw) = StyleSheet::parse_with_raw(src.as_bytes());
    assert_eq!(raw.len(), 1);
    for r in &raw {
        assert_eq!(txt(src, r.ident), "media");
        assert_eq!(txt(src, r.prelude), " screen ");
        assert_eq!(txt(src, r.block.unwrap()), "\n    p:before { content: 'Hello'; }\n");
    }
    assert_eq!(render(src, &style), "a { color:red; }");
}

#[test]
fn style_23() {
    let src = "\
@keyframes test-anim {
    from { color: red; }
    to { color: blue; }
}
a { color:red }";
    let (style, raw) = StyleSheet::parse_with_raw(src.as_bytes());
    assert_eq!(raw.len(), 1);
    for r in &raw {
        assert_eq!(txt(src, r.ident), "keyframes");
        assert_eq!(txt(src, r.prelude), " test-anim ");
        assert_eq!(
            txt(src, r.block.unwrap()),
            r#"
    from { color: red; }
    to { color: blue; }
"#
        );
    }
    assert_eq!(render(src, &style), "a { color:red; }");
}

#[test]
fn style_24() {
    let src = "\
@keyframes test-anim {
    from { color: red; }
    to { color: blue; }
}
a { color:red }";
    let mut v = Vec::new();
    let (style, raw) = StyleSheet::parse_with_raw(src.as_bytes());
    for r in &raw {
        v.push(txt(src, r.ident).to_owned());
        v.push(txt(src, r.prelude).to_owned());
        v.push(r.block.map(|b| txt(src, b)).unwrap_or("").to_owned());
    }
    assert!(!v.is_empty());
    assert_eq!(render(src, &style), "a { color:red; }");
}
