use simplecss::at_rule::{
    is_keyword, AtRule, Comparison, LayerType, RawAtRule, StyleSheet,
};
use simplecss::container::{ContainerCondition, ContainerQuery, ContainerQueryAndOr};
use simplecss::media::{
    consume_value2, MediaAndOr, MediaCondition, MediaInParens, MediaQuery, MediaRange,
};
use simplecss::sheet::{consume_declaration, consume_value};
use simplecss::stream::{Error, Span, Stream, TextPos};
use simplecss::supports::{SupportsAndOr, SupportsCondition};

fn txt(src: &str, sp: Span) -> &str {
    &src[sp.start..sp.end]
}

fn show<T: std::fmt::Debug>(src: &str, v: &T) -> String {
    let raw = format!("{:?}", v);
    let pat = "Span { start: ";
    let mut out = String::new();
    let mut rest = raw.as_str();
    while let Some(i) = rest.find(pat) {
        out.push_str(&rest[..i]);
        let tail = &rest[i + pat.len()..];
        let comma = tail.find(", end: ").unwrap();
        let start: usize = tail[..comma].parse().unwrap();
        let tail2 = &tail[comma + ", end: ".len()..];
        let close = tail2.find(" }").unwrap();
        let end: usize = tail2[..close].parse().unwrap();
        out.push_str(&format!("{:?}", &src[start..end]));
        rest = &tail2[close + 2..];
    }
    out.push_str(rest);
    out
}

fn keyword(src: &str, kw: &str) -> bool {
    let s = Stream::new(src.as_bytes());
    is_keyword(&s, kw.as_bytes())
}

#[test]
fn keyword_needs_white_space_or_end() {
    assert!(keyword("not (a)", "not"));
    assert!(keyword("not\t(a)", "not"));
    assert!(keyword("not\n(a)", "not"));
    assert!(keyword("not\x0C(a)", "not"));
    assert!(keyword("not", "not"));
    assert!(!keyword("nothing", "not"));
    assert!(!keyword("not(a)", "not"));
    assert!(!keyword("no", "not"));
    assert!(!keyword(" not", "not"));
    assert!(keyword("and (b)", "and"));
    assert!(!keyword("android", "and"));
    assert!(keyword("or\r\n(b)", "or"));
    assert!(!keyword("orientation", "or"));
}

#[test]
fn keyword_does_not_move_the_cursor() {
    let s = Stream::new(b"not x");
    assert!(is_keyword(&s, b"not"));
    assert_eq!(s.pos(), 0);
}

fn comparison(src: &str) -> (String, usize) {
    let mut s = Stream::new(src.as_bytes());
    let c = Comparison::consume(&mut s).unwrap();
    (show(src, &c), s.pos())
}

#[test]
fn comparison_tokens() {
    assert_eq!(comparison("= 1"), ("Equal".to_string(), 2));
    assert_eq!(comparison("== 1"), ("Equal".to_string(), 3));
    assert_eq!(comparison("> 1"), ("Greater".to_string(), 2));
    assert_eq!(comparison("< 1"), ("Less".to_string(), 2));
    assert_eq!(comparison(">= 1"), ("GreaterEq".to_string(), 3));
    assert_eq!(comparison("<= 1"), ("LessEq".to_string(), 3));
    assert_eq!(comparison("!= 1"), ("NotEqual".to_string(), 3));
    assert_eq!(comparison("  ~= 1"), ("Other(\"~=\")".to_string(), 5));
    assert_eq!(comparison("=>"), ("Other(\"=>\")".to_string(), 2));
}

fn range(src: &str) -> (Result<Option<String>, Error>, usize) {
    let mut s = Stream::new(src.as_bytes());
    let r = MediaRange::try_consume(&mut s).map(|o| o.map(|m| show(src, &m)));
    (r, s.pos())
}

#[test]
fn range_chain_needs_the_same_operator() {
    let (r, _) = range("400px < width < 700px");
    assert_eq!(
        r,
        Ok(Some("LessThanChain { lhs: \"400px\", ident: \"width\", rhs: \"700px\" }".to_string()))
    );
    let (r, pos) = range("400px < width > 700px");
    assert_eq!(
        r,
        Ok(Some("Regular { lhs: \"400px\", comp: Less, rhs: \"width\" }".to_string()))
    );
    assert_eq!(&"400px < width > 700px"[pos..], "> 700px");
}

#[test]
fn range_chains_of_each_operator() {
    assert_eq!(
        range("1px <= w <= 2px").0,
        Ok(Some("LessEqChain { lhs: \"1px\", ident: \"w\", rhs: \"2px\" }".to_string()))
    );
    assert_eq!(
        range("2px > w > 1px").0,
        Ok(Some("GreaterThanChain { lhs: \"2px\", ident: \"w\", rhs: \"1px\" }".to_string()))
    );
    assert_eq!(
        range("2px >= w >= 1px").0,
        Ok(Some("GreaterEqChain { lhs: \"2px\", ident: \"w\", rhs: \"1px\" }".to_string()))
    );
    assert_eq!(
        range("width >= 600px").0,
        Ok(Some("Regular { lhs: \"width\", comp: GreaterEq, rhs: \"600px\" }".to_string()))
    );
    assert_eq!(
        range("1px <= w < 2px").0,
        Ok(Some("Regular { lhs: \"1px\", comp: LessEq, rhs: \"w\" }".to_string()))
    );
    assert_eq!(
        range("width = 600px").0,
        Ok(Some("Regular { lhs: \"width\", comp: Equal, rhs: \"600px\" }".to_string()))
    );
}

#[test]
fn range_chain_of_equals_is_an_error() {
    let (r, _) = range("a = b = c");
    assert!(matches!(r, Err(Error::UnexpectedCombinator(_))));
}

#[test]
fn range_without_operator_leaves_cursor() {
    let (r, pos) = range("color)");
    assert_eq!(r, Ok(None));
    assert_eq!(pos, 0);
}

#[test]
fn media_feature_forms() {
    let src = "(color) and (width: 10px) or (400px < width < 700px)";
    let mut s = Stream::new(src.as_bytes());
    let c = MediaCondition::consume(&mut s).unwrap();
    assert_eq!(
        show(src, &c),
        "List { first: Feature(Name(\"color\")), conditions: [And(Feature(KeyVal { key: \"width\", val: \"10px\" })), Or(Feature(Range(LessThanChain { lhs: \"400px\", ident: \"width\", rhs: \"700px\" })))] }"
    );
    assert_eq!(s.pos(), src.len());
}

#[test]
fn media_condition_keeps_source_order() {
    let src = "(a: 1) and (b: 2) or (c: 3) and (d: 4)";
    let mut s = Stream::new(src.as_bytes());
    let c = MediaCondition::consume(&mut s).unwrap();
    match c {
        MediaCondition::List { first, conditions } => {
            assert_eq!(show(src, &*first), "Feature(KeyVal { key: \"a\", val: \"1\" })");
            let tags: Vec<&str> = conditions
                .iter()
                .map(|c| match c {
                    MediaAndOr::And(_) => "and",
                    MediaAndOr::Or(_) => "or",
                })
                .collect();
            assert_eq!(tags, vec!["and", "or", "and"]);
            let keys: Vec<String> = conditions
                .iter()
                .map(|c| match c {
                    MediaAndOr::And(p) | MediaAndOr::Or(p) => show(src, p),
                })
                .collect();
            assert_eq!(
                keys,
                vec![
                    "Feature(KeyVal { key: \"b\", val: \"2\" })",
                    "Feature(KeyVal { key: \"c\", val: \"3\" })",
                    "Feature(KeyVal { key: \"d\", val: \"4\" })",
                ]
            );
        }
        other => panic!("not a list: {:?}", other),
    }
}

#[test]
fn supports_condition_keeps_source_order() {
    let src = "(a: 1) or (b: 2) and (c: 3)";
    let mut s = Stream::new(src.as_bytes());
    let c = SupportsCondition::consume(&mut s).unwrap();
    match c {
        SupportsCondition::List { list, .. } => {
            assert!(matches!(list[0], SupportsAndOr::Or(_)));
            assert!(matches!(list[1], SupportsAndOr::And(_)));
        }
        other => panic!("not a list: {:?}", other),
    }
}

#[test]
fn container_query_keeps_source_order() {
    let src = "(a > 1) or (b < 2) and style(--c: 3)";
    let mut s = Stream::new(src.as_bytes());
    let q = ContainerQuery::consume(&mut s).unwrap();
    match q {
        ContainerQuery::List { rest, .. } => {
            assert_eq!(rest.len(), 2);
            assert_eq!(
                show(src, &rest[0]),
                "Or(Feature(Feature { key: \"b\", comparison: Less, value: \"2\" }))"
            );
            assert!(matches!(rest[1], ContainerQueryAndOr::And(_)));
        }
        other => panic!("not a list: {:?}", other),
    }
}

#[test]
fn container_not_and_nested_query() {
    let src = "not ((width > 1px) or (height > 2px))";
    let mut s = Stream::new(src.as_bytes());
    let q = ContainerQuery::consume(&mut s).unwrap();
    assert_eq!(
        show(src, &q),
        "Not(Query(List { first: Feature(Feature { key: \"width\", comparison: Greater, value: \"1px\" }), rest: [Or(Feature(Feature { key: \"height\", comparison: Greater, value: \"2px\" }))] }))"
    );
}

#[test]
fn container_function_nesting() {
    let src = "style(inner((--dark: true)))";
    let mut s = Stream::new(src.as_bytes());
    let q = ContainerQuery::consume(&mut s).unwrap();
    assert_eq!(
        show(src, &q),
        "List { first: Function(ContainerFunction { name: \"style\", query: List { first: Query(ContainerFunction { name: \"inner\", query: List { first: Feature(Feature { key: \"--dark\", comparison: Equal, value: \"true\" }), rest: [] } }), rest: [] } }), rest: [] }"
    );
    let src = "style not (--dark: true)";
    let mut s = Stream::new(src.as_bytes());
    let q = ContainerQuery::consume(&mut s).unwrap();
    assert_eq!(
        show(src, &q),
        "List { first: Function(ContainerFunction { name: \"style\", query: Not(Feature(Feature { key: \"--dark\", comparison: Equal, value: \"true\" })) }), rest: [] }"
    );
}

#[test]
fn container_width_feature() {
    let src = "@container (width > 400px) { div { color: red; } }";
    let style = StyleSheet::parse(src.as_bytes());
    assert_eq!(style.at_rules.len(), 1);
    assert_eq!(
        show(src, &style.at_rules[0]),
        "Container(Container { conditions: [QueryOnly(List { first: Feature(Feature { key: \"width\", comparison: Greater, value: \"400px\" }), rest: [] })], contents: StyleSheet { rules: [Rule { selector: \"div\", declarations: [Declaration { name: \"color\", value: \"red\", important: false }] }], at_rules: [] } })"
    );
}

#[test]
fn container_without_name_or_query_is_invalid() {
    let mut s = Stream::new(b"  { }");
    assert_eq!(ContainerCondition::consume(&mut s), Err(Error::InvalidValue(2)));
}

#[test]
fn import_fine_print() {
    let src = "@import url(\"fine-print.css\") print;";
    let style = StyleSheet::parse(src.as_bytes());
    assert_eq!(
        show(src, &style.at_rules[0]),
        "Import(Import { url: Url(\"fine-print.css\"), layer: None, supports: None, media_queries: [OtherThing { not_only: None, media_type: \"print\", conditions: [] }] })"
    );
}

#[test]
fn import_supports_clauses() {
    let src = "@import \"a.css\" layer(base) supports(display: grid) screen, not print;\n@import \"b.css\" supports(not (display: grid));";
    let style = StyleSheet::parse(src.as_bytes());
    assert_eq!(
        show(src, &style.at_rules[0]),
        "Import(Import { url: String(\"a.css\"), layer: Some(Named(\"base\")), supports: Some(Declaration(Declaration { name: \"display\", value: \"grid\", important: false })), media_queries: [OtherThing { not_only: None, media_type: \"screen\", conditions: [] }, OtherThing { not_only: Some(Not), media_type: \"print\", conditions: [] }] })"
    );
    assert_eq!(
        show(src, &style.at_rules[1]),
        "Import(Import { url: String(\"b.css\"), layer: None, supports: Some(SupportsCondition(Not(Feature(Declaration { name: \"display\", value: \"grid\", important: false })))), media_queries: [] })"
    );
}

#[test]
fn supports_double_not() {
    let src = "@supports not (not (transform-origin: 2px)) { }";
    let style = StyleSheet::parse(src.as_bytes());
    assert_eq!(
        show(src, &style.at_rules[0]),
        "Supports(Supports { condition: Not(Condition(Not(Feature(Declaration { name: \"transform-origin\", value: \"2px\", important: false })))), rules: [] })"
    );
}

#[test]
fn unknown_at_rule_is_kept_raw() {
    let src = "@made-up foo { bar: baz }";
    let style = StyleSheet::parse(src.as_bytes());
    assert_eq!(style.at_rules.len(), 1);
    match style.at_rules[0] {
        AtRule::Other { ident, pre_block, block } => {
            assert_eq!(txt(src, ident), "made-up");
            assert_eq!(txt(src, pre_block), "foo");
            assert_eq!(txt(src, block), "bar: baz");
        }
        ref other => panic!("not kept raw: {:?}", other),
    }
}

#[test]
fn unknown_at_rule_without_block() {
    let src = "@charset \"utf-8\";\na { color: red }";
    let style = StyleSheet::parse(src.as_bytes());
    assert_eq!(
        show(src, &style.at_rules[0]),
        "Other { ident: \"charset\", pre_block: \"\\\"utf-8\\\"\", block: \"\" }"
    );
    assert_eq!(style.rules.len(), 1);
}

#[test]
fn malformed_rules_do_not_stop_siblings() {
    let src = "a { color: red }\n@import ;\np { color; }\nq color: red }\n@media { x }\nb { color: blue }";
    let style = StyleSheet::parse(src.as_bytes());
    let sels: Vec<&str> = style.rules.iter().map(|r| txt(src, r.selector)).collect();
    assert_eq!(sels, vec!["a", "p", "b"]);
    assert!(style.rules[1].declarations.is_empty());
    assert_eq!(txt(src, style.rules[2].declarations[0].value), "blue");
    assert!(style.at_rules.is_empty());
}

#[test]
fn malformed_at_rule_between_good_at_rules() {
    let src = "@import \"a.css\";\n@container { div { color: red } }\n@layer x;";
    let style = StyleSheet::parse(src.as_bytes());
    assert_eq!(style.at_rules.len(), 2);
    assert!(matches!(style.at_rules[0], AtRule::Import(_)));
    assert_eq!(show(src, &style.at_rules[1]), "Layer(Statement([\"x\"]))");
}

#[test]
fn layer_forms() {
    let src = "@layer base;\n@layer { p { color: red } }";
    let style = StyleSheet::parse(src.as_bytes());
    assert_eq!(show(src, &style.at_rules[0]), "Layer(Statement([\"base\"]))");
    match &style.at_rules[1] {
        AtRule::Layer(LayerType::Block { name, rules }) => {
            assert_eq!(*name, None);
            assert_eq!(rules.len(), 1);
        }
        other => panic!("not an anonymous layer: {:?}", other),
    }
}

#[test]
fn media_not_forms() {
    let src = "not (color), not print and (width: 1px)";
    let mut s = Stream::new(src.as_bytes());
    let q1 = MediaQuery::consume(&mut s).unwrap();
    assert_eq!(show(src, &q1), "Condition(Not(Feature(Name(\"color\"))))");
    assert!(s.try_consume_byte(b','));
    let q2 = MediaQuery::consume(&mut s).unwrap();
    assert_eq!(
        show(src, &q2),
        "OtherThing { not_only: Some(Not), media_type: \"print\", conditions: [Media { media: Feature(KeyVal { key: \"width\", val: \"1px\" }), conditions: [] }] }"
    );
}

#[test]
fn media_nested_condition() {
    let src = "((a: 1) or (b: 2))";
    let mut s = Stream::new(src.as_bytes());
    let p = MediaInParens::consume(&mut s).unwrap();
    assert_eq!(
        show(src, &p),
        "Condition(List { first: Feature(KeyVal { key: \"a\", val: \"1\" }), conditions: [Or(Feature(KeyVal { key: \"b\", val: \"2\" }))] })"
    );
}

#[test]
fn raw_at_rules() {
    let src = "@media screen {\n    p:before { content: 'Hello'; }\n}\na { color:red }";
    let (style, raw) = StyleSheet::parse_with_raw(src.as_bytes());
    assert_eq!(style.rules.len(), 1);
    assert_eq!(raw.len(), 1);
    let RawAtRule { ident, prelude, block } = raw[0];
    assert_eq!(txt(src, ident), "media");
    assert_eq!(txt(src, prelude), " screen ");
    assert_eq!(txt(src, block.unwrap()), "\n    p:before { content: 'Hello'; }\n");
}

#[test]
fn value_and_important() {
    let src = "color: red !important;";
    let mut s = Stream::new(src.as_bytes());
    let d = consume_declaration(&mut s).unwrap();
    assert_eq!(txt(src, d.name), "color");
    assert_eq!(txt(src, d.value), "red");
    assert!(d.important);
    let src2 = "  f(a; b) \"x}\" ; next";
    let mut s2 = Stream::new(src2.as_bytes());
    let v = consume_value(&mut s2).unwrap();
    assert_eq!(txt(src2, v), "f(a; b) \"x}\"");
    assert_eq!(s2.pos(), 15);
}

#[test]
fn operand_is_trimmed() {
    let src = "  min-width  : 1px";
    let mut s = Stream::new(src.as_bytes());
    let sp = consume_value2(&mut s);
    assert_eq!(txt(src, sp), "min-width");
    assert_eq!(s.pos(), 13);
    assert_eq!(sp.text(src.as_bytes()), b"min-width");
}

#[test]
fn error_kinds() {
    let s = Stream::new(b"");
    assert_eq!(s.curr_byte(), Err(Error::UnexpectedEndOfStream(0)));
    let mut s = Stream::new(b"x");
    assert_eq!(
        s.consume_byte(b'('),
        Err(Error::InvalidByte { expected: b'(', actual: b'x', pos: 0 })
    );
    let mut s = Stream::new(b"xyz (a: b)");
    assert_eq!(MediaAndOr::consume(&mut s), Err(Error::InvalidIdent(0)));
    let mut s = Stream::new(b"url(x)");
    assert_eq!(
        simplecss::import::ImportUrl::consume(&mut s),
        Err(Error::InvalidString(4))
    );
    let mut s = Stream::new(b"  /* open");
    assert!(matches!(s.skip_spaces_and_comments(), Err(Error::InvalidComment(_))));
    let mut s = Stream::new(b"(a = b = c)");
    assert!(matches!(
        MediaInParens::consume(&mut s),
        Err(Error::UnexpectedCombinator(_))
    ));
}

#[test]
fn comments_and_space_are_skipped() {
    let src = " /* a */ \t/**/x";
    let mut s = Stream::new(src.as_bytes());
    assert_eq!(s.skip_spaces_and_comments(), Ok(()));
    assert_eq!(s.pos(), src.len() - 1);
    let mut s = Stream::new(b"  /x");
    s.skip_spaces();
    assert_eq!(s.pos(), 2);
}

#[test]
fn trim_drops_white_space_at_both_ends() {
    let src = " \t ab c \n";
    let s = Stream::new(src.as_bytes());
    let t = s.trim(Span { start: 0, end: src.len() });
    assert_eq!(txt(src, t), "ab c");
    let e = s.trim(Span { start: 0, end: 3 });
    assert_eq!(e.start, e.end);
}

#[test]
fn keyframe_ident_keeps_percent() {
    let src = "50% {";
    let mut s = Stream::new(src.as_bytes());
    let sp = s.consume_ident_special().unwrap();
    assert_eq!(txt(src, sp), "50%");
    let mut s = Stream::new(src.as_bytes());
    let sp = s.consume_ident().unwrap();
    assert_eq!(txt(src, sp), "50");
}

#[test]
fn text_positions() {
    let s = Stream::new(b"a\nbc\nd");
    assert_eq!(s.text_pos_at(0), TextPos { row: 1, col: 1 });
    assert_eq!(s.text_pos_at(3), TextPos { row: 2, col: 2 });
    assert_eq!(s.text_pos_at(5), TextPos { row: 3, col: 1 });
}

#[test]
fn unknown_case_sensitive_rule_without_block() {
    let src = "Media screen;";
    let mut s = Stream::new(src.as_bytes());
    let r = AtRule::consume(&mut s).unwrap();
    assert_eq!(show(src, &r), "Other { ident: \"Media\", pre_block: \"screen\", block: \"\" }");
}

#[test]
fn container_name_only_stops_at_block() {
    let src = "sidebar {";
    let mut s = Stream::new(src.as_bytes());
    let c = ContainerCondition::consume(&mut s).unwrap();
    assert_eq!(show(src, &c), "NameOnly(\"sidebar\")");
    assert_eq!(&src[s.pos()..], "{");
}

#[test]
fn container_not_feature() {
    let src = "not (width > 400px) {";
    let mut s = Stream::new(src.as_bytes());
    let q = ContainerQuery::consume(&mut s).unwrap();
    assert_eq!(
        show(src, &q),
        "Not(Feature(Feature { key: \"width\", comparison: Greater, value: \"400px\" }))"
    );
}

#[test]
fn container_list_keeps_tags() {
    let src = "(a > 1) or (b > 2) and (c > 3) {";
    let mut s = Stream::new(src.as_bytes());
    let q = ContainerQuery::consume(&mut s).unwrap();
    assert_eq!(
        show(src, &q),
        "List { first: Feature(Feature { key: \"a\", comparison: Greater, value: \"1\" }), rest: [Or(Feature(Feature { key: \"b\", comparison: Greater, value: \"2\" })), And(Feature(Feature { key: \"c\", comparison: Greater, value: \"3\" }))] }"
    );
}

#[test]
fn media_key_value_skips_trailing_space() {
    let src = "(orientation: landscape) {";
    let mut s = Stream::new(src.as_bytes());
    let f = simplecss::media::MediaFeature::consume(&mut s).unwrap();
    assert_eq!(show(src, &f), "KeyVal { key: \"orientation\", val: \"landscape\" }");
    assert_eq!(&src[s.pos()..], "{");
}

#[test]
fn no_match_leaves_cursor_after_white_space() {
    let src = "  tall (x)";
    let mut s = Stream::new(src.as_bytes());
    assert_eq!(SupportsCondition::try_consume(&mut s), Ok(None));
    assert_eq!(&src[s.pos()..], "tall (x)");
    let mut s = Stream::new(src.as_bytes());
    assert_eq!(ContainerQuery::try_consume(&mut s), Ok(None));
    assert_eq!(&src[s.pos()..], "tall (x)");
    let mut s = Stream::new(src.as_bytes());
    assert_eq!(ContainerQueryAndOr::try_consume(&mut s), Ok(None));
    assert_eq!(&src[s.pos()..], "tall (x)");
}

#[test]
fn operand_lists_end_after_white_space() {
    let src = "(a > 1) or (b > 2)  {";
    let mut s = Stream::new(src.as_bytes());
    let q = ContainerQuery::consume(&mut s).unwrap();
    assert!(matches!(q, ContainerQuery::List { .. }));
    assert_eq!(&src[s.pos()..], "{");
    let src = "(a: 1) and (b: 2)  {";
    let mut s = Stream::new(src.as_bytes());
    let c = SupportsCondition::consume(&mut s).unwrap();
    assert!(matches!(c, SupportsCondition::List { .. }));
    assert_eq!(&src[s.pos()..], "{");
    let src = "  {";
    let mut s = Stream::new(src.as_bytes());
    assert_eq!(SupportsAndOr::consume_many(&mut s).unwrap().len(), 0);
    assert_eq!(&src[s.pos()..], "{");
}

#[test]
fn raw_at_rules_include_failed_ones() {
    let src = "@import ;\n@made-up x;\na { color: red }";
    let (style, raw) = StyleSheet::parse_with_raw(src.as_bytes());
    assert_eq!(raw.len(), 2);
    assert_eq!(txt(src, raw[0].ident), "import");
    assert_eq!(txt(src, raw[1].ident), "made-up");
    assert_eq!(style.at_rules.len(), 1);
    assert_eq!(style.rules.len(), 1);
}
