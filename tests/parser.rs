use motd::template::{Directive, Item, MotdTemplateParser};

fn plain(items: &[Item]) -> String {
    let mut out = String::new();
    for i in items {
        match i {
            Item::Literal(t) => out.push_str(t),
            Item::Escape(c) => out.push(*c),
            _ => {}
        }
    }
    out
}

#[test]
fn literal_and_escapes_render_verbatim() {
    let items = MotdTemplateParser::parse("Welcome \\{home\\} \\[x\\]\\\\ done\n").unwrap();
    assert_eq!(plain(&items), "Welcome {home} [x]\\ done\n");
    assert!(matches!(&items[0], Item::Literal(t) if t == "Welcome "));
    assert!(matches!(&items[1], Item::Escape('{')));
}

#[test]
fn empty_template_has_no_items() {
    assert!(MotdTemplateParser::parse("").unwrap().is_empty());
}

#[test]
fn lone_escape_mark_is_an_error() {
    let e = MotdTemplateParser::parse("ab\\").unwrap_err();
    assert_eq!(e.offset, 2);
    assert_eq!(e.line, 1);
    assert_eq!(e.column, 3);
}

#[test]
fn directives_and_expressions_parse() {
    let items =
        MotdTemplateParser::parse("[ n = cpu_cores  g = \"echo $n\" ]Load: { load1 :warn_color :percent $g :bold }")
            .unwrap();
    assert_eq!(items.len(), 3);
    match &items[0] {
        Item::Directives(ds) => {
            assert_eq!(ds.len(), 2);
            assert!(matches!(&ds[0], Directive::Environ { name, builtin } if name == "n" && builtin == "cpu_cores"));
            assert!(matches!(&ds[1], Directive::Custom { name, command } if name == "g" && command == "echo $n"));
        }
        _ => panic!("expected directives"),
    }
    assert!(matches!(&items[1], Item::Literal(t) if t == "Load: "));
    match &items[2] {
        Item::Expressions(es) => {
            assert_eq!(es.len(), 2);
            assert!(!es[0].custom);
            assert_eq!(es[0].name, "load1");
            assert_eq!(es[0].modifiers, vec!["warn_color".to_string(), "percent".to_string()]);
            assert!(es[1].custom);
            assert_eq!(es[1].name, "g");
            assert_eq!(es[1].modifiers, vec!["bold".to_string()]);
        }
        _ => panic!("expected expressions"),
    }
}

#[test]
fn empty_section_reports_position() {
    let e = MotdTemplateParser::parse("x\n{ }").unwrap_err();
    assert_eq!(e.offset, 4);
    assert_eq!(e.line, 2);
    assert_eq!(e.column, 3);
    assert_eq!(e.found, "}");
}

#[test]
fn unclosed_command_is_an_error() {
    let e = MotdTemplateParser::parse("[ g = \"echo ]").unwrap_err();
    assert_eq!(e.offset, 6);
}

#[test]
fn missing_identifier_is_an_error() {
    let e = MotdTemplateParser::parse("{ :bold }").unwrap_err();
    assert_eq!(e.offset, 2);
    assert_eq!(e.found, ":bold }");
}

#[test]
fn sections_without_spaces_parse() {
    let items = MotdTemplateParser::parse("[a=load1 b=\"uptime\"]{$b:bold load1}").unwrap();
    assert_eq!(items.len(), 2);
    match &items[1] {
        Item::Expressions(es) => {
            assert_eq!(es.len(), 2);
            assert!(es[0].custom);
            assert_eq!(es[0].name, "b");
            assert_eq!(es[0].modifiers, vec!["bold".to_string()]);
            assert!(!es[1].custom);
            assert_eq!(es[1].name, "load1");
            assert!(es[1].modifiers.is_empty());
        }
        _ => panic!("expected expressions"),
    }
}

#[test]
fn modifier_mark_needs_a_name() {
    let e = MotdTemplateParser::parse("{ load1 : bold }").unwrap_err();
    assert_eq!(e.offset, 9);
}

#[test]
fn directive_needs_a_value() {
    let e = MotdTemplateParser::parse("[ a = ]").unwrap_err();
    assert_eq!(e.offset, 6);
    let e = MotdTemplateParser::parse("[ a load1 ]").unwrap_err();
    assert_eq!(e.offset, 4);
}

#[test]
fn closing_marks_alone_are_literal() {
    let items = MotdTemplateParser::parse("a } b ]").unwrap();
    assert_eq!(items.len(), 1);
    assert!(matches!(&items[0], Item::Literal(t) if t == "a } b ]"));
}
