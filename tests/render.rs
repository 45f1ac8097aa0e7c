use motd::builtins::{cpu_cores, Builtin, Snapshot};
use motd::render::{command_value, RenderError, Renderer, Source};
use motd::table::Table;
use motd::template::{Directive, Expression};

fn custom_ref(name: &str) -> Expression {
    Expression { custom: true, name: name.to_string(), modifiers: Vec::new() }
}

fn define(r: &mut Renderer, name: &str, command: &str) {
    let d = Directive::Custom { name: name.to_string(), command: command.to_string() };
    assert!(matches!(r.directive(&d), Ok(None)));
}

#[test]
fn custom_before_definition_is_undefined() {
    let mut r = Renderer::new();
    assert!(matches!(r.source(&custom_ref("g")), Err(RenderError::UndefinedCustom(n)) if n == "g"));
    define(&mut r, "g", "echo hi");
    assert!(matches!(r.source(&custom_ref("g")), Ok(Source::Command(c)) if c == "echo hi"));
}

#[test]
fn redefinition_overwrites_later_references() {
    let mut r = Renderer::new();
    define(&mut r, "g", "echo one");
    let first = r.source(&custom_ref("g"));
    define(&mut r, "g", "echo two");
    assert!(matches!(first, Ok(Source::Command(c)) if c == "echo one"));
    assert!(matches!(r.source(&custom_ref("g")), Ok(Source::Command(c)) if c == "echo two"));
}

#[test]
fn unknown_builtin_fails() {
    let mut r = Renderer::new();
    let d = Directive::Environ { name: "x".to_string(), builtin: "nope".to_string() };
    assert!(matches!(r.directive(&d), Err(RenderError::UnknownBuiltin(n)) if n == "nope"));
    let e = Expression { custom: false, name: "nope".to_string(), modifiers: Vec::new() };
    assert!(matches!(r.source(&e), Err(RenderError::UnknownBuiltin(n)) if n == "nope"));
}

#[test]
fn unknown_modifier_fails() {
    let r = Renderer::new();
    let names = vec!["percent".to_string(), "shout".to_string()];
    assert!(matches!(r.finish("1".to_string(), &names), Err(RenderError::UnknownModifier(n)) if n == "shout"));
    assert_eq!(r.finish("1".to_string(), &Vec::new()).unwrap(), "1");
}

#[test]
fn bound_value_reaches_command_environment() {
    let mut r = Renderer::new();
    let d = Directive::Environ { name: "name".to_string(), builtin: "cpu_cores".to_string() };
    let b = r.directive(&d).unwrap();
    assert_eq!(b, Some(Builtin::CpuCores));
    let snap = Snapshot {
        cpu_count: 4,
        total_memory: 1,
        used_memory: 0,
        total_swap: 1,
        used_swap: 0,
        disks: Vec::new(),
        host_name: None,
        kernel_version: None,
    };
    let v = cpu_cores(&snap).unwrap();
    r.bind("name".to_string(), v);
    assert_eq!(r.environment(), &vec![("name".to_string(), "4".to_string())]);
    define(&mut r, "g", "echo $name");
    assert!(matches!(r.source(&custom_ref("g")), Ok(Source::Command(c)) if c == "echo $name"));
}

#[test]
fn builtin_expression_names_metric() {
    let r = Renderer::new();
    let e = Expression { custom: false, name: "memory_usage".to_string(), modifiers: Vec::new() };
    assert!(matches!(r.source(&e), Ok(Source::Metric(Builtin::MemoryUsage))));
}

#[test]
fn table_later_binding_wins() {
    let mut t: Table<u8> = Table::new();
    assert_eq!(t.get("a"), None);
    t.insert("a".to_string(), 1);
    t.insert("b".to_string(), 2);
    t.insert("a".to_string(), 3);
    assert_eq!(t.get("a"), Some(&3));
    assert_eq!(t.get("b"), Some(&2));
}

#[test]
fn command_output_is_trimmed() {
    assert_eq!(command_value("  4\n"), "4");
    assert_eq!(command_value("\u{a0}a b\t"), "a b");
    assert_eq!(command_value(""), "");
}

#[test]
fn first_unknown_modifier_is_reported() {
    let r = Renderer::new();
    let names = vec!["bold".to_string(), "loud".to_string(), "shout".to_string()];
    assert!(matches!(r.finish("1".to_string(), &names), Err(RenderError::UnknownModifier(n)) if n == "loud"));
}
