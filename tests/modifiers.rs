use motd::modifiers::{severity, Modifier, Severity};
use motd::render::Renderer;
use motd::{bold, build_modifiers, percent, underline, warn_color};

fn styling_on() {
    colored::control::set_override(true);
}

#[test]
fn warn_color_ninety_is_not_brightest() {
    styling_on();
    assert_eq!(warn_color("90.0"), "\x1b[31m90.0\x1b[0m");
}

#[test]
fn warn_color_above_ninety_is_brightest() {
    styling_on();
    assert_eq!(warn_color("90.1"), "\x1b[91m90.1\x1b[0m");
}

#[test]
fn warn_color_non_numeric_is_neutral() {
    styling_on();
    assert_eq!(warn_color("abc"), "\x1b[37mabc\x1b[0m");
}

#[test]
fn warn_color_tiers() {
    styling_on();
    assert_eq!(warn_color("86"), "\x1b[31m86\x1b[0m");
    assert_eq!(warn_color("85"), "\x1b[33m85\x1b[0m");
    assert_eq!(warn_color("75.5"), "\x1b[33m75.5\x1b[0m");
    assert_eq!(warn_color("75"), "\x1b[32m75\x1b[0m");
    assert_eq!(warn_color("12%"), "\x1b[32m12%\x1b[0m");
}

#[test]
fn severity_reads_numeric_prefix() {
    assert_eq!(severity("90.0"), Severity::High);
    assert_eq!(severity("90.1"), Severity::Critical);
    assert_eq!(severity("100 GB"), Severity::Critical);
    assert_eq!(severity("0.5"), Severity::Normal);
    assert_eq!(severity(".5"), Severity::Normal);
    assert_eq!(severity("80."), Severity::Elevated);
    assert_eq!(severity("1.2.3"), Severity::Normal);
    assert_eq!(severity("95.5.1"), Severity::Critical);
    assert_eq!(severity("95.5."), Severity::Critical);
    assert_eq!(severity("9\u{b2}"), Severity::Normal);
    assert_eq!(severity("."), Severity::Unknown);
    assert_eq!(severity(""), Severity::Unknown);
    assert_eq!(severity("n/a"), Severity::Unknown);
    assert_eq!(severity("90.000"), Severity::High);
    assert_eq!(severity("0090.01"), Severity::Critical);
}

#[test]
fn bold_and_underline_style_the_text() {
    styling_on();
    assert_eq!(bold("up"), "\x1b[1mup\x1b[0m");
    assert_eq!(underline("up"), "\x1b[4mup\x1b[0m");
}

#[test]
fn percent_appends_sign() {
    assert_eq!(percent("92"), "92%");
    assert_eq!(percent(""), "%");
}

#[test]
fn modifier_order_matters() {
    styling_on();
    let r = Renderer::new();
    let a = r
        .finish("92".to_string(), &vec!["warn_color".to_string(), "percent".to_string()])
        .unwrap();
    let b = r
        .finish("92".to_string(), &vec!["percent".to_string(), "warn_color".to_string()])
        .unwrap();
    assert_eq!(a, "\x1b[91m92\x1b[0m%");
    assert_eq!(b, "\x1b[91m92%\x1b[0m");
    assert_ne!(a, b);
}

#[test]
fn modifier_registry_names() {
    let m = build_modifiers();
    assert_eq!(m.get("warn_color"), Some(&Modifier::WarnColor));
    assert_eq!(m.get("bold"), Some(&Modifier::Bold));
    assert_eq!(m.get("underline"), Some(&Modifier::Underline));
    assert_eq!(m.get("percent"), Some(&Modifier::Percent));
    assert_eq!(m.get("italic"), None);
}

#[test]
fn warn_color_reads_digits_with_one_point() {
    styling_on();
    assert_eq!(warn_color("95.5.1"), "\x1b[91m95.5.1\x1b[0m");
    assert_eq!(warn_color("9\u{b2}"), "\x1b[32m9\u{b2}\x1b[0m");
}

#[test]
fn styling_resumes_after_inner_reset() {
    styling_on();
    let inner = warn_color("50");
    assert_eq!(bold(&inner), "\x1b[1m\x1b[32m50\x1b[0m\x1b[1m\x1b[0m");
}
