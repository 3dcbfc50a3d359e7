use ezlz::error::Error;
use ezlz::store::locale_name;
use ezlz::{__arg, compile, is_identifier, Arg, Template, Translations};

fn load(translations: &mut Translations, name: &str, source: &str) -> Result<(), Error> {
    let path = format!("locales/{name}.yml");
    translations.add_locale(name, &path, source)
}

fn render(template: &str, args: &[(&str, Arg<'_>)]) -> String {
    match Template::compile(template) {
        Ok(t) => t.render(args),
        Err(m) => panic!("{m}"),
    }
}

fn float(value: f64) -> Arg<'static> {
    let mut buffer = zmij::Buffer::new();
    Arg::Float { bits: value.to_bits(), text: buffer.format(value).to_owned() }
}

fn message(result: Result<(), Error>) -> String {
    match result {
        Err(e) => e.message(),
        Ok(()) => "ok".to_owned(),
    }
}

#[test]
fn identifiers() {
    assert!(is_identifier(""));
    assert!(is_identifier("a_1Z"));
    assert!(!is_identifier("a-b"));
    assert!(!is_identifier("a b"));
    assert!(!is_identifier("é"));
}

#[test]
fn plural_compile_and_render() {
    let (name, rules) = compile("n|=1: fox| foxes").expect("plural");
    assert_eq!(name, "n");
    let mut out = String::from(">");
    rules.render(&mut out, &Arg::Int(1));
    assert_eq!(out, ">1 fox");
    let mut out = String::new();
    rules.render(&mut out, &Arg::Uint(7));
    assert_eq!(out, "7 foxes");
    // A non-numeric argument is written as is.
    let mut out = String::new();
    rules.render(&mut out, &Arg::String("many"));
    assert_eq!(out, "many");
    // The first piece must be a name, and every selector's bounds must parse.
    assert!(compile("a b|=1: x").is_none());
    assert!(compile("n|=x: foo").is_none());
    assert!(compile("n|=300: foo").is_none());
    assert!(compile("n|é1: foo").is_none());
    assert!(compile("n|=1-: foo").is_none());
    assert!(compile("").is_some());
    // No rule matches: the number alone.
    let (_, rules) = compile("n|=1:one").expect("plural");
    let mut out = String::new();
    rules.render(&mut out, &Arg::Int(2));
    assert_eq!(out, "2");
}

#[test]
fn plural_selectors() {
    // Replacement text, open ranges, modulo selectors and the `+` sign of a bound.
    assert_eq!(render("{n|=0:=none|=2+:=some}", &[("n", Arg::Int(0))]), "none");
    assert_eq!(render("{n|=0:=none|=2+:=some}", &[("n", Arg::Int(5))]), "some");
    assert_eq!(render("{n|%2-4: a| b}", &[("n", Arg::Int(23))]), "23 a");
    assert_eq!(render("{n|#11-14: a| b}", &[("n", Arg::Int(113))]), "113 a");
    assert_eq!(render("{n|=+5: five| other}", &[("n", Arg::Int(5))]), "5 five");
    // A range whose upper bound is 255 is open-ended.
    assert_eq!(render("{n|=3-255: big| small}", &[("n", Arg::Int(1000))]), "1000 big");
    // An unknown operator always matches.
    assert_eq!(render("{n|?7: any| none}", &[("n", Arg::Int(1))]), "1 any");
    // The `.` selector matches float inputs only.
    assert_eq!(render("{n|.: float| int}", &[("n", float(1.0))]), "1.0 float");
    assert_eq!(render("{n|.: float| int}", &[("n", Arg::Int(1))]), "1 int");
    // `~` matches floats by their truncated absolute value.
    assert_eq!(render("{n|~1: one| other}", &[("n", float(-1.75))]), "-1.75 one");
    assert_eq!(render("{n|=1: one| other}", &[("n", float(-1.75))]), "-1.75 other");
}

#[test]
fn numbers_render_in_decimal() {
    assert_eq!(render("{n}", &[("n", Arg::Int(-42))]), "-42");
    assert_eq!(render("{n}", &[("n", Arg::Int(i64::MIN))]), "-9223372036854775808");
    assert_eq!(render("{n}", &[("n", Arg::Uint(u64::MAX))]), "18446744073709551615");
    assert_eq!(render("{n}", &[("n", Arg::Uint(0))]), "0");
    assert_eq!(Arg::Int(i64::MIN).abs_trunc(), 9223372036854775808);
    assert_eq!(Arg::Int(-3).abs_trunc(), 3);
}

#[test]
fn template_errors() {
    match Template::compile("abc {x") {
        Err(m) => assert_eq!(m, "unclosed placeholder"),
        Ok(_) => panic!("expected an error"),
    }
    match Template::compile("{a b}") {
        Err(m) => assert_eq!(m, "unable to parse placeholder"),
        Ok(_) => panic!("expected an error"),
    }
    // A selector whose bounds do not parse makes an invalid placeholder.
    for text in ["{n|x:y}", "{n|=300:y}", "{n|=1-:y}", "{n|é1:y}", "{n|=x: foo}", "a {b} {n|=2+:y"] {
        match Template::compile(text) {
            Err(m) if text.ends_with('}') => assert_eq!(m, "unable to parse placeholder"),
            Err(m) => assert_eq!(m, "unclosed placeholder"),
            Ok(_) => panic!("expected an error for {text}"),
        }
    }
}

#[test]
fn rendering() {
    // Missing arguments render nothing; the first argument of a name is used;
    // placeholders of the same name render the same value.
    assert_eq!(render("[{a}]", &[]), "[]");
    assert_eq!(render("{a}{a}", &[("a", Arg::String("x")), ("a", Arg::String("y"))]), "xx");
    assert_eq!(render("{}", &[("", Arg::Int(1))]), "1");
    assert_eq!(render("{a}", &[("b", Arg::Int(1)), ("a", Arg::Int(2))]), "2");
    assert_eq!(render("{ab}", &[("a", Arg::Int(1)), ("abc", Arg::Int(2))]), "");
    assert_eq!(render("plain text", &[("a", Arg::Int(1))]), "plain text");
    assert_eq!(render("", &[]), "");
    assert_eq!(render(r"a \{b} \\{c}", &[("c", Arg::Int(3))]), r"a {b} \\3");
}

#[test]
fn to_arg_conversions() {
    assert!(__arg(&5u8) == Arg::Uint(5));
    assert!(__arg(&5usize) == Arg::Uint(5));
    assert!(__arg(&-5i8) == Arg::Int(-5));
    assert!(__arg(&-5isize) == Arg::Int(-5));
    assert!(__arg(&"s") == Arg::String("s"));
    let owned = String::from("owned");
    assert!(__arg(&owned) == Arg::String("owned"));
}

#[test]
fn lookup_with_fallback() {
    let mut tr = Translations::new("en");
    assert!(!tr.has_fallback());
    assert_eq!(message(load(&mut tr, "en", "a: A\nb: B\n")), "ok");
    assert_eq!(message(load(&mut tr, "fr", "a: Fa\n")), "ok");
    assert!(tr.has_fallback());
    assert_eq!(tr.get("fr", "a", &[]), Some("Fa".to_owned()));
    assert_eq!(tr.get("fr", "b", &[]), Some("B".to_owned()));
    assert_eq!(tr.get("de", "a", &[]), Some("A".to_owned()));
    assert_eq!(tr.get("fr", "c", &[]), None);
    // Loading a locale again replaces it.
    assert_eq!(message(load(&mut tr, "fr", "b: Fb\n")), "ok");
    assert_eq!(tr.get("fr", "a", &[]), Some("A".to_owned()));
    assert_eq!(tr.get("fr", "b", &[]), Some("Fb".to_owned()));
}

#[test]
fn dotted_keys() {
    let mut tr = Translations::new("en");
    assert_eq!(message(load(&mut tr, "en", "a:\n  b:\n    c: deep\n\"\": top\n")), "ok");
    assert_eq!(tr.get("en", "a.b.c", &[]), Some("deep".to_owned()));
    assert_eq!(tr.get("en", "", &[]), Some("top".to_owned()));
    // A later key with the same dotted name wins.
    let mut tr = Translations::new("en");
    assert_eq!(message(load(&mut tr, "en", "a.b: first\na:\n  b: second\n")), "ok");
    assert_eq!(tr.get("en", "a.b", &[]), Some("second".to_owned()));
}

#[test]
fn load_errors() {
    let mut tr = Translations::new("en");
    let m = message(load(&mut tr, "en", "a: [unclosed"));
    assert!(m.starts_with("failed to parse locales/en.yml: "));
    assert_eq!(
        message(load(&mut tr, "en", "1: x\n")),
        "invalid YAML in locales/en.yml: template keys must be strings"
    );
    assert_eq!(
        message(load(&mut tr, "en", "a: 1\n")),
        "invalid YAML in locales/en.yml: template value must be a string, got Number(1)"
    );
    assert_eq!(
        message(load(&mut tr, "en", "a:\n  b: \"{x\"\n")),
        "invalid template 'a.b' in locales/en.yml: unclosed placeholder"
    );
    assert_eq!(
        message(load(&mut tr, "en", "a: \"{n|z:q}\"\n")),
        "invalid template 'a' in locales/en.yml: unable to parse placeholder"
    );
    // Nothing was stored by the failed loads.
    assert!(!tr.has_fallback());
}

#[test]
fn error_messages() {
    let e = Error::Io { path: "p".to_owned(), source: "denied".to_owned() };
    assert_eq!(e.message(), "failed to read p: denied");
    let e = Error::ParseYaml { path: "p".to_owned(), source: "bad".to_owned() };
    assert_eq!(e.message(), "failed to parse p: bad");
    let e = Error::InvalidYaml { path: "p".to_owned(), message: "m".to_owned() };
    assert_eq!(e.message(), "invalid YAML in p: m");
    let e = Error::InvalidTemplate {
        path: "p".to_owned(),
        key: "k".to_owned(),
        message: "m".to_owned(),
    };
    assert_eq!(e.message(), "invalid template 'k' in p: m");
    assert_eq!(
        Error::AlreadyInitialized.message(),
        "ezlz::init() can't be called again after a successful initialization"
    );
    let e = Error::FallbackLocaleNotFound { name: "en".to_owned(), path: "dir".to_owned() };
    assert_eq!(e.message(), "fallback locale 'en' not found in dir");
}

#[test]
fn laws_on_values() {
    // Selection sees only the magnitude: -21, 21 and 21u select the same rule.
    let ru = "{i|.: стола|#11-14: столов|%1: стол|%2-4: стола| столов}";
    assert_eq!(render(ru, &[("i", Arg::Int(-21))]), "-21 стол");
    assert_eq!(render(ru, &[("i", Arg::Uint(21))]), "21 стол");
    // Floats only match `.`, `~` and rules without a selector.
    assert_eq!(render("{i|=1: a|%1: b|#1: c| d}", &[("i", float(1.0))]), "1.0 d");
}

#[test]
fn locale_file_names() {
    assert_eq!(locale_name("en.yml"), Some("en".to_owned()));
    assert_eq!(locale_name("en_GB.yaml"), Some("en_GB".to_owned()));
    assert_eq!(locale_name("a.b.yml"), Some("a.b".to_owned()));
    assert_eq!(locale_name("..yml"), Some(".".to_owned()));
    assert_eq!(locale_name(".yml"), None);
    assert_eq!(locale_name("en.txt"), None);
    assert_eq!(locale_name("en"), None);
    assert_eq!(locale_name("en.yml.bak"), None);
    assert_eq!(locale_name("en."), None);
    assert_eq!(locale_name("en.YML"), None);
}

#[test]
fn replaced_translations() {
    // A key given twice in one file, and a locale loaded twice, keep the later one.
    let mut tr = Translations::new("en");
    assert_eq!(message(load(&mut tr, "en", "a.b: one\na:\n  b: two\n")), "ok");
    assert_eq!(tr.get("en", "a.b", &[]), Some("two".to_owned()));
    assert_eq!(message(load(&mut tr, "en", "a.b: three\n")), "ok");
    assert_eq!(tr.get("en", "a.b", &[]), Some("three".to_owned()));
    assert_eq!(tr.fallback(), "en");
}

#[test]
fn float_arguments() {
    // Equality follows floating-point equality.
    assert!(float(0.0) == float(-0.0));
    assert!(float(f64::NAN) != float(f64::NAN));
    assert!(float(1.5) == float(1.5));
    assert!(float(1.5) != float(2.5));
    assert!(float(1.0) != Arg::Int(1));
    assert!(Arg::String("a") == Arg::String("a"));
    assert!(Arg::String("a") != Arg::String("b"));
    // The truncated absolute value is `|x| as u64`.
    for v in [
        0.0,
        -0.0,
        0.5,
        1.75,
        -2.5,
        1e10,
        -123456.999,
        9007199254740993.0,
        9223372036854775808.0,
        18446744073709549568.0,
        1e30,
        5e-324,
        f64::INFINITY,
        f64::NEG_INFINITY,
        f64::NAN,
        f64::MAX,
    ] {
        assert_eq!(float(v).abs_trunc(), v.abs() as u64, "{v}");
    }
}
