use ezlz::{Arg, Translations};

const TEST_YML: &str = r#"
test:
  escape: '\{x}'
  escape2: '\\{x}'
  escape3: '\\\{x}'
  escape4: '\{x} bar \\{x} qux \\\{x}'
"#;

fn load(fallback: &str, files: &[(&str, &str)]) -> Translations {
    let mut translations = Translations::new(fallback);
    for (name, source) in files {
        let path = format!("tests/locales/{name}.yml");
        match translations.add_locale(name, &path, source) {
            Ok(()) => {}
            Err(e) => panic!("{}", e.message()),
        }
    }
    assert!(translations.has_fallback());
    translations
}

fn t(translations: &Translations, locale: &str, key: &str, args: &[(&str, Arg<'_>)]) -> String {
    translations.get(locale, key, args).expect("translation not found")
}

#[test]
fn test_escaping() {
    let tr = load("test", &[("test", TEST_YML)]);

    assert_eq!(t(&tr, "test", "test.escape", &[("x", Arg::String("foo"))]), "{x}");
    assert_eq!(t(&tr, "test", "test.escape2", &[("x", Arg::String("foo"))]), r"\\foo");
    assert_eq!(t(&tr, "test", "test.escape3", &[("x", Arg::String("foo"))]), r"\\{x}");
    assert_eq!(
        t(&tr, "test", "test.escape4", &[("x", Arg::String("foo"))]),
        r"{x} bar \\foo qux \\{x}"
    );
}
