use ezlz::{__arg, Arg, Translations};

const EN_YML: &str = r#"
plurals:
  russian: "{n|=1: штука|=2-4: штуки| штук}"
  items: "{n|=0:|=1: штука|=2-4: штуки| штук}"
  english: "{n|=1: piece| pieces}"
  item: "{n|=0:| item(s)}"
  singular: "{n|=1: singular}"
  decimal: "{n|=0:.0000}"
  some: "{n|=0:=none|=2+:=some}"
  exact: "{n|=0:=zero|=1:=one|=2:=two|=3+:more that two}"
  non_null: "{n|=1+:=not null}"
  before: "{n|=1+:= is }{n|=0:=}"
messages:
  hello: "Hello, world!"
  greet: "Hello, {name}!"
  count: "{name} has {count} messages."
errors:
  not_found: "Not found"
nested:
  deeply:
    nested:
      value: "Deep value"
"#;

const DE_YML: &str = r#"
messages:
  hello: "Hallo Welt!"
  greet: "Hallo, {name}!"
nested:
  deeply:
    nested:
      value: "Tiefer Wert"
"#;

const EN_GB_YML: &str = r#"
messages:
  hello: "Hello, world!"
"#;

fn load(fallback: &str, files: &[(&str, &str)]) -> Translations {
    let mut translations = Translations::new(fallback);
    for (name, source) in files {
        let path = format!("tests/locales/{name}.yml");
        match translations.add_locale(name, &path, source) {
            Ok(()) => {}
            Err(e) => panic!("{}", e.message()),
        }
    }
    assert!(translations.has_fallback());
    translations
}

fn n(value: &'static i32) -> [(&'static str, Arg<'static>); 1] {
    [("n", __arg(value))]
}

fn t(translations: &Translations, locale: &str, key: &str, args: &[(&str, Arg<'_>)]) -> String {
    translations.get(locale, key, args).expect("translation not found")
}

#[test]
fn translations_work() {
    let tr = load("en", &[("en", EN_YML), ("de", DE_YML), ("en_GB", EN_GB_YML)]);

    assert_eq!(t(&tr, "en", "plurals.russian", &n(&0)), "0 штук");
    assert_eq!(t(&tr, "en", "plurals.russian", &n(&1)), "1 штука");
    assert_eq!(t(&tr, "en", "plurals.russian", &n(&2)), "2 штуки");
    assert_eq!(t(&tr, "en", "plurals.russian", &n(&3)), "3 штуки");
    assert_eq!(t(&tr, "en", "plurals.russian", &n(&4)), "4 штуки");
    assert_eq!(t(&tr, "en", "plurals.russian", &n(&5)), "5 штук");
    assert_eq!(t(&tr, "en", "plurals.russian", &n(&100)), "100 штук");

    assert_eq!(t(&tr, "en", "plurals.items", &n(&0)), "0");
    assert_eq!(t(&tr, "en", "plurals.items", &n(&1)), "1 штука");
    assert_eq!(t(&tr, "en", "plurals.items", &n(&2)), "2 штуки");
    assert_eq!(t(&tr, "en", "plurals.items", &n(&4)), "4 штуки");
    assert_eq!(t(&tr, "en", "plurals.items", &n(&5)), "5 штук");
    assert_eq!(t(&tr, "en", "plurals.items", &n(&9)), "9 штук");
    assert_eq!(t(&tr, "en", "plurals.items", &n(&10)), "10 штук");
    assert_eq!(t(&tr, "en", "plurals.items", &n(&100)), "100 штук");

    assert_eq!(t(&tr, "en", "plurals.english", &n(&0)), "0 pieces");
    assert_eq!(t(&tr, "en", "plurals.english", &n(&1)), "1 piece");
    assert_eq!(t(&tr, "en", "plurals.english", &n(&2)), "2 pieces");
    assert_eq!(t(&tr, "en", "plurals.english", &n(&10)), "10 pieces");

    assert_eq!(t(&tr, "en", "plurals.item", &n(&0)), "0");
    assert_eq!(t(&tr, "en", "plurals.item", &n(&1)), "1 item(s)");
    assert_eq!(t(&tr, "en", "plurals.item", &n(&2)), "2 item(s)");
    assert_eq!(t(&tr, "en", "plurals.item", &n(&10)), "10 item(s)");

    assert_eq!(t(&tr, "en", "plurals.singular", &n(&0)), "0");
    assert_eq!(t(&tr, "en", "plurals.singular", &n(&1)), "1 singular");
    assert_eq!(t(&tr, "en", "plurals.singular", &n(&2)), "2");

    assert_eq!(t(&tr, "en", "plurals.decimal", &n(&0)), "0.0000");
    assert_eq!(t(&tr, "en", "plurals.decimal", &n(&1)), "1");
    assert_eq!(t(&tr, "en", "plurals.decimal", &n(&42)), "42");

    assert_eq!(t(&tr, "en", "plurals.some", &n(&0)), "none");
    assert_eq!(t(&tr, "en", "plurals.some", &n(&1)), "1");
    assert_eq!(t(&tr, "en", "plurals.some", &n(&2)), "some");
    assert_eq!(t(&tr, "en", "plurals.some", &n(&100)), "some");

    assert_eq!(t(&tr, "en", "plurals.exact", &n(&0)), "zero");
    assert_eq!(t(&tr, "en", "plurals.exact", &n(&1)), "one");
    assert_eq!(t(&tr, "en", "plurals.exact", &n(&2)), "two");
    assert_eq!(t(&tr, "en", "plurals.exact", &n(&3)), "3more that two");
    assert_eq!(t(&tr, "en", "plurals.exact", &n(&100)), "100more that two");

    assert_eq!(t(&tr, "en", "plurals.non_null", &n(&0)), "0");
    assert_eq!(t(&tr, "en", "plurals.non_null", &n(&1)), "not null");
    assert_eq!(t(&tr, "en", "plurals.non_null", &n(&2)), "not null");
    assert_eq!(t(&tr, "en", "plurals.non_null", &n(&100)), "not null");

    assert_eq!(t(&tr, "en", "plurals.before", &n(&0)), "0");
    assert_eq!(t(&tr, "en", "plurals.before", &n(&1)), " is 1");
    assert_eq!(t(&tr, "en", "plurals.before", &n(&2)), " is 2");
    assert_eq!(t(&tr, "en", "plurals.before", &n(&100)), " is 100");

    // Basic literal locale lookup.
    assert_eq!(t(&tr, "en", "messages.hello", &[]), "Hello, world!");

    // Dynamic locale.
    let lang = "de";
    assert_eq!(t(&tr, lang, "messages.hello", &[]), "Hallo Welt!");

    // Bare identifier interpolation.
    let name = "Anna";
    assert_eq!(t(&tr, "en", "messages.greet", &[("name", __arg(&name))]), "Hello, Anna!");

    // Named expression interpolation.
    struct User {
        name: String,
    }
    let user = User { name: "Anna".to_owned() };
    assert_eq!(t(&tr, "en", "messages.greet", &[("name", __arg(&user.name))]), "Hello, Anna!");

    // Multiple arguments.
    let name = "Anna";
    let count = 42;
    assert_eq!(
        t(&tr, "en", "messages.count", &[("name", __arg(&name)), ("count", __arg(&count))]),
        "Anna has 42 messages."
    );

    // Regional locale.
    assert_eq!(t(&tr, "en_GB", "messages.hello", &[]), "Hello, world!");

    // `en_GB` doesn't contain `errors.not_found`, so this falls back to `en`.
    assert_eq!(t(&tr, "en_GB", "errors.not_found", &[]), "Not found");

    // Nested YAML keys.
    assert_eq!(t(&tr, "en", "nested.deeply.nested.value", &[]), "Deep value");

    // Nested keys from another locale.
    assert_eq!(t(&tr, "de", "nested.deeply.nested.value", &[]), "Tiefer Wert");

    // Dynamic locale + interpolation.
    let lang = "de";
    let name = "Anna";
    assert_eq!(t(&tr, lang, "messages.greet", &[("name", __arg(&name))]), "Hallo, Anna!");

    // Explicit named arguments.
    let user_name = String::from("Anna");
    let message_count = 42;
    assert_eq!(
        t(
            &tr,
            "en",
            "messages.count",
            &[("name", __arg(&user_name)), ("count", __arg(&message_count))]
        ),
        "Anna has 42 messages."
    );
}
