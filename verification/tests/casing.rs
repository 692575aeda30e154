use configopt_schema::casing::CasingStyle;
use configopt_schema::error::SchemaError;

#[test]
fn kebab_splits_words_with_hyphens() {
    assert_eq!(CasingStyle::Kebab.rename("fooBar"), "foo-bar");
    assert_eq!(CasingStyle::Kebab.rename("listen_port"), "listen-port");
    assert_eq!(CasingStyle::Kebab.rename("XMLHttpRequest"), "xml-http-request");
}

#[test]
fn snake_splits_words_with_underscores() {
    assert_eq!(CasingStyle::Snake.rename("fooBar"), "foo_bar");
    assert_eq!(CasingStyle::Snake.rename("kebab-case"), "kebab_case");
}

#[test]
fn screaming_snake_shouts() {
    assert_eq!(CasingStyle::ScreamingSnake.rename("fooBar"), "FOO_BAR");
}

#[test]
fn camel_lowers_the_first_word() {
    assert_eq!(CasingStyle::Camel.rename("foo_bar"), "fooBar");
    assert_eq!(CasingStyle::Camel.rename("FooBar"), "fooBar");
}

#[test]
fn pascal_capitalizes_every_word() {
    assert_eq!(CasingStyle::Pascal.rename("foo_bar"), "FooBar");
    assert_eq!(CasingStyle::Pascal.rename("fooBar"), "FooBar");
}

#[test]
fn verbatim_is_the_identity() {
    assert_eq!(CasingStyle::Verbatim.rename("foo_Bar-baz"), "foo_Bar-baz");
    assert_eq!(CasingStyle::Verbatim.rename(""), "");
    assert_eq!(CasingStyle::Verbatim.rename("__"), "__");
}

#[test]
fn renaming_twice_changes_nothing_for_plain_identifiers() {
    let styles = [
        CasingStyle::Camel,
        CasingStyle::Kebab,
        CasingStyle::Pascal,
        CasingStyle::ScreamingSnake,
        CasingStyle::Snake,
        CasingStyle::Verbatim,
    ];
    for style in styles {
        for ident in ["host", "listen_port", "maxRetryCount", "generate_config"] {
            let once = style.rename(ident);
            let twice = style.rename(&once);
            assert_eq!(twice, once);
        }
    }
}

#[test]
fn pascal_is_not_idempotent_on_single_letter_words() {
    let once = CasingStyle::Pascal.rename("a_b");
    assert_eq!(once, "AB");
    assert_eq!(CasingStyle::Pascal.rename(&once), "Ab");
}

#[test]
fn every_style_token_is_read() {
    let cases = [
        ("camel", CasingStyle::Camel),
        ("camelcase", CasingStyle::Camel),
        ("kebab", CasingStyle::Kebab),
        ("kebabcase", CasingStyle::Kebab),
        ("pascal", CasingStyle::Pascal),
        ("pascalcase", CasingStyle::Pascal),
        ("screamingsnake", CasingStyle::ScreamingSnake),
        ("screamingsnakecase", CasingStyle::ScreamingSnake),
        ("snake", CasingStyle::Snake),
        ("snakecase", CasingStyle::Snake),
        ("verbatim", CasingStyle::Verbatim),
        ("verbatimcase", CasingStyle::Verbatim),
    ];
    for (token, style) in cases {
        assert_eq!(CasingStyle::from_str(token), Ok(style));
    }
}

#[test]
fn unknown_style_token_is_reported() {
    assert_eq!(
        CasingStyle::from_str("Kebab"),
        Err(SchemaError::InvalidCasingStyle { token: String::from("Kebab") })
    );
    assert_eq!(
        CasingStyle::from_str(""),
        Err(SchemaError::InvalidCasingStyle { token: String::new() })
    );
}

#[test]
fn style_token_parses() {
    assert_eq!("snake".parse::<CasingStyle>(), Ok(CasingStyle::Snake));
    assert_eq!(
        "sneak".parse::<CasingStyle>(),
        Err(SchemaError::InvalidCasingStyle { token: String::from("sneak") })
    );
}
