use brace::highlight::{generate_syntax_css, pre_tag, SyntaxCssError};

#[test]
fn style_sheet_for_a_known_theme() {
    match generate_syntax_css("base16-ocean.dark") {
        Ok(css) => {
            assert!(css.contains(".syn-"));
            let expected = syntect::html::css_for_theme_with_class_style(
                &syntect::highlighting::ThemeSet::load_defaults().themes["base16-ocean.dark"],
                syntect::html::ClassStyle::SpacedPrefixed { prefix: "syn-" },
            )
            .unwrap();
            assert_eq!(css, expected);
        }
        Err(_) => panic!("the theme comes with syntect"),
    }
}

#[test]
fn every_default_theme_has_a_style_sheet() {
    for name in [
        "base16-ocean.dark",
        "base16-eighties.dark",
        "base16-mocha.dark",
        "base16-ocean.light",
        "InspiredGitHub",
        "Solarized (dark)",
        "Solarized (light)",
    ] {
        assert!(generate_syntax_css(name).is_ok(), "{name}");
    }
}

#[test]
fn unknown_theme_lists_the_themes() {
    match generate_syntax_css("no-such-theme") {
        Err(SyntaxCssError::UnknownTheme { name, available }) => {
            assert_eq!(name, "no-such-theme");
            assert_eq!(
                available,
                [
                    "InspiredGitHub",
                    "Solarized (dark)",
                    "Solarized (light)",
                    "base16-eighties.dark",
                    "base16-mocha.dark",
                    "base16-ocean.dark",
                    "base16-ocean.light",
                ]
            );
        }
        _ => panic!("no theme has that name"),
    }
}

#[test]
fn pre_tags() {
    assert_eq!(pre_tag(&vec![]), "<pre><code>");
    assert_eq!(
        pre_tag(&vec![("lang".to_string(), "rust".to_string())]),
        "<pre lang=\"rust\"><code>"
    );
    assert_eq!(
        pre_tag(&vec![
            ("class".to_string(), "a".to_string()),
            ("data-x".to_string(), "1".to_string())
        ]),
        "<pre class=\"a\" data-x=\"1\"><code>"
    );
}

#[test]
fn every_default_theme_gets_syntects_style_sheet() {
    let ts = syntect::highlighting::ThemeSet::load_defaults();
    for (name, theme) in ts.themes.iter() {
        let expected = syntect::html::css_for_theme_with_class_style(
            theme,
            syntect::html::ClassStyle::SpacedPrefixed { prefix: "syn-" },
        )
        .unwrap();
        match generate_syntax_css(name) {
            Ok(css) => assert_eq!(css, expected, "{name}"),
            Err(_) => panic!("{name} comes with syntect"),
        }
    }
}
