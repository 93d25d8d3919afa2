//! Syntax highlighting: the style sheet for a theme, and the tag that opens
//! a highlighted code block.

use vstd::prelude::*;

use crate::text::push_char;

verus! {

#[verifier::external_type_specification]
#[verifier::external_body]
pub struct ExThemeSet(syntect::highlighting::ThemeSet);

#[verifier::external_type_specification]
#[verifier::external_body]
pub struct ExTheme(syntect::highlighting::Theme);

#[verifier::external_type_specification]
#[verifier::external_body]
pub struct ExSyntectError(syntect::Error);

/// The prefix of every class name the highlighter writes and the style sheet
/// styles.
pub const CLASS_PREFIX: &'static str = "syn-";

/// The names of the themes a theme set holds.
pub uninterp spec fn theme_set_names(ts: syntect::highlighting::ThemeSet) -> Set<Seq<char>>;

/// The theme a theme set holds under a name.
pub uninterp spec fn theme_in(ts: syntect::highlighting::ThemeSet, name: Seq<char>) -> syntect::highlighting::Theme;

/// The theme that syntect's default set holds under a name.
pub uninterp spec fn default_theme(name: Seq<char>) -> syntect::highlighting::Theme;

/// The style sheet syntect writes for a theme, its classes prefixed with
/// `prefix`.
pub uninterp spec fn theme_style_sheet(theme: syntect::highlighting::Theme, prefix: Seq<char>) -> Seq<char>;

/// The themes that come with syntect.
pub open spec fn default_theme_names() -> Set<Seq<char>> {
    set![
        "base16-ocean.dark"@,
        "base16-eighties.dark"@,
        "base16-mocha.dark"@,
        "base16-ocean.light"@,
        "InspiredGitHub"@,
        "Solarized (dark)"@,
        "Solarized (light)"@,
    ]
}

/// The themes that come with syntect (`ThemeSet::load_defaults`).
///
/// Trusted: the set holds the seven themes syntect documents for it, and
/// under each name the same theme every time (the set is read from data
/// built into syntect).
#[verifier::external_body]
fn default_theme_set() -> (ts: syntect::highlighting::ThemeSet)
    ensures
        theme_set_names(ts) == default_theme_names(),
        forall|n: Seq<char>| #[trigger]
            default_theme_names().contains(n) ==> theme_in(ts, n) == default_theme(n),
{
    syntect::highlighting::ThemeSet::load_defaults()
}

/// `a` comes strictly before `b` when texts are ordered as Rust orders
/// strings: character by character, by code point, a proper prefix first.
pub open spec fn text_before(a: Seq<char>, b: Seq<char>) -> bool
    decreases a.len(),
{
    if a.len() == 0 {
        b.len() > 0
    } else if b.len() == 0 {
        false
    } else if a[0] != b[0] {
        (a[0] as int) < (b[0] as int)
    } else {
        text_before(a.drop_first(), b.drop_first())
    }
}

/// Texts in strictly increasing order.
pub open spec fn ascending(v: Seq<Seq<char>>) -> bool {
    forall|i: int, j: int| 0 <= i < j < v.len() ==> text_before(#[trigger] v[i], #[trigger] v[j])
}

/// The names of the themes of a set (the keys of its `themes` map).
///
/// Trusted: each name of the set, once, in the map's order, which is the
/// order of `String`.
#[verifier::external_body]
fn theme_names(ts: &syntect::highlighting::ThemeSet) -> (names: Vec<String>)
    ensures
        names@.map_values(|s: String| s@).to_set() == theme_set_names(*ts),
        names@.map_values(|s: String| s@).no_duplicates(),
        ascending(names@.map_values(|s: String| s@)),
{
    ts.themes.keys().cloned().collect()
}

/// The theme of a set with the given name (`BTreeMap::get` on its themes).
///
/// Trusted: there is one exactly when the set holds a theme of that name,
/// and it is the set's theme of that name.
#[verifier::external_body]
fn find_theme<'a>(ts: &'a syntect::highlighting::ThemeSet, name: &str) -> (r: Option<
    &'a syntect::highlighting::Theme,
>)
    ensures
        r is Some <==> theme_set_names(*ts).contains(name@),
        r matches Some(t) ==> *t == theme_in(*ts, name@),
{
    ts.themes.get(name)
}

/// The style sheet of a theme for classes with the given prefix
/// (`css_for_theme_with_class_style` with `ClassStyle::SpacedPrefixed`).
///
/// Trusted: syntect always succeeds here (the function has no error path),
/// and the text is a function of the theme and the prefix alone. The text
/// itself is left to the name: it writes out every scope rule of the theme.
#[verifier::external_body]
fn theme_css(theme: &syntect::highlighting::Theme, prefix: &'static str) -> (r: Result<
    String,
    syntect::Error,
>)
    ensures
        r is Ok,
        r matches Ok(s) ==> s@ == theme_style_sheet(*theme, prefix@),
{
    syntect::html::css_for_theme_with_class_style(
        theme,
        syntect::html::ClassStyle::SpacedPrefixed { prefix },
    )
}

/// Why no style sheet could be made.
pub enum SyntaxCssError {
    /// No theme has the name; `available` holds the names there are.
    UnknownTheme { name: String, available: Vec<String> },
}

/// The views of a vector of strings.
pub open spec fn strings(v: Seq<String>) -> Seq<Seq<char>> {
    v.map_values(|s: String| s@)
}

/// The style sheet for the theme called `theme_name` in `ts`, its classes
/// prefixed with [`CLASS_PREFIX`]; when `ts` has no such theme, the error
/// names the theme and lists those it has.
pub fn css_for_theme_in(ts: &syntect::highlighting::ThemeSet, theme_name: &str) -> (r: Result<
    String,
    SyntaxCssError,
>)
    ensures
        (r matches Err(SyntaxCssError::UnknownTheme { .. })) <==> !theme_set_names(*ts).contains(
            theme_name@,
        ),
        r matches Err(SyntaxCssError::UnknownTheme { name, available }) ==> {
            &&& name@ == theme_name@
            &&& strings(available@).to_set() == theme_set_names(*ts)
            &&& strings(available@).no_duplicates()
            &&& ascending(strings(available@))
        },
        theme_set_names(*ts).contains(theme_name@) ==> (r matches Ok(css) && css@
            == theme_style_sheet(theme_in(*ts, theme_name@), "syn-"@)),
{
    match find_theme(ts, theme_name) {
        None => Err(SyntaxCssError::UnknownTheme { name: theme_name.to_owned(), available: theme_names(ts) }),
        Some(theme) => match theme_css(theme, CLASS_PREFIX) {
            Ok(css) => Ok(css),
            Err(_) => vstd::pervasive::unreached(),
        },
    }
}

/// The style sheet for the syntect theme called `theme_name`; an error when
/// syntect has no theme of that name.
pub fn generate_syntax_css(theme_name: &str) -> (r: Result<String, SyntaxCssError>)
    ensures
        (r matches Err(SyntaxCssError::UnknownTheme { .. })) <==> !default_theme_names().contains(
            theme_name@,
        ),
        r matches Err(SyntaxCssError::UnknownTheme { name, available }) ==> {
            &&& name@ == theme_name@
            &&& strings(available@).to_set() == default_theme_names()
            &&& strings(available@).no_duplicates()
            &&& ascending(strings(available@))
        },
        default_theme_names().contains(theme_name@) ==> (r matches Ok(css) && css@
            == theme_style_sheet(default_theme(theme_name@), "syn-"@)),
{
    let ts = default_theme_set();
    css_for_theme_in(&ts, theme_name)
}

/// The opening of a highlighted code block: `<pre`, each attribute as
/// ` key="value"`, then `><code>`.
pub open spec fn pre_open_tag(attributes: Seq<(Seq<char>, Seq<char>)>) -> Seq<char> {
    "<pre"@ + attributes_text(attributes) + "><code>"@
}

/// The attributes, each written as ` key="value"`.
pub open spec fn attributes_text(attributes: Seq<(Seq<char>, Seq<char>)>) -> Seq<char>
    decreases attributes.len(),
{
    if attributes.len() == 0 {
        Seq::empty()
    } else {
        let (k, v) = attributes.last();
        attributes_text(attributes.drop_last()) + seq![' '] + k + seq!['=', '"'] + v + seq!['"']
    }
}

/// The views of attribute pairs.
pub open spec fn attribute_views(attributes: Seq<(String, String)>) -> Seq<(Seq<char>, Seq<char>)> {
    attributes.map_values(|p: (String, String)| (p.0@, p.1@))
}

/// The opening of a highlighted code block with the given attributes, in
/// the order given.
pub fn pre_tag(attributes: &Vec<(String, String)>) -> (out: String)
    ensures
        out@ == pre_open_tag(attribute_views(attributes@)),
{
    let mut out = String::new();
    out.append("<pre");
    let ghost start = out@;
    let mut i: usize = 0;
    while i < attributes.len()
        invariant
            i <= attributes@.len(),
            out@ == start + attributes_text(attribute_views(attributes@).take(i as int)),
        decreases attributes@.len() - i,
    {
        let (k, v) = &attributes[i];
        push_char(&mut out, ' ');
        out.append(k.as_str());
        push_char(&mut out, '=');
        push_char(&mut out, '"');
        out.append(v.as_str());
        push_char(&mut out, '"');
        proof {
            let a = attribute_views(attributes@);
            assert(a.take(i + 1).drop_last() =~= a.take(i as int));
            assert(a.take(i + 1).last() == (k@, v@));
            assert(out@ =~= start + attributes_text(a.take(i + 1)));
        }
        i = i + 1;
    }
    out.append("><code>");
    proof {
        let a = attribute_views(attributes@);
        assert(a.take(attributes@.len() as int) =~= a);
    }
    out
}

} // verus!
