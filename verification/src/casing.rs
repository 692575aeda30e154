//! Casing styles and the renaming of identifiers.

use crate::error::SchemaError;
use crate::error::SchemaErrorView;
use heck::CamelCase;
use heck::KebabCase;
use heck::MixedCase;
use heck::ShoutySnakeCase;
use heck::SnakeCase;
use vstd::prelude::*;

verus! {

/// How an identifier is rewritten into a displayed or serialized name.
#[derive(Clone, Copy, Debug, PartialEq, Eq, Structural)]
pub enum CasingStyle {
    Camel,
    Kebab,
    Pascal,
    ScreamingSnake,
    Snake,
    Verbatim,
}

/// What `heck::KebabCase::to_kebab_case` returns for the text `s`.
pub uninterp spec fn kebab_case(s: Seq<char>) -> Seq<char>;

/// What `heck::SnakeCase::to_snake_case` returns for the text `s`.
pub uninterp spec fn snake_case(s: Seq<char>) -> Seq<char>;

/// What `heck::ShoutySnakeCase::to_shouty_snake_case` returns for the text `s`.
pub uninterp spec fn shouty_snake_case(s: Seq<char>) -> Seq<char>;

/// What `heck::MixedCase::to_mixed_case` returns for the text `s`.
pub uninterp spec fn mixed_case(s: Seq<char>) -> Seq<char>;

/// What `heck::CamelCase::to_camel_case` returns for the text `s`.
pub uninterp spec fn camel_case(s: Seq<char>) -> Seq<char>;

/// Calls `heck::KebabCase::to_kebab_case` on `s`. The result depends on the
/// characters of `s` alone; nothing more is claimed of it.
#[verifier::external_body]
fn to_kebab(s: &str) -> (r: String)
    ensures
        r@ == kebab_case(s@),
{
    s.to_kebab_case()
}

/// Calls `heck::SnakeCase::to_snake_case` on `s`. The result depends on the
/// characters of `s` alone; nothing more is claimed of it.
#[verifier::external_body]
fn to_snake(s: &str) -> (r: String)
    ensures
        r@ == snake_case(s@),
{
    s.to_snake_case()
}

/// Calls `heck::ShoutySnakeCase::to_shouty_snake_case` on `s`. The result
/// depends on the characters of `s` alone; nothing more is claimed of it.
#[verifier::external_body]
fn to_shouty_snake(s: &str) -> (r: String)
    ensures
        r@ == shouty_snake_case(s@),
{
    s.to_shouty_snake_case()
}

/// Calls `heck::MixedCase::to_mixed_case` on `s`. The result depends on the
/// characters of `s` alone; nothing more is claimed of it.
#[verifier::external_body]
fn to_mixed(s: &str) -> (r: String)
    ensures
        r@ == mixed_case(s@),
{
    s.to_mixed_case()
}

/// Calls `heck::CamelCase::to_camel_case` on `s`. The result depends on the
/// characters of `s` alone; nothing more is claimed of it.
#[verifier::external_body]
fn to_camel(s: &str) -> (r: String)
    ensures
        r@ == camel_case(s@),
{
    s.to_camel_case()
}

/// The style that a token names, if it names one.
pub open spec fn style_of_token(token: Seq<char>) -> Option<CasingStyle> {
    if token == "camel"@ || token == "camelcase"@ {
        Some(CasingStyle::Camel)
    } else if token == "kebab"@ || token == "kebabcase"@ {
        Some(CasingStyle::Kebab)
    } else if token == "pascal"@ || token == "pascalcase"@ {
        Some(CasingStyle::Pascal)
    } else if token == "screamingsnake"@ || token == "screamingsnakecase"@ {
        Some(CasingStyle::ScreamingSnake)
    } else if token == "snake"@ || token == "snakecase"@ {
        Some(CasingStyle::Snake)
    } else if token == "verbatim"@ || token == "verbatimcase"@ {
        Some(CasingStyle::Verbatim)
    } else {
        None
    }
}

/// The name that `style` gives to the identifier text `s`.
pub open spec fn renamed(style: CasingStyle, s: Seq<char>) -> Seq<char> {
    match style {
        CasingStyle::Kebab => kebab_case(s),
        CasingStyle::Snake => snake_case(s),
        CasingStyle::ScreamingSnake => shouty_snake_case(s),
        CasingStyle::Camel => mixed_case(s),
        CasingStyle::Pascal => camel_case(s),
        CasingStyle::Verbatim => s,
    }
}

fn token_is(token: &str, word: &str) -> (r: bool)
    ensures
        r == (token@ == word@),
{
    token.to_owned() == word.to_owned()
}

impl CasingStyle {
    /// Reads a style token. A token that names no style is reported, with
    /// its text, as `InvalidCasingStyle`.
    pub fn from_str(s: &str) -> (r: Result<CasingStyle, SchemaError>)
        ensures
            match style_of_token(s@) {
                Some(style) => r == Ok::<CasingStyle, SchemaError>(style),
                None => r matches Err(e) && e@ == (SchemaErrorView::InvalidCasingStyle {
                    token: s@,
                }),
            },
    {
        if token_is(s, "camel") || token_is(s, "camelcase") {
            Ok(CasingStyle::Camel)
        } else if token_is(s, "kebab") || token_is(s, "kebabcase") {
            Ok(CasingStyle::Kebab)
        } else if token_is(s, "pascal") || token_is(s, "pascalcase") {
            Ok(CasingStyle::Pascal)
        } else if token_is(s, "screamingsnake") || token_is(s, "screamingsnakecase") {
            Ok(CasingStyle::ScreamingSnake)
        } else if token_is(s, "snake") || token_is(s, "snakecase") {
            Ok(CasingStyle::Snake)
        } else if token_is(s, "verbatim") || token_is(s, "verbatimcase") {
            Ok(CasingStyle::Verbatim)
        } else {
            Err(SchemaError::InvalidCasingStyle { token: s.to_owned() })
        }
    }

    /// Rewrites the identifier text `s` in this style.
    pub fn rename(self, s: &str) -> (r: String)
        ensures
            r@ == renamed(self, s@),
    {
        match self {
            CasingStyle::Kebab => to_kebab(s),
            CasingStyle::Snake => to_snake(s),
            CasingStyle::ScreamingSnake => to_shouty_snake(s),
            CasingStyle::Camel => to_mixed(s),
            CasingStyle::Pascal => to_camel(s),
            CasingStyle::Verbatim => s.to_owned(),
        }
    }
}

impl core::str::FromStr for CasingStyle {
    type Err = SchemaError;

    /// Reads a style token, as the function of the same name on
    /// `CasingStyle` does: the style that the token names, or
    /// `InvalidCasingStyle` with the token's text.
    fn from_str(s: &str) -> (r: Result<Self, Self::Err>)
        ensures
            match style_of_token(s@) {
                Some(style) => r == Ok::<CasingStyle, SchemaError>(style),
                None => r matches Err(e) && e@ == (SchemaErrorView::InvalidCasingStyle {
                    token: s@,
                }),
            },
    {
        CasingStyle::from_str(s)
    }
}

/// `Verbatim` leaves every text as it is.
pub proof fn lemma_verbatim_is_identity(s: Seq<char>)
    ensures
        renamed(CasingStyle::Verbatim, s) == s,
{
}

/// Renaming twice in the `Verbatim` style gives what renaming once gives.
pub proof fn lemma_verbatim_rename_idempotent(s: Seq<char>)
    ensures
        renamed(CasingStyle::Verbatim, renamed(CasingStyle::Verbatim, s)) == renamed(
            CasingStyle::Verbatim,
            s,
        ),
{
}

} // verus!
