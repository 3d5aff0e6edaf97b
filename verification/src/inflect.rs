//! Case conventions for field identifiers, applied when a shape's field
//! table is built: serialized names follow the declared convention, and a
//! field's base environment segment is conventionally the screaming-snake
//! form of its identifier.
//!
//! What each case conversion returns depends on the characters of its input
//! alone; each is given a name here and performed by the library relied on.

use vstd::prelude::*;

use crate::util::str_eq;

verus! {

/// A case convention for identifiers.
#[derive(Debug, Clone, Copy, PartialEq, Eq)]
pub enum Inflection {
    Lower,
    Upper,
    Snake,
    Camel,
    Pascal,
    Kebab,
    UpperSnake,
    UpperKebab,
}

pub uninterp spec fn lower_of(s: Seq<char>) -> Seq<char>;

pub uninterp spec fn upper_of(s: Seq<char>) -> Seq<char>;

pub uninterp spec fn snake_of(s: Seq<char>) -> Seq<char>;

pub uninterp spec fn camel_of(s: Seq<char>) -> Seq<char>;

pub uninterp spec fn pascal_of(s: Seq<char>) -> Seq<char>;

pub uninterp spec fn kebab_of(s: Seq<char>) -> Seq<char>;

pub uninterp spec fn screaming_of(s: Seq<char>) -> Seq<char>;

/// Relies on str::to_lowercase: the result depends on the characters alone.
#[verifier::external_body]
fn to_lower(s: &str) -> (r: String)
    ensures
        r@ == lower_of(s@),
{
    s.to_lowercase()
}

/// Relies on str::to_uppercase: the result depends on the characters alone.
#[verifier::external_body]
fn to_upper(s: &str) -> (r: String)
    ensures
        r@ == upper_of(s@),
{
    s.to_uppercase()
}

/// Relies on inflector's to_snake_case: the result depends on the
/// characters alone.
#[verifier::external_body]
fn to_snake(s: &str) -> (r: String)
    ensures
        r@ == snake_of(s@),
{
    inflector::cases::snakecase::to_snake_case(s)
}

/// Relies on inflector's to_camel_case: the result depends on the
/// characters alone.
#[verifier::external_body]
fn to_camel(s: &str) -> (r: String)
    ensures
        r@ == camel_of(s@),
{
    inflector::cases::camelcase::to_camel_case(s)
}

/// Relies on inflector's to_pascal_case: the result depends on the
/// characters alone.
#[verifier::external_body]
fn to_pascal(s: &str) -> (r: String)
    ensures
        r@ == pascal_of(s@),
{
    inflector::cases::pascalcase::to_pascal_case(s)
}

/// Relies on inflector's to_kebab_case: the result depends on the
/// characters alone.
#[verifier::external_body]
fn to_kebab(s: &str) -> (r: String)
    ensures
        r@ == kebab_of(s@),
{
    inflector::cases::kebabcase::to_kebab_case(s)
}

/// Relies on inflector's to_screaming_snake_case: the result depends on
/// the characters alone.
#[verifier::external_body]
fn to_screaming_snake(s: &str) -> (r: String)
    ensures
        r@ == screaming_of(s@),
{
    inflector::cases::screamingsnakecase::to_screaming_snake_case(s)
}

/// What applying a case convention to an identifier yields.
pub open spec fn spec_apply(i: Inflection, s: Seq<char>) -> Seq<char> {
    match i {
        Inflection::Lower => lower_of(s),
        Inflection::Upper => upper_of(s),
        Inflection::Snake => snake_of(s),
        Inflection::Camel => camel_of(s),
        Inflection::Pascal => pascal_of(s),
        Inflection::Kebab => kebab_of(s),
        Inflection::UpperSnake => screaming_of(s),
        Inflection::UpperKebab => upper_of(kebab_of(s)),
    }
}

/// The name an inflection goes by in a shape declaration, or nothing for a
/// name that is no inflection.
pub open spec fn spec_inflection_of_name(s: Seq<char>) -> Option<Inflection> {
    if s == "lowercase"@ {
        Some(Inflection::Lower)
    } else if s == "UPPERCASE"@ {
        Some(Inflection::Upper)
    } else if s == "snake_case"@ {
        Some(Inflection::Snake)
    } else if s == "camelCase"@ {
        Some(Inflection::Camel)
    } else if s == "PascalCase"@ {
        Some(Inflection::Pascal)
    } else if s == "kebab-case"@ {
        Some(Inflection::Kebab)
    } else if s == "SCREAMING_SNAKE_CASE"@ {
        Some(Inflection::UpperSnake)
    } else if s == "SCREAMING-KEBAB-CASE"@ {
        Some(Inflection::UpperKebab)
    } else {
        None
    }
}

impl Inflection {
    /// Applies this case convention to an identifier.
    pub fn apply(self, src: &str) -> (r: String)
        ensures
            r@ == spec_apply(self, src@),
    {
        match self {
            Inflection::Lower => to_lower(src),
            Inflection::Upper => to_upper(src),
            Inflection::Snake => to_snake(src),
            Inflection::Camel => to_camel(src),
            Inflection::Pascal => to_pascal(src),
            Inflection::Kebab => to_kebab(src),
            Inflection::UpperSnake => to_screaming_snake(src),
            Inflection::UpperKebab => to_upper(to_kebab(src).as_str()),
        }
    }

    /// The inflection a shape declaration names, if the name is one of the
    /// known conventions.
    pub fn from_str(s: &str) -> (r: Result<Inflection, ()>)
        ensures
            match r {
                Ok(i) => spec_inflection_of_name(s@) == Some(i),
                Err(_) => spec_inflection_of_name(s@) is None,
            },
    {
        if str_eq(s, "lowercase") {
            Ok(Inflection::Lower)
        } else if str_eq(s, "UPPERCASE") {
            Ok(Inflection::Upper)
        } else if str_eq(s, "snake_case") {
            Ok(Inflection::Snake)
        } else if str_eq(s, "camelCase") {
            Ok(Inflection::Camel)
        } else if str_eq(s, "PascalCase") {
            Ok(Inflection::Pascal)
        } else if str_eq(s, "kebab-case") {
            Ok(Inflection::Kebab)
        } else if str_eq(s, "SCREAMING_SNAKE_CASE") {
            Ok(Inflection::UpperSnake)
        } else if str_eq(s, "SCREAMING-KEBAB-CASE") {
            Ok(Inflection::UpperKebab)
        } else {
            Err(())
        }
    }
}

} // verus!
