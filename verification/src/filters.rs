//! Template filters that change the case or the number of a word.
//!
//! The case conversions are those of the `heck` crate and the plural is
//! that of the `cruet` crate; each result is named, not described.

use heck::{ToKebabCase, ToLowerCamelCase, ToPascalCase, ToSnakeCase};
use vstd::prelude::*;

verus! {

/// What `heck`'s `to_snake_case` makes of a text.
pub uninterp spec fn snake_cased(value: Seq<char>) -> Seq<char>;

/// What `heck`'s `to_lower_camel_case` makes of a text.
pub uninterp spec fn lower_camel_cased(value: Seq<char>) -> Seq<char>;

/// What `heck`'s `to_kebab_case` makes of a text.
pub uninterp spec fn kebab_cased(value: Seq<char>) -> Seq<char>;

/// What `heck`'s `to_pascal_case` makes of a text.
pub uninterp spec fn pascal_cased(value: Seq<char>) -> Seq<char>;

/// What `cruet`'s `to_plural` makes of a text.
pub uninterp spec fn pluralized(value: Seq<char>) -> Seq<char>;

/// Calls `ToSnakeCase::to_snake_case` of `heck`. Trusted: the result is a
/// function of the text alone.
#[verifier::external_body]
fn heck_snake(value: &str) -> (r: String)
    ensures
        r@ == snake_cased(value@),
{
    value.to_snake_case()
}

/// Calls `ToLowerCamelCase::to_lower_camel_case` of `heck`. Trusted: the
/// result is a function of the text alone.
#[verifier::external_body]
fn heck_lower_camel(value: &str) -> (r: String)
    ensures
        r@ == lower_camel_cased(value@),
{
    value.to_lower_camel_case()
}

/// Calls `ToKebabCase::to_kebab_case` of `heck`. Trusted: the result is a
/// function of the text alone.
#[verifier::external_body]
fn heck_kebab(value: &str) -> (r: String)
    ensures
        r@ == kebab_cased(value@),
{
    value.to_kebab_case()
}

/// Calls `ToPascalCase::to_pascal_case` of `heck`. Trusted: the result is a
/// function of the text alone.
#[verifier::external_body]
fn heck_pascal(value: &str) -> (r: String)
    ensures
        r@ == pascal_cased(value@),
{
    value.to_pascal_case()
}

/// Calls `cruet::string::pluralize::to_plural`. Trusted: the result is a
/// function of the text alone.
#[verifier::external_body]
fn cruet_plural(value: &str) -> (r: String)
    ensures
        r@ == pluralized(value@),
{
    cruet::string::pluralize::to_plural(value)
}

/// `value` in snake case: `some_name`.
pub fn snake_case(value: String) -> (r: String)
    ensures
        r@ == snake_cased(value@),
{
    heck_snake(value.as_str())
}

/// `value` in lower camel case: `someName`.
pub fn camel_case(value: String) -> (r: String)
    ensures
        r@ == lower_camel_cased(value@),
{
    heck_lower_camel(value.as_str())
}

/// `value` in kebab case: `some-name`.
pub fn kebab_case(value: String) -> (r: String)
    ensures
        r@ == kebab_cased(value@),
{
    heck_kebab(value.as_str())
}

/// `value` in pascal case: `SomeName`.
pub fn pascal_case(value: String) -> (r: String)
    ensures
        r@ == pascal_cased(value@),
{
    heck_pascal(value.as_str())
}

/// `value` in lower camel case: `someName`. The same filter as
/// `camel_case`, under its longer name.
pub fn lower_camel_case(value: String) -> (r: String)
    ensures
        r@ == lower_camel_cased(value@),
{
    heck_lower_camel(value.as_str())
}

/// The plural of `value`.
pub fn plural(value: String) -> (r: String)
    ensures
        r@ == pluralized(value@),
{
    cruet_plural(value.as_str())
}

} // verus!
