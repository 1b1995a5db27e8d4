//! References to variables of the environment in a text.

use crate::state::variables::VariableStore;
use regex::{Captures, Regex};
use vstd::prelude::*;

verus! {

/// The pattern of a reference to a variable of the environment: a dollar
/// sign and, in braces, the variable's name, which holds no whitespace.
pub const ENV_VAR_REFERENCE: &'static str = r"\$\{([^\s]*)\}";

/// What `Regex::replace_all` yields for a pattern and a text when each match
/// of the pattern is replaced by `referred_value` of the environment and of
/// what the first group of the match holds. None where the pattern is no
/// regular expression.
pub uninterp spec fn replaced_all(
    pattern: Seq<char>,
    text: Seq<char>,
    environment: Map<Seq<char>, Seq<char>>,
) -> Option<Seq<char>>;

/// The value that stands for a reference: that of the name in the
/// environment; the empty text where the environment has no such name, and
/// where there is no name.
pub open spec fn referred_value(environment: Map<Seq<char>, Seq<char>>, name: Option<Seq<char>>) -> Seq<char> {
    match name {
        Some(n) => if environment.contains_key(n) {
            environment[n]
        } else {
            Seq::empty()
        },
        None => Seq::empty(),
    }
}

/// `text` with its references to variables replaced by `environment`'s
/// values.
pub open spec fn with_references_replaced(text: Seq<char>, environment: Map<Seq<char>, Seq<char>>) -> Seq<char> {
    match replaced_all(ENV_VAR_REFERENCE@, text, environment) {
        Some(replaced) => replaced,
        None => text,
    }
}

/// The value that stands for a reference to `name`: the value that
/// `environment` has for it; the empty string where it has none, and where
/// there is no name.
pub fn reference_value(environment: &VariableStore, name: Option<&str>) -> (value: String)
    ensures
        value@ == referred_value(
            environment@,
            match name {
                Some(n) => Some(n@),
                None => None,
            },
        ),
{
    match name {
        Some(n) => match environment.get(n) {
            Some(value) => value,
            None => String::new(),
        },
        None => String::new(),
    }
}

/// `Regex::new` and `Regex::replace_all`: `text` with each match of
/// `pattern` replaced by what `reference_value` gives for the first group of
/// the match. None where `pattern` is no regular expression.
#[verifier::external_body]
fn regex_replace_all(pattern: &str, text: &str, environment: &VariableStore) -> (replaced: Option<String>)
    ensures
        match replaced {
            Some(r) => replaced_all(pattern@, text@, environment@) == Some(r@),
            None => replaced_all(pattern@, text@, environment@).is_none(),
        },
{
    match Regex::new(pattern) {
        Ok(re) => Some(
            re.replace_all(
                text,
                |found: &Captures| reference_value(environment, found.get(1).map(|group| group.as_str())),
            ).into_owned(),
        ),
        Err(_) => None,
    }
}

/// The text after the replacement: `replaced`, or `input` as it was where
/// nothing could be replaced.
pub fn replaced_or_unchanged(input: String, replaced: Option<String>) -> (output: String)
    ensures
        output@ == (match replaced {
            Some(r) => r@,
            None => input@,
        }),
{
    match replaced {
        Some(r) => r,
        None => input,
    }
}

/// Replaces each reference to a variable of the environment in `input`, a
/// dollar sign and the name in braces, by the value that `environment` has
/// for the name; by nothing where it has none.
pub fn replace_env_var_references(input: String, environment: &VariableStore) -> (output: String)
    ensures
        output@ == with_references_replaced(input@, environment@),
{
    let replaced = regex_replace_all(ENV_VAR_REFERENCE, input.as_str(), environment);
    replaced_or_unchanged(input, replaced)
}

} // verus!
