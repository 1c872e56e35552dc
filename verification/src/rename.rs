//! The names that fields and variants take in `Marquage` text: an explicit
//! `rename`, or the field's own name in the case of a `rename_all` rule.
use convert_case::{Case, Casing};
use vstd::prelude::*;

use crate::text::{push_str, same_text, string_from_chars};

verus! {

/// A rule renaming every field or variant: the cases that `rename_all`
/// accepts.
#[derive(Debug, Clone, Copy, PartialEq, Eq, Structural)]
pub enum RenameRule {
    /// `lowercase`: the words joined, all in lower case.
    Lowercase,
    /// `UPPERCASE`: the words joined, all in upper case.
    Uppercase,
    /// `camelCase`.
    CamelCase,
    /// `snake_case`.
    SnakeCase,
    /// `kebab-case`.
    KebabCase,
    /// `PascalCase`.
    PascalCase,
    /// `SCREAMING_SNAKE_CASE`.
    ScreamingSnakeCase,
}

/// The rule that the text `rule` names.
pub open spec fn rule_named(rule: Seq<char>) -> Option<RenameRule> {
    if rule == "lowercase"@ {
        Some(RenameRule::Lowercase)
    } else if rule == "UPPERCASE"@ {
        Some(RenameRule::Uppercase)
    } else if rule == "camelCase"@ {
        Some(RenameRule::CamelCase)
    } else if rule == "snake_case"@ {
        Some(RenameRule::SnakeCase)
    } else if rule == "kebab-case"@ {
        Some(RenameRule::KebabCase)
    } else if rule == "PascalCase"@ {
        Some(RenameRule::PascalCase)
    } else if rule == "SCREAMING_SNAKE_CASE"@ {
        Some(RenameRule::ScreamingSnakeCase)
    } else {
        None
    }
}

/// The message for a rule name that is none of the known ones.
pub open spec fn unknown_rule_text(rule: Seq<char>) -> Seq<char> {
    "unknown rename rule: `"@ + rule + "`"@
}

/// What `name` becomes in the case of `rule`.
pub uninterp spec fn cased(name: Seq<char>, rule: RenameRule) -> Seq<char>;

/// Convert `name` into the case of `rule`.
///
/// Calls `convert_case::Casing::to_case` with the matching `Case` (`Flat`,
/// `UpperFlat`, `Camel`, `Snake`, `Kebab`, `Pascal`, `UpperSnake`). The
/// crate splits the name into words and joins them in that case; what comes
/// out is named [cased], a function of the name and the rule alone.
#[verifier::external_body]
pub(crate) fn to_case(name: &str, rule: RenameRule) -> (r: String)
    ensures
        r@ == cased(name@, rule),
{
    let case = match rule {
        RenameRule::Lowercase => Case::Flat,
        RenameRule::Uppercase => Case::UpperFlat,
        RenameRule::CamelCase => Case::Camel,
        RenameRule::SnakeCase => Case::Snake,
        RenameRule::KebabCase => Case::Kebab,
        RenameRule::PascalCase => Case::Pascal,
        RenameRule::ScreamingSnakeCase => Case::UpperSnake,
    };
    name.to_case(case)
}

/// Parse the `rename_all` rule `rule`.
///
/// # Errors
/// The message `` unknown rename rule: `rule` `` for a name that is none of
/// `lowercase`, `UPPERCASE`, `camelCase`, `snake_case`, `kebab-case`,
/// `PascalCase`, `SCREAMING_SNAKE_CASE`.
pub fn parse_rename_all(rule: &str) -> (r: Result<RenameRule, String>)
    ensures
        match rule_named(rule@) {
            Some(c) => r == Ok::<RenameRule, String>(c),
            None => r is Err && r->Err_0@ == unknown_rule_text(rule@),
        },
{
    if same_text(rule, "lowercase") {
        Ok(RenameRule::Lowercase)
    } else if same_text(rule, "UPPERCASE") {
        Ok(RenameRule::Uppercase)
    } else if same_text(rule, "camelCase") {
        Ok(RenameRule::CamelCase)
    } else if same_text(rule, "snake_case") {
        Ok(RenameRule::SnakeCase)
    } else if same_text(rule, "kebab-case") {
        Ok(RenameRule::KebabCase)
    } else if same_text(rule, "PascalCase") {
        Ok(RenameRule::PascalCase)
    } else if same_text(rule, "SCREAMING_SNAKE_CASE") {
        Ok(RenameRule::ScreamingSnakeCase)
    } else {
        let mut out: Vec<char> = Vec::new();
        push_str(&mut out, "unknown rename rule: `");
        push_str(&mut out, rule);
        push_str(&mut out, "`");
        assert(out@ =~= unknown_rule_text(rule@));
        Err(string_from_chars(out.as_slice()))
    }
}

} // verus!
