//! The `cfg_to_nix_expr` template filter: a platform name or a `cfg(...)`
//! predicate becomes a nix condition.

use vstd::prelude::*;

use crate::cfg::{cfg_to_nix_expr, nix_of, Cfg, CfgExpression};
use crate::escape::{escape_nix_string, nix_string};
use crate::text::{ends_with, occurs_at, starts_with};

verus! {

/// What cargo_platform's parser reads from the text of a cfg predicate, in
/// the library's own tree, or `None` where the text does not parse.
pub uninterp spec fn parsed_cfg(s: Seq<char>) -> Option<CfgExpression>;

/// Rebuilds cargo_platform's tree as the library's tree, variant for variant.
#[verifier::external_body]
fn from_platform(e: cargo_platform::CfgExpr) -> CfgExpression {
    match e {
        cargo_platform::CfgExpr::Not(b) => CfgExpression::Not(Box::new(from_platform(*b))),
        cargo_platform::CfgExpr::All(v) => CfgExpression::All(v.into_iter().map(from_platform).collect()),
        cargo_platform::CfgExpr::Any(v) => CfgExpression::Any(v.into_iter().map(from_platform).collect()),
        cargo_platform::CfgExpr::Value(cargo_platform::Cfg::Name(n)) => CfgExpression::Value(Cfg::Name(n)),
        cargo_platform::CfgExpr::Value(cargo_platform::Cfg::KeyPair(k, v)) => CfgExpression::Value(
            Cfg::KeyPair(k, v),
        ),
    }
}

/// Relies on `<cargo_platform::CfgExpr as FromStr>::from_str`, which parses
/// the text of a cfg predicate (without the surrounding `cfg(...)`); its
/// error's message is handed on as text.
#[verifier::external_body]
fn parse_cfg_expr(s: &str) -> (r: Result<CfgExpression, String>)
    ensures
        match r {
            Ok(e) => parsed_cfg(s@) == Some(e),
            Err(_) => parsed_cfg(s@) is None,
        },
{
    match <cargo_platform::CfgExpr as std::str::FromStr>::from_str(s) {
        Ok(e) => Ok(from_platform(e)),
        Err(e) => Err(e.to_string()),
    }
}

/// A filter argument, told apart by its shape.
#[derive(Debug, PartialEq, Eq)]
pub enum TargetKey {
    /// A platform name, compared with `target.name`.
    Platform(String),
    /// The text inside `cfg(...)`.
    Predicate(String),
}

/// Whether `s` has the shape `cfg(...)`.
pub open spec fn is_cfg_key(s: Seq<char>) -> bool {
    occurs_at(s, "cfg("@, 0) && s.len() >= 1 && s[s.len() - 1] == ')'
}

/// The text between `cfg(` and the closing parenthesis.
pub open spec fn cfg_inner(s: Seq<char>) -> Seq<char> {
    s.subrange("cfg("@.len() as int, s.len() - 1)
}

/// The nix condition that a platform name stands for.
pub open spec fn platform_condition(name: Seq<char>) -> Seq<char> {
    "(target.name == "@ + nix_string(name) + ")"@
}

/// Splits a filter argument into a platform name or a cfg predicate.
pub fn classify_key(key: &str) -> (r: TargetKey)
    ensures
        is_cfg_key(key@) ==> (r matches TargetKey::Predicate(p) && p@ == cfg_inner(key@)),
        !is_cfg_key(key@) ==> (r matches TargetKey::Platform(n) && n@ == key@),
{
    proof {
        reveal_strlit("cfg(");
        reveal_strlit(")");
    }
    if starts_with(key, "cfg(") && ends_with(key, ")") {
        let n = key.unicode_len();
        assert(key@.subrange(n - 1, n as int)[0] == key@[n - 1]);
        assert(key@.subrange(0, 4)[3] == key@[3]);
        TargetKey::Predicate(String::from_str(key.substring_char(4, n - 1)))
    } else {
        proof {
            if is_cfg_key(key@) {
                assert(key@.subrange(key@.len() - 1, key@.len() as int) =~= ")"@);
            }
        }
        TargetKey::Platform(String::from_str(key))
    }
}

/// The nix condition that the platform `name` is the target.
pub fn platform_name_condition(name: &str) -> (r: String)
    ensures
        r@ == platform_condition(name@),
{
    let mut r = String::from_str("(target.name == ");
    r.append(escape_nix_string(name).as_str());
    r.append(")");
    r
}

/// A cfg predicate that could not be parsed.
#[derive(Debug, PartialEq, Eq)]
pub struct TranslationError {
    /// The predicate's text.
    pub cfg: String,
    /// The parser's diagnostic.
    pub reason: String,
}

impl TranslationError {
    /// The error as one line of text.
    pub fn message(&self) -> (r: String)
        ensures
            r@ == "cfg_to_nix_expr_filter: Could not parse '"@ + self.cfg@ + "': "@ + self.reason@,
    {
        let mut r = String::from_str("cfg_to_nix_expr_filter: Could not parse '");
        r.append(self.cfg.as_str());
        r.append("': ");
        r.append(self.reason.as_str());
        r
    }
}

/// The filter's result for the predicate `cfg`, given what the parser made of it.
pub fn translate_parsed(cfg: &str, parsed: Result<CfgExpression, String>) -> (r: Result<
    String,
    TranslationError,
>)
    ensures
        match parsed {
            Ok(e) => r matches Ok(t) && t@ == nix_of(e),
            Err(reason) => r matches Err(err) && err.cfg@ == cfg@ && err.reason == reason,
        },
{
    match parsed {
        Ok(e) => Ok(cfg_to_nix_expr(&e)),
        Err(reason) => Err(TranslationError { cfg: String::from_str(cfg), reason }),
    }
}

/// Turns a filter argument into a nix condition: the text of `cfg(...)` is
/// parsed as a cfg predicate and translated, anything else is taken as a
/// platform name.
pub fn cfg_to_nix_expr_filter(key: &str) -> (r: Result<String, TranslationError>)
    ensures
        !is_cfg_key(key@) ==> (r matches Ok(t) && t@ == platform_condition(key@)),
        is_cfg_key(key@) ==> match parsed_cfg(cfg_inner(key@)) {
            Some(e) => r matches Ok(t) && t@ == nix_of(e),
            None => r matches Err(err) && err.cfg@ == cfg_inner(key@),
        },
{
    match classify_key(key) {
        TargetKey::Predicate(cfg) => {
            let parsed = parse_cfg_expr(cfg.as_str());
            translate_parsed(cfg.as_str(), parsed)
        },
        TargetKey::Platform(name) => Ok(platform_name_condition(name.as_str())),
    }
}

} // verus!
