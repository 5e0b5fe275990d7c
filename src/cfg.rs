//! Translation of cfg predicates into nix boolean expressions.

use vstd::prelude::*;

use crate::escape::{escape_nix_string, nix_string};
use crate::text::{occurs_at, same_text, starts_with};

verus! {

broadcast use vstd::std_specs::vec::axiom_vec_index_decreases;

/// A cfg value.
#[derive(Debug, PartialEq, Eq)]
pub enum Cfg {
    /// A named cfg value, like `unix`.
    Name(String),
    /// A key/value cfg pair, like `target_os = "linux"`.
    KeyPair(String, String),
}

/// A cfg expression.
#[derive(Debug, PartialEq, Eq)]
pub enum CfgExpression {
    Not(Box<CfgExpression>),
    All(Vec<CfgExpression>),
    Any(Vec<CfgExpression>),
    Value(Cfg),
}

/// `name` without a leading `target_`.
pub open spec fn strip_target(name: Seq<char>) -> Seq<char> {
    if occurs_at(name, "target_"@, 0) {
        name.subrange("target_"@.len() as int, name.len() as int)
    } else {
        name
    }
}

/// The quoted attribute name of `target` that a cfg name looks up.
pub open spec fn target_attr(name: Seq<char>) -> Seq<char> {
    nix_string(strip_target(name))
}

/// The nix expression for a single cfg value.
pub open spec fn nix_of_cfg(c: Cfg) -> Seq<char> {
    match c {
        Cfg::Name(name) => "(target."@ + target_attr(name@) + " or false)"@,
        Cfg::KeyPair(key, value) => if key@ == "feature"@ {
            "(builtins.elem "@ + nix_string(value@) + " features)"@
        } else if key@ == "target_feature"@ {
            "(builtins.elem "@ + nix_string(value@) + " targetFeatures)"@
        } else if key@ == "target_family"@ {
            "(builtins.elem "@ + nix_string(value@) + " target."@ + target_attr(key@) + ")"@
        } else {
            "("@ + nix_string(value@) + " == target."@ + target_attr(key@) + " or null)"@
        },
    }
}

/// The nix expression for a cfg expression.
pub open spec fn nix_of(e: CfgExpression) -> Seq<char>
    decreases e,
{
    match e {
        CfgExpression::Value(c) => nix_of_cfg(c),
        CfgExpression::Not(inner) => "(!"@ + nix_of(*inner) + ")"@,
        CfgExpression::All(es) => if es.len() == 0 {
            "true"@
        } else {
            "("@ + nix_joined(es, " && "@, es.len() as int) + ")"@
        },
        CfgExpression::Any(es) => if es.len() == 0 {
            "false"@
        } else {
            "("@ + nix_joined(es, " || "@, es.len() as int) + ")"@
        },
    }
}

/// The nix expressions of the first `n` of `es`, separated by `sep`.
pub open spec fn nix_joined(es: Vec<CfgExpression>, sep: Seq<char>, n: int) -> Seq<char>
    decreases es, n,
{
    if n <= 0 || n > es.len() {
        Seq::empty()
    } else if n == 1 {
        nix_of(es[0])
    } else {
        nix_joined(es, sep, n - 1) + sep + nix_of(es[n - 1])
    }
}

/// The quoted attribute name of `target` for a cfg name.
fn target(target_name: &str) -> (r: String)
    ensures
        r@ == target_attr(target_name@),
{
    let prefix = "target_";
    proof {
        reveal_strlit("target_");
    }
    if starts_with(target_name, prefix) {
        escape_nix_string(target_name.substring_char(7, target_name.unicode_len()))
    } else {
        escape_nix_string(target_name)
    }
}

/// Appends the nix expression for a single cfg value.
fn push_cfg(result: &mut String, cfg: &Cfg)
    ensures
        final(result)@ == old(result)@ + nix_of_cfg(*cfg),
{
    match cfg {
        Cfg::Name(name) => {
            result.append("(target.");
            result.append(target(name.as_str()).as_str());
            result.append(" or false)");
        },
        Cfg::KeyPair(key, value) => {
            let escaped_value = escape_nix_string(value.as_str());
            if same_text(key.as_str(), "feature") {
                result.append("(builtins.elem ");
                result.append(escaped_value.as_str());
                result.append(" features)");
            } else if same_text(key.as_str(), "target_feature") {
                result.append("(builtins.elem ");
                result.append(escaped_value.as_str());
                result.append(" targetFeatures)");
            } else if same_text(key.as_str(), "target_family") {
                result.append("(builtins.elem ");
                result.append(escaped_value.as_str());
                result.append(" target.");
                result.append(target(key.as_str()).as_str());
                result.append(")");
            } else {
                result.append("(");
                result.append(escaped_value.as_str());
                result.append(" == target.");
                result.append(target(key.as_str()).as_str());
                result.append(" or null)");
            }
        },
    }
}

/// Appends the children's expressions, separated by `sep` and enclosed in
/// parentheses.
fn push_joined(result: &mut String, es: &Vec<CfgExpression>, sep: &str, Ghost(whole): Ghost<CfgExpression>)
    requires
        es.len() > 0,
        decreases_to!(whole => es),
    ensures
        final(result)@ == old(result)@ + "("@ + nix_joined(*es, sep@, es.len() as int) + ")"@,
    decreases whole, 0int,
{
    result.append("(");
    push_expr(result, &es[0]);
    assert(nix_joined(*es, sep@, 1) == nix_of(es[0]));
    assert(result@ =~= old(result)@ + "("@ + nix_joined(*es, sep@, 1));
    let mut i: usize = 1;
    while i < es.len()
        invariant
            1 <= i <= es.len(),
            decreases_to!(whole => es),
            result@ == old(result)@ + "("@ + nix_joined(*es, sep@, i as int),
        decreases es.len() - i,
    {
        result.append(sep);
        push_expr(result, &es[i]);
        assert(nix_joined(*es, sep@, i + 1) == nix_joined(*es, sep@, i as int) + sep@ + nix_of(
            es[i as int],
        ));
        assert(result@ =~= old(result)@ + "("@ + nix_joined(*es, sep@, i + 1));
        i = i + 1;
    }
    result.append(")");
    assert(result@ =~= old(result)@ + "("@ + nix_joined(*es, sep@, es.len() as int) + ")"@);
}

/// Appends the nix expression for `cfg`.
fn push_expr(result: &mut String, cfg: &CfgExpression)
    ensures
        final(result)@ == old(result)@ + nix_of(*cfg),
    decreases *cfg, 1int,
{
    match cfg {
        CfgExpression::Value(c) => {
            push_cfg(result, c);
        },
        CfgExpression::Not(expr) => {
            result.append("(!");
            push_expr(result, expr);
            result.append(")");
        },
        CfgExpression::All(expressions) => {
            if expressions.len() == 0 {
                result.append("true");
            } else {
                push_joined(result, expressions, " && ", Ghost(*cfg));
            }
        },
        CfgExpression::Any(expressions) => {
            if expressions.len() == 0 {
                result.append("false");
            } else {
                push_joined(result, expressions, " || ", Ghost(*cfg));
            }
        },
    }
}

/// Renders a config expression to nix code.
pub fn cfg_to_nix_expr(cfg: &CfgExpression) -> (r: String)
    ensures
        r@ == nix_of(*cfg),
{
    let mut ret = String::new();
    push_expr(&mut ret, cfg);
    ret
}

} // verus!
