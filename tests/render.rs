use crate2nix_render::cfg::{cfg_to_nix_expr, Cfg, CfgExpression};
use crate2nix_render::context::CargoTomlForWorkspace;
use crate2nix_render::escape::escape_nix_string;
use crate2nix_render::filter::{
    cfg_to_nix_expr_filter, classify_key, platform_name_condition, translate_parsed, TargetKey,
};
use crate2nix_render::output::{
    check_generated, guard_step, has_generated_marker, normalize_rendered, GuardStep,
};

fn name(value: &str) -> CfgExpression {
    CfgExpression::Value(Cfg::Name(value.to_string()))
}

fn kv(key: &str, value: &str) -> CfgExpression {
    CfgExpression::Value(Cfg::KeyPair(key.to_string(), value.to_string()))
}

/// Reads a nix double-quoted string literal back into the text it denotes.
fn read_nix_string(lit: &str) -> Option<String> {
    let chars: Vec<char> = lit.chars().collect();
    if chars.len() < 2 || chars[0] != '"' || chars[chars.len() - 1] != '"' {
        return None;
    }
    let body = &chars[1..chars.len() - 1];
    let mut out = String::new();
    let mut i = 0;
    while i < body.len() {
        match body[i] {
            '\\' => {
                let c = *body.get(i + 1)?;
                out.push(match c {
                    'n' => '\n',
                    'r' => '\r',
                    't' => '\t',
                    other => other,
                });
                i += 2;
            }
            '"' => return None,
            '$' if body.get(i + 1) == Some(&'{') => return None,
            c => {
                out.push(c);
                i += 1;
            }
        }
    }
    Some(out)
}

#[test]
fn test_render_cfg_to_nix_expr() {
    assert_eq!(
        "(target.\"unix\" or false)",
        &cfg_to_nix_expr(&name("unix"))
    );
    assert_eq!(
        "((builtins.elem \"aes\" targetFeatures) && (builtins.elem \"foo\" features))",
        &cfg_to_nix_expr(&CfgExpression::All(vec![
            kv("target_feature", "aes"),
            kv("feature", "foo")
        ]))
    );
    assert_eq!(
        "(builtins.elem \"unix\" target.\"family\")",
        &cfg_to_nix_expr(&kv("target_family", "unix"))
    );
    assert_eq!(
        "(\"linux\" == target.\"os\" or null)",
        &cfg_to_nix_expr(&kv("target_os", "linux"))
    );
    assert_eq!(
        "(!(\"linux\" == target.\"os\" or null))",
        &cfg_to_nix_expr(&CfgExpression::Not(Box::new(kv("target_os", "linux"))))
    );
    assert_eq!(
        "((target.\"unix\" or false) || (\"linux\" == target.\"os\" or null))",
        &cfg_to_nix_expr(&CfgExpression::Any(vec![name("unix"), kv("target_os", "linux")]))
    );
    assert_eq!(
        "((target.\"unix\" or false) && (\"linux\" == target.\"os\" or null))",
        &cfg_to_nix_expr(&CfgExpression::All(vec![name("unix"), kv("target_os", "linux")]))
    );
    assert_eq!("true", &cfg_to_nix_expr(&CfgExpression::All(vec![])));
    assert_eq!("false", &cfg_to_nix_expr(&CfgExpression::Any(vec![])));
}

#[test]
fn escape_literal_cases() {
    assert_eq!("\"abc\"", escape_nix_string("abc"));
    assert_eq!("\"a\\\"bc\"", escape_nix_string("a\"bc"));
    assert_eq!("\"a$bc\"", escape_nix_string("a$bc"));
    assert_eq!("\"a$\"", escape_nix_string("a$"));
    assert_eq!("\"a\\${bc\"", escape_nix_string("a${bc"));
}

#[test]
fn escape_backslash_and_empty() {
    assert_eq!("\"\"", escape_nix_string(""));
    assert_eq!("\"a\\\\b\"", escape_nix_string("a\\b"));
    assert_eq!("\"$\\${\"", escape_nix_string("$${"));
    assert_eq!("\"ä\\\"ö\"", escape_nix_string("ä\"ö"));
}

#[test]
fn escape_round_trip_samples() {
    for s in ["", "abc", "a\"b", "\\", "\\n", "${x}", "$${", "$", "{$", "line\nbreak", "\"\"\\$"] {
        assert_eq!(Some(s.to_string()), read_nix_string(&escape_nix_string(s)));
    }
}

#[test]
fn translate_strips_target_prefix_only_at_start() {
    assert_eq!(
        "(target.\"has_atomic\" or false)",
        cfg_to_nix_expr(&name("target_has_atomic"))
    );
    assert_eq!(
        "(target.\"my_target_x\" or false)",
        cfg_to_nix_expr(&name("my_target_x"))
    );
    assert_eq!(
        "(\"64\" == target.\"pointer_width\" or null)",
        cfg_to_nix_expr(&kv("target_pointer_width", "64"))
    );
    assert_eq!(
        "(\"x\" == target.\"debug_assertions\" or null)",
        cfg_to_nix_expr(&kv("debug_assertions", "x"))
    );
}

#[test]
fn translate_escapes_values() {
    assert_eq!(
        "(builtins.elem \"a\\\"b\" features)",
        cfg_to_nix_expr(&kv("feature", "a\"b"))
    );
    assert_eq!(
        "(!(!(target.\"unix\" or false)))",
        cfg_to_nix_expr(&CfgExpression::Not(Box::new(CfgExpression::Not(Box::new(name("unix"))))))
    );
    assert_eq!(
        "((target.\"a\" or false))",
        cfg_to_nix_expr(&CfgExpression::Any(vec![name("a")]))
    );
}

#[test]
fn filter_translates_cfg_predicates() {
    assert_eq!(
        Ok("(target.\"unix\" or false)".to_string()),
        cfg_to_nix_expr_filter("cfg(unix)")
    );
    assert_eq!(
        Ok("((target.\"unix\" or false) && (\"linux\" == target.\"os\" or null))".to_string()),
        cfg_to_nix_expr_filter("cfg(all(unix, target_os = \"linux\"))")
    );
    assert_eq!(
        Ok("(!(builtins.elem \"foo\" features))".to_string()),
        cfg_to_nix_expr_filter("cfg(not(feature = \"foo\"))")
    );
}

#[test]
fn filter_takes_other_text_as_platform_name() {
    assert_eq!(
        Ok("(target.name == \"x86_64-unknown-linux-gnu\")".to_string()),
        cfg_to_nix_expr_filter("x86_64-unknown-linux-gnu")
    );
    assert_eq!(
        Ok("(target.name == \"cfg(unix\")".to_string()),
        cfg_to_nix_expr_filter("cfg(unix")
    );
    assert_eq!(
        "(target.name == \"a\\\"b\")",
        platform_name_condition("a\"b")
    );
}

#[test]
fn filter_reports_unparsable_predicates() {
    let err = cfg_to_nix_expr_filter("cfg(all(unix)").unwrap_err();
    assert_eq!("all(unix", err.cfg);
    assert!(err
        .message()
        .starts_with("cfg_to_nix_expr_filter: Could not parse 'all(unix': "));
    assert!(cfg_to_nix_expr_filter("cfg()").is_err());
}

#[test]
fn classify_splits_cfg_keys() {
    assert_eq!(TargetKey::Predicate("unix".to_string()), classify_key("cfg(unix)"));
    assert_eq!(TargetKey::Predicate("".to_string()), classify_key("cfg()"));
    assert_eq!(TargetKey::Platform("cfg(".to_string()), classify_key("cfg("));
    assert_eq!(TargetKey::Platform("unix)".to_string()), classify_key("unix)"));
}

#[test]
fn translate_parsed_passes_parser_result_on() {
    assert_eq!(
        Ok("(target.\"unix\" or false)".to_string()),
        translate_parsed("unix", Ok(name("unix")))
    );
    let err = translate_parsed("?", Err("bad".to_string())).unwrap_err();
    assert_eq!("?", err.cfg);
    assert_eq!("bad", err.reason);
    assert_eq!("cfg_to_nix_expr_filter: Could not parse '?': bad", err.message());
}

#[test]
fn normalize_trims_and_ends_with_one_newline() {
    assert_eq!("a\nb\n", normalize_rendered("a  \nb \t"));
    assert_eq!("a\n\nb\n", normalize_rendered("a \n   \nb\n"));
    assert_eq!("x\n", normalize_rendered("x\r\n"));
    assert_eq!("\n", normalize_rendered(""));
    assert_eq!("\n", normalize_rendered("\n"));
    assert_eq!("  a\n", normalize_rendered("  a\u{3000}"));
}

#[test]
fn normalize_gives_the_same_text_twice() {
    let text = "let\n  x = 1;  \nin x   ";
    assert_eq!(normalize_rendered(text), normalize_rendered(text));
    assert_eq!("let\n  x = 1;\nin x\n", normalize_rendered(text));
}

#[test]
fn guard_allows_missing_and_marked_files() {
    let marked = |lines: &[&str]| -> Vec<String> { lines.iter().map(|l| l.to_string()).collect() };
    assert!(check_generated("Cargo.nix", None).is_ok());
    assert!(check_generated("f", Some(&marked(&["# @generated by crate2nix", "x", "y"]))).is_ok());
    assert!(check_generated("f", Some(&marked(&["x", "# @generated by crate2nix 0.1", "y"]))).is_ok());
    assert!(check_generated("f", Some(&marked(&["x", "y", "@generated by crate2nix"]))).is_ok());
}

#[test]
fn guard_refuses_unmarked_files() {
    let lines: Vec<String> = vec!["x".to_string(), "@generated by crate2".to_string()];
    let err = check_generated("Cargo.nix", Some(&lines)).unwrap_err();
    assert_eq!("Cargo.nix", err.path);
    assert_eq!(
        "Cowardly refusing to overwrite Cargo.nix without generated marker.",
        err.message()
    );
    assert!(check_generated("empty", Some(&vec![])).is_err());
    assert!(!has_generated_marker("@generated by Crate2nix"));
    assert!(has_generated_marker("xx@generated by crate2nixyy"));
}

#[test]
fn workspace_context_holds_members() {
    let ctx = CargoTomlForWorkspace {
        info: (),
        workspace_member_dir: "members".to_string(),
        members: vec!["a".to_string(), "b".to_string()],
    };
    assert_eq!(2, ctx.members.len());
    assert_eq!("members", ctx.workspace_member_dir);
}

#[test]
fn normalize_twice_changes_nothing() {
    for text in ["", "\n\n", "a \r\nb\t\n\n  ", "x", "  \u{a0}\n y \n"] {
        let once = normalize_rendered(text);
        assert_eq!(once, normalize_rendered(&once));
    }
}

#[test]
fn normalize_drops_trailing_blank_lines() {
    assert_eq!("a\n", normalize_rendered("a\n\n"));
    assert_eq!("a\n", normalize_rendered("a\n   \n"));
    assert_eq!("a\n", normalize_rendered("a\n \t\n\n  "));
    assert_eq!("a\n\nb\n", normalize_rendered("a\n\nb\n\n"));
    assert_eq!("\n", normalize_rendered("  \n\t\n\n"));
    assert_eq!("\n", normalize_rendered("   "));
}

#[test]
fn guard_step_scans_line_by_line() {
    assert_eq!(GuardStep::Allow, guard_step("f", Some("# @generated by crate2nix")));
    assert_eq!(GuardStep::ReadNext, guard_step("f", Some("let x = 1;")));
    match guard_step("Cargo.nix", None) {
        GuardStep::Refuse(e) => assert_eq!("Cargo.nix", e.path),
        other => panic!("expected a refusal, got {:?}", other),
    }
}
