use bonsai::project::{
    discover_and_load, merge_locals_scm, rule_to_clojure_scm, ConfigError, DefiningFormRule,
    ProjectConfig, PROJECT_CONFIG_FILENAME,
};

fn empty_config(_path: &str) -> Result<ProjectConfig, ConfigError> {
    Ok(ProjectConfig { languages: vec![] })
}


#[test]
fn rule_to_clojure_scm_definition_pattern() {
    let rule = DefiningFormRule {
        head_pattern: "^defthing$".to_string(),
        name_position: 1,
        introduces_scope: false,
    };
    let scm = rule_to_clojure_scm(&rule);
    assert!(scm.contains("@local.definition"));
    assert!(scm.contains("#match?"));
    assert!(scm.contains("^defthing$"));
    assert!(!scm.contains("@local.scope"));
}

#[test]
fn rule_to_clojure_scm_includes_scope_when_requested() {
    let rule = DefiningFormRule {
        head_pattern: "^defscope$".to_string(),
        name_position: 1,
        introduces_scope: true,
    };
    let scm = rule_to_clojure_scm(&rule);
    assert!(scm.contains("@local.definition"));
    assert!(scm.contains("@local.scope"));
}

#[test]
fn rule_to_clojure_scm_skips_to_name_position() {
    let rule = DefiningFormRule {
        head_pattern: "^def$".to_string(),
        name_position: 3,
        introduces_scope: false,
    };
    let scm = rule_to_clojure_scm(&rule);
    assert_eq!(scm.matches("   .\n   _\n").count(), 2);
    assert!(scm.contains("(#match? @_bonsai-head \"^def$\")"));
}

#[test]
fn merge_locals_scm_appends_when_rules_present() {
    let base = ";; base locals\n(sym_lit) @local.reference\n";
    let rules = vec![DefiningFormRule {
        head_pattern: "^defx$".to_string(),
        name_position: 1,
        introduces_scope: false,
    }];
    let merged = merge_locals_scm(base, &rules).expect("should produce merged scm");
    assert!(merged.starts_with(";; base locals"));
    assert!(merged.contains("bonsai.toml extensions"));
    assert!(merged.contains("^defx$"));
}

#[test]
fn merge_locals_scm_returns_none_when_no_rules() {
    let merged = merge_locals_scm(";; base\n", &[]);
    assert!(merged.is_none());
}

#[test]
fn discover_walks_upward() {
    let files = ["/root/bonsai.toml"];
    let present = |p: &str| files.contains(&p);
    let result = discover_and_load("/root/a/b/c", &present, &empty_config);
    let (found_path, _config) = match result {
        Ok(Some(found)) => found,
        _ => panic!("should find config"),
    };
    assert_eq!(found_path, format!("/root/{}", PROJECT_CONFIG_FILENAME));
}

#[test]
fn discover_returns_none_when_no_config() {
    let nothing = |_p: &str| false;
    let result = discover_and_load("/root/project", &nothing, &empty_config);
    assert!(matches!(result, Ok(None)));
}

#[test]
fn discover_and_load_reports_load_error() {
    let found_everywhere = |_p: &str| true;
    let failing = |p: &str| -> Result<ProjectConfig, ConfigError> {
        Err(ConfigError::Parse { path: p.to_string(), message: "bad".to_string() })
    };
    let result = discover_and_load("/a/b", &found_everywhere, &failing);
    match result {
        Err(e) => {
            let msg = e.message();
            assert_eq!(msg, "failed to parse /a/b/bonsai.toml: bad");
        }
        _ => panic!("expected a load error"),
    }
}

#[test]
fn discover_and_load_takes_nearest_config() {
    let only_at_a = |p: &str| p == "/a/bonsai.toml";
    let result = discover_and_load("/a/b/c", &only_at_a, &empty_config);
    match result {
        Ok(Some((path, _))) => assert_eq!(path, "/a/bonsai.toml"),
        _ => panic!("expected a config at /a"),
    }
}

#[test]
fn rule_to_clojure_scm_matches_documented_example() {
    let rule = DefiningFormRule {
        head_pattern: "^def(creature|item)$".to_string(),
        name_position: 1,
        introduces_scope: true,
    };
    let scm = rule_to_clojure_scm(&rule);
    let expected = ";; bonsai.toml defining-form rule\n\
((list_lit\n   .\n   (sym_lit (sym_name) @_bonsai-head)\n   .\n   (sym_lit (sym_name) @local.definition))\n \
(#match? @_bonsai-head \"^def(creature|item)$\"))\n\n\
((list_lit\n   .\n   (sym_lit (sym_name) @_bonsai-head)\n   .\n   _*)\n \
(#match? @_bonsai-head \"^def(creature|item)$\"))\n @local.scope\n\n";
    assert_eq!(scm, expected);
}
