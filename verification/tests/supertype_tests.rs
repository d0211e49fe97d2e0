use bonsai::languages;
use bonsai::supertype::{ChainProvider, EmptyProvider, LanguageApiProvider, NodeTypesProvider, SupertypeProvider};

#[test]
fn test_language_api_provider_python_has_supertypes() {
    let lang = languages::get_language("python").unwrap();
    let provider = LanguageApiProvider::new(&lang);
    assert!(provider.has_supertypes(), "Python grammar should have supertypes");
}

#[test]
fn test_language_api_provider_python_expression_subtypes() {
    let lang = languages::get_language("python").unwrap();
    let provider = LanguageApiProvider::new(&lang);
    let supertypes = lang.supertypes();
    let expr_supertype = supertypes.iter().find(|&&id| {
        lang.node_kind_for_id(id)
            .is_some_and(|name| name.contains("expression"))
    });
    if let Some(&expr_id) = expr_supertype {
        let subtypes = provider.subtypes_for(expr_id);
        assert!(!subtypes.is_empty(), "Expression supertype should have subtypes");
        let identifier_id = lang.id_for_node_kind("identifier", true);
        if identifier_id != 0 {
            let id_supers = provider.supertypes_for(identifier_id);
            assert!(!id_supers.is_empty(), "identifier should have supertypes");
        }
    }
}

#[test]
fn test_empty_provider() {
    let provider = EmptyProvider;
    assert!(provider.supertypes_for(42).is_empty());
    assert!(provider.subtypes_for(42).is_empty());
    assert!(!provider.is_compatible(1, 2));
    assert!(provider.is_compatible(1, 1));
}

#[test]
fn test_chain_provider_merges() {
    let lang = languages::get_language("python").unwrap();
    let api_provider = LanguageApiProvider::new(&lang);
    let empty_provider = EmptyProvider;
    let chain = ChainProvider::new(vec![Box::new(api_provider), Box::new(empty_provider)]);
    let supertypes = lang.supertypes();
    if let Some(&first_super) = supertypes.first() {
        let subtypes = chain.subtypes_for(first_super);
        assert!(!subtypes.is_empty());
    }
}

#[test]
fn test_chain_provider_equals_single_provider_with_empty() {
    let lang = languages::get_language("python").unwrap();
    let chain = ChainProvider::new(vec![
        Box::new(LanguageApiProvider::new(&lang)),
        Box::new(EmptyProvider),
    ]);
    let single = LanguageApiProvider::new(&lang);
    let identifier_id = lang.id_for_node_kind("identifier", true);
    assert_eq!(chain.supertypes_for(identifier_id), single.supertypes_for(identifier_id));
    for &s in lang.supertypes() {
        assert_eq!(chain.subtypes_for(s), single.subtypes_for(s));
    }
}

#[test]
fn test_is_compatible_same_type() {
    let provider = EmptyProvider;
    assert!(provider.is_compatible(5, 5));
}

#[test]
fn test_is_compatible_different_type_no_supertypes() {
    let provider = EmptyProvider;
    assert!(!provider.is_compatible(5, 10));
}

#[test]
fn test_node_types_provider_python_has_supertypes() {
    let lang = languages::get_language("python").unwrap();
    let provider = NodeTypesProvider::new(&lang, "python");
    assert!(provider.has_supertypes(), "NodeTypesProvider should have supertypes for Python");
}

#[test]
fn test_node_types_provider_matches_language_api() {
    let lang = languages::get_language("python").unwrap();
    let api = LanguageApiProvider::new(&lang);
    let ntp = NodeTypesProvider::new(&lang, "python");
    let identifier_id = lang.id_for_node_kind("identifier", true);
    if identifier_id != 0 {
        let api_supers = api.supertypes_for(identifier_id);
        let ntp_supers = ntp.supertypes_for(identifier_id);
        if !api_supers.is_empty() {
            assert!(
                !ntp_supers.is_empty(),
                "If LanguageApiProvider finds supertypes for identifier, NodeTypesProvider should too"
            );
        }
    }
}

#[test]
fn test_node_types_provider_rust() {
    let lang = languages::get_language("rust").unwrap();
    let provider = NodeTypesProvider::new(&lang, "rust");
    assert!(provider.has_supertypes(), "NodeTypesProvider should have supertypes for Rust");
}

#[test]
fn test_node_types_provider_unknown_language() {
    let lang = languages::get_language("python").unwrap();
    let provider = NodeTypesProvider::new(&lang, "nonexistent");
    assert!(!provider.has_supertypes(), "Unknown language should have no supertypes");
}

#[test]
fn test_language_api_provider_compatible_expressions() {
    let lang = languages::get_language("python").unwrap();
    let provider = LanguageApiProvider::new(&lang);
    let identifier_id = lang.id_for_node_kind("identifier", true);
    let string_id = lang.id_for_node_kind("string", true);
    if identifier_id != 0 && string_id != 0 {
        let id_supers = provider.supertypes_for(identifier_id);
        let str_supers = provider.supertypes_for(string_id);
        let shared = id_supers.iter().any(|s| str_supers.contains(s));
        if shared {
            assert!(provider.is_compatible(identifier_id, string_id));
        }
    }
}

#[test]
fn test_supertype_provider_javascript() {
    let lang = languages::get_language("javascript").unwrap();
    let provider = LanguageApiProvider::new(&lang);
    let _has = provider.has_supertypes();
}

#[test]
fn test_supertype_provider_rust() {
    let lang = languages::get_language("rust").unwrap();
    let provider = LanguageApiProvider::new(&lang);
    let _has = provider.has_supertypes();
}

#[test]
fn test_node_types_supertypes_python_lists_expression() {
    let entries = languages::get_node_types_supertypes("python");
    let expr = entries.iter().find(|(name, _)| name == "expression").unwrap();
    assert!(expr.1.iter().any(|s| s == "primary_expression"));
    assert!(entries.iter().all(|(_, subs)| !subs.is_empty()));
    assert!(languages::get_node_types_supertypes("nonexistent").is_empty());
}

#[test]
fn node_types_supertypes_of_reads_named_subtypes_in_order() {
    let text = r#"[
        {"type": "_expr", "named": true, "subtypes": [
            {"type": "ident", "named": true},
            {"type": "+", "named": false},
            {"type": "call", "named": true}
        ]},
        {"type": "ident", "named": true, "fields": {}},
        {"type": "_only_anonymous", "named": true, "subtypes": [
            {"type": ";", "named": false}
        ]},
        {"type": "_stmt", "named": true, "subtypes": [
            {"type": "return", "named": true}
        ]}
    ]"#;
    let entries = languages::node_types_supertypes_of(text);
    assert_eq!(
        entries,
        vec![
            ("_expr".to_string(), vec!["ident".to_string(), "call".to_string()]),
            ("_stmt".to_string(), vec!["return".to_string()]),
        ]
    );
    assert!(languages::node_types_supertypes_of("not json").is_empty());
    assert!(languages::node_types_supertypes_of("{\"type\": \"x\"}").is_empty());
}
