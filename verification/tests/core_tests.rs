use bonsai::compat::{compatible_replacements, is_named_node};
use bonsai::languages;
use bonsai::parse;
use bonsai::supertype::{EmptyProvider, LanguageApiProvider, SupertypeProvider};
use bonsai::transform::Transform;
use bonsai::transforms::delete::DeleteTransform;
use bonsai::transforms::unwrap::UnwrapTransform;
use bonsai::tree::SyntaxTree;
use bonsai::validity::{self, Replacement};

/// Positions of the children of node `p`, in order.
fn children(tree: &SyntaxTree, p: usize) -> Vec<usize> {
    (1..tree.nodes.len()).filter(|&k| tree.nodes[k].parent == p).collect()
}

#[test]
fn test_parse_python() {
    let lang = languages::get_language("python").unwrap();
    let tree = parse::parse(b"def foo(): pass", &lang).unwrap();
    assert_eq!(tree.nodes[0].kind, "module");
    assert!(!validity::tree_has_errors(&tree));
}

#[test]
fn test_parse_empty_source() {
    let lang = languages::get_language("python").unwrap();
    let tree = parse::parse(b"", &lang).unwrap();
    assert_eq!(tree.nodes[0].kind, "module");
    assert_eq!(children(&tree, 0).len(), 0);
}

#[test]
fn test_parse_javascript() {
    let lang = languages::get_language("javascript").unwrap();
    let tree = parse::parse(b"function foo() { return 1; }", &lang).unwrap();
    assert_eq!(tree.nodes[0].kind, "program");
    assert!(!validity::tree_has_errors(&tree));
}

#[test]
fn test_parse_rust_code() {
    let lang = languages::get_language("rust").unwrap();
    let tree = parse::parse(b"fn main() {}", &lang).unwrap();
    assert_eq!(tree.nodes[0].kind, "source_file");
    assert!(!validity::tree_has_errors(&tree));
}

#[test]
fn test_parse_tree_is_preorder_with_parents() {
    let lang = languages::get_language("python").unwrap();
    let source = b"x = 1 + 2";
    let tree = parse::parse(source, &lang).unwrap();
    assert_eq!(tree.source_len, source.len());
    assert_eq!(tree.nodes[0].depth, 0);
    for k in 1..tree.nodes.len() {
        let p = tree.nodes[k].parent;
        assert!(p < k);
        assert_eq!(tree.nodes[p].depth + 1, tree.nodes[k].depth);
        assert!(tree.nodes[p].start_byte <= tree.nodes[k].start_byte);
        assert!(tree.nodes[k].end_byte <= tree.nodes[p].end_byte);
    }
}

#[test]
fn test_find_node_at_exact_range() {
    let lang = languages::get_language("python").unwrap();
    let source = b"x = 1\ny = 2";
    let tree = parse::parse(source, &lang).unwrap();
    let found = parse::find_node_at(&tree, 0, 6, 11).unwrap();
    assert_eq!(tree.nodes[found].start_byte, 6);
    assert_eq!(tree.nodes[found].end_byte, 11);
    for k in 0..found {
        assert!(!(tree.nodes[k].start_byte == 6 && tree.nodes[k].end_byte == 11));
    }
    assert!(parse::find_node_at(&tree, 0, 2, 7).is_none());
}

#[test]
fn test_single_token_source() {
    let lang = languages::get_language("python").unwrap();
    let tree = parse::parse(b"x", &lang).unwrap();
    assert!(!children(&tree, 0).is_empty(), "Single token should produce at least one child node");
}

#[test]
fn test_deeply_nested_tree() {
    let lang = languages::get_language("python").unwrap();
    let source = b"x = ((((((((1))))))))";
    let tree = parse::parse(source, &lang).unwrap();
    assert!(!validity::tree_has_errors(&tree));
}

#[test]
fn test_parse_empty_source_all_grammars() {
    for info in languages::list_languages() {
        let lang = languages::get_language(info.name).unwrap();
        let tree = parse::parse(b"", &lang);
        assert!(tree.is_some(), "Empty source should parse for {}", info.name);
    }
}

#[test]
fn test_is_named_node() {
    let lang = languages::get_language("python").unwrap();
    let tree = parse::parse(b"x = 1", &lang).unwrap();
    assert!(is_named_node(&tree, 0));
}

#[test]
fn test_compatible_replacements_for_expression() {
    let lang = languages::get_language("python").unwrap();
    let provider = LanguageApiProvider::new(&lang);
    let source = b"x = 1 + 2";
    let tree = parse::parse(source, &lang).unwrap();
    let mut found_compatible = false;
    for k in 0..tree.nodes.len() {
        if tree.nodes[k].is_named && !compatible_replacements(&tree, k, &provider).is_empty() {
            found_compatible = true;
        }
    }
    assert!(
        found_compatible,
        "Should find at least one node with compatible replacements in Python code"
    );
}

#[test]
fn test_compatible_replacements_empty_provider() {
    let lang = languages::get_language("python").unwrap();
    let provider = EmptyProvider;
    let source = b"x = 1";
    let tree = parse::parse(source, &lang).unwrap();
    for k in 0..tree.nodes.len() {
        if tree.nodes[k].is_named {
            assert!(
                compatible_replacements(&tree, k, &provider).is_empty(),
                "Empty provider should yield no replacements"
            );
        }
    }
}

struct MockTransform;

impl Transform for MockTransform {
    fn candidates(
        &self,
        _tree: &SyntaxTree,
        _node: usize,
        _source: &[u8],
        _provider: &dyn SupertypeProvider,
    ) -> Vec<Replacement> {
        vec![Replacement {
            start_byte: 0,
            end_byte: 1,
            new_bytes: vec![],
        }]
    }

    fn name(&self) -> &str {
        "mock"
    }
}

#[test]
fn test_trait_is_object_safe() {
    let transform: Box<dyn Transform> = Box::new(MockTransform);
    assert_eq!(transform.name(), "mock");
}

#[test]
fn test_mock_transform_returns_candidates() {
    let transform = MockTransform;
    let lang = languages::get_language("python").unwrap();
    let tree = parse::parse(b"x = 1", &lang).unwrap();
    let provider = EmptyProvider;
    let candidates = transform.candidates(&tree, 0, b"x = 1", &provider);
    assert_eq!(candidates.len(), 1);
    assert_eq!(candidates[0].start_byte, 0);
}

#[test]
fn test_delete_named_node_proposes_empty() {
    let lang = languages::get_language("python").unwrap();
    let source = b"if True:\n  pass\nelse:\n  pass";
    let tree = parse::parse(source, &lang).unwrap();
    let provider = EmptyProvider;
    let if_stmt = children(&tree, 0)[0];
    let else_clause = children(&tree, if_stmt)
        .into_iter()
        .find(|&c| tree.nodes[c].kind == "else_clause");
    if let Some(else_node) = else_clause {
        let transform = DeleteTransform;
        let candidates = transform.candidates(&tree, else_node, source, &provider);
        assert_eq!(candidates.len(), 1);
        assert!(candidates[0].new_bytes.is_empty());
        assert_eq!(candidates[0].start_byte, tree.nodes[else_node].start_byte);
        assert_eq!(candidates[0].end_byte, tree.nodes[else_node].end_byte);
    }
}

#[test]
fn test_delete_valid_removal() {
    let lang = languages::get_language("python").unwrap();
    let source = b"x = 1\ny = 2";
    let tree = parse::parse(source, &lang).unwrap();
    let provider = EmptyProvider;
    let transform = DeleteTransform;
    let second_stmt = children(&tree, 0)[1];
    let candidates = transform.candidates(&tree, second_stmt, source, &provider);
    assert_eq!(candidates.len(), 1);
    let result = validity::try_replacement(source, &candidates[0], &lang, None);
    assert!(result.is_some(), "Deleting second statement should be valid");
}

#[test]
fn test_delete_anonymous_node_skipped() {
    let lang = languages::get_language("python").unwrap();
    let source = b"x = 1";
    let tree = parse::parse(source, &lang).unwrap();
    let provider = EmptyProvider;
    let transform = DeleteTransform;
    let mut found_anonymous = false;
    for k in 0..tree.nodes.len() {
        if !tree.nodes[k].is_named {
            let candidates = transform.candidates(&tree, k, source, &provider);
            assert!(candidates.is_empty(), "Anonymous nodes should not get delete candidates");
            found_anonymous = true;
        }
    }
    assert!(found_anonymous, "Should have found at least one anonymous node");
}

#[test]
fn test_delete_transform_all_grammars() {
    let sources: &[(&str, &[u8])] = &[
        ("python", b"x = 1\ny = 2\nz = 3"),
        ("javascript", b"let x = 1;\nlet y = 2;\nlet z = 3;"),
        ("rust", b"fn main() {}\nfn foo() {}\nfn bar() {}"),
    ];
    let delete = DeleteTransform;
    for (lang_name, source) in sources {
        let lang = languages::get_language(lang_name).unwrap();
        let tree = parse::parse(source, &lang).unwrap();
        let provider = EmptyProvider;
        let mut has_candidates = false;
        for k in 0..tree.nodes.len() {
            if tree.nodes[k].is_named && !delete.candidates(&tree, k, source, &provider).is_empty() {
                has_candidates = true;
            }
        }
        assert!(has_candidates, "Should find delete candidates for {}", lang_name);
    }
}

#[test]
fn test_grammar_with_no_supertypes_still_works() {
    let lang = languages::get_language("python").unwrap();
    let source = b"x = 1\ny = 2";
    let tree = parse::parse(source, &lang).unwrap();
    let provider = EmptyProvider;
    let delete = DeleteTransform;
    let second_stmt = children(&tree, 0)[1];
    let candidates = delete.candidates(&tree, second_stmt, source, &provider);
    assert!(!candidates.is_empty(), "Delete should work without supertypes");
    let result = validity::try_replacement(source, &candidates[0], &lang, None);
    assert!(result.is_some(), "Deletion should produce valid code");
}

#[test]
fn test_unwrap_parenthesized_expression() {
    let lang = languages::get_language("python").unwrap();
    let source = b"y = (x)";
    let tree = parse::parse(source, &lang).unwrap();
    let provider = LanguageApiProvider::new(&lang);
    let transform = UnwrapTransform;
    for k in 0..tree.nodes.len() {
        if tree.nodes[k].kind == "parenthesized_expression" {
            let candidates = transform.candidates(&tree, k, source, &provider);
            if !candidates.is_empty() {
                let candidate = &candidates[0];
                assert_eq!(candidate.start_byte, tree.nodes[k].start_byte);
                assert_eq!(candidate.end_byte, tree.nodes[k].end_byte);
            }
        }
    }
}

#[test]
fn test_unwrap_no_compatible_children() {
    let lang = languages::get_language("python").unwrap();
    let source = b"x = 1";
    let tree = parse::parse(source, &lang).unwrap();
    let provider = EmptyProvider;
    let transform = UnwrapTransform;
    for k in 0..tree.nodes.len() {
        if tree.nodes[k].is_named {
            let candidates = transform.candidates(&tree, k, source, &provider);
            assert!(
                candidates.is_empty(),
                "Empty provider should yield no unwrap candidates for {}",
                tree.nodes[k].kind
            );
        }
    }
}

#[test]
fn test_unwrap_skips_anonymous_nodes() {
    let lang = languages::get_language("python").unwrap();
    let source = b"x = 1";
    let tree = parse::parse(source, &lang).unwrap();
    let provider = LanguageApiProvider::new(&lang);
    let transform = UnwrapTransform;
    for k in 0..tree.nodes.len() {
        if !tree.nodes[k].is_named {
            assert!(transform.candidates(&tree, k, source, &provider).is_empty());
        }
    }
}

#[test]
fn unwrap_with_empty_provider_proposes_nothing_for_nested_parentheses() {
    let lang = languages::get_language("python").unwrap();
    let source = b"x = ((1))";
    let tree = parse::parse(source, &lang).unwrap();
    let provider = EmptyProvider;
    let transform = UnwrapTransform;
    for k in 0..tree.nodes.len() {
        assert!(transform.candidates(&tree, k, source, &provider).is_empty());
    }
    assert_eq!(transform.name(), "unwrap");
}

#[test]
fn test_reparse_after_edit() {
    let lang = languages::get_language("python").unwrap();
    let original = b"x = 1";
    let mut tree = parse::parse_raw(original, &lang).unwrap();

    // Replace "1" with "2" (byte 4 to 5)
    let new_source = b"x = 2";
    let edit = parse::EditSpec {
        start_byte: 4,
        old_end_byte: 5,
        new_end_byte: 5,
        start_position: parse::EditPoint { row: 0, column: 4 },
        old_end_position: parse::EditPoint { row: 0, column: 5 },
        new_end_position: parse::EditPoint { row: 0, column: 5 },
    };

    let new_tree = parse::reparse(new_source, &mut tree, &edit).unwrap();
    assert_eq!(new_tree.nodes[0].kind, "module");
    assert!(!validity::tree_has_errors(&new_tree));
}

#[test]
fn reparse_after_growing_edit_spans_new_source() {
    let lang = languages::get_language("python").unwrap();
    let mut tree = parse::parse_raw(b"x = 1", &lang).unwrap();
    let edit = parse::EditSpec {
        start_byte: 4,
        old_end_byte: 5,
        new_end_byte: 6,
        start_position: parse::EditPoint { row: 0, column: 4 },
        old_end_position: parse::EditPoint { row: 0, column: 5 },
        new_end_position: parse::EditPoint { row: 0, column: 6 },
    };
    let new_tree = parse::reparse(b"x = 42", &mut tree, &edit).unwrap();
    assert_eq!(new_tree.source_len, 6);
    assert_eq!(new_tree.nodes[0].end_byte, 6);
    assert!(!validity::tree_has_errors(&new_tree));
}
