use bonsai::languages;
use bonsai::parse;
use bonsai::scope::{Capture, ScopeAnalysis};
use bonsai::supertype::EmptyProvider;
use bonsai::transform::Transform;
use bonsai::transforms::dead_definition::DeadDefinitionTransform;

fn js_locals() -> &'static str {
    languages::list_languages()
        .into_iter()
        .find(|l| l.name == "javascript")
        .unwrap()
        .locals_scm
        .expect("JS should have locals.scm")
}

#[test]
fn test_scope_analysis_javascript() {
    let lang = languages::get_language("javascript").unwrap();
    let locals_content = js_locals();
    let source = b"function foo() { let x = 1; return x; }";
    let tree = parse::parse(source, &lang).unwrap();
    let analysis = ScopeAnalysis::from_tree(&tree, source, &lang, locals_content)
        .expect("Should parse locals.scm");
    assert!(!analysis.definitions.is_empty(), "Should find definitions in JS code");
    assert!(!analysis.references.is_empty(), "Should find references in JS code");
    let x_def = analysis.definitions.iter().find(|d| d.name == "x");
    assert!(x_def.is_some(), "Should find definition of 'x'");
    if let Some(def) = x_def {
        let ref_count = analysis.reference_count(def.node_id);
        assert!(ref_count > 0, "x should have at least one reference, got {}", ref_count);
    }
}

#[test]
fn test_scope_analysis_unreferenced_definition() {
    let lang = languages::get_language("javascript").unwrap();
    let source = b"function foo() { let unused = 1; let used = 2; return used; }";
    let tree = parse::parse(source, &lang).unwrap();
    let analysis = ScopeAnalysis::from_tree(&tree, source, &lang, js_locals()).unwrap();
    let unreferenced = analysis.unreferenced_definitions();
    let names: Vec<&str> = unreferenced.iter().map(|d| d.name.as_str()).collect();
    assert!(names.contains(&"unused"), "Should find 'unused' as unreferenced. Got: {:?}", names);
    assert!(!names.contains(&"used"));
}

#[test]
fn test_scope_analysis_sibling_scopes_do_not_leak() {
    let lang = languages::get_language("javascript").unwrap();
    let source = b"function a() { let x = 1; } function b() { return x; }";
    let tree = parse::parse(source, &lang).unwrap();
    let analysis = ScopeAnalysis::from_tree(&tree, source, &lang, js_locals()).unwrap();
    let unreferenced = analysis.unreferenced_definitions();
    let names: Vec<&str> = unreferenced.iter().map(|d| d.name.as_str()).collect();
    assert!(
        names.contains(&"x"),
        "x in a() should be unreferenced since b() is a sibling scope. Got: {:?}",
        names
    );
}

#[test]
fn test_scope_analysis_no_locals() {
    let lang = languages::get_language("python").unwrap();
    let result = ScopeAnalysis::from_tree(
        &parse::parse(b"x = 1", &lang).unwrap(),
        b"x = 1",
        &lang,
        "invalid query that won't parse",
    );
    assert!(result.is_none(), "Invalid query should return None");
}

#[test]
fn test_from_captures_shadowing_picks_nearest_preceding_definition() {
    // Build the analysis from hand-made captures over a parsed tree:
    // two definitions of the same name at different positions in the root
    // scope, and a reference after both.
    let lang = languages::get_language("python").unwrap();
    let source = b"a = 1\na = 2\nprint(a)";
    let tree = parse::parse(source, &lang).unwrap();
    let idents: Vec<usize> = (0..tree.nodes.len())
        .filter(|&k| tree.nodes[k].kind == "identifier")
        .collect();
    // identifiers in preorder: a, a, print, a
    let (d1, d2, r) = (idents[0], idents[1], idents[3]);
    let caps = vec![
        Capture { index: 1, node: d1 },
        Capture { index: 1, node: d2 },
        Capture { index: 2, node: r },
    ];
    let analysis = ScopeAnalysis::from_captures(&tree, source, &caps, Some(0), Some(1), Some(2));
    assert_eq!(analysis.definitions.len(), 2);
    assert_eq!(analysis.references.len(), 1);
    assert_eq!(analysis.references[0].definition_node_id, Some(d2));
    assert_eq!(analysis.reference_count(d2), 1);
    assert_eq!(analysis.reference_count(d1), 0);
    let dead: Vec<usize> = analysis.unreferenced_definitions().iter().map(|d| d.node_id).collect();
    assert_eq!(dead, vec![d1]);
    assert_eq!(analysis.scope_definitions, vec![(0, vec![d1, d2])]);
}

#[test]
fn test_dead_definition_proposes_deletion() {
    let lang = languages::get_language("javascript").unwrap();
    let locals_content = js_locals();
    let source = b"function foo() { let unused = 1; let used = 2; return used; }";
    let tree = parse::parse(source, &lang).unwrap();
    let analysis = ScopeAnalysis::from_tree(&tree, source, &lang, locals_content).unwrap();
    let transform = DeadDefinitionTransform::from_analysis(&analysis, &tree, locals_content);
    let provider = EmptyProvider;
    let mut found_dead = false;
    for k in 0..tree.nodes.len() {
        let candidates = transform.candidates(&tree, k, source, &provider);
        if !candidates.is_empty() {
            let deleted_text =
                String::from_utf8_lossy(&source[candidates[0].start_byte..candidates[0].end_byte]);
            if deleted_text.contains("unused") {
                found_dead = true;
            }
        }
    }
    assert!(found_dead, "Should propose deleting the 'unused' definition");
}

#[test]
fn test_dead_definition_does_not_delete_used() {
    let lang = languages::get_language("javascript").unwrap();
    let locals_content = js_locals();
    let source = b"let x = 1; console.log(x);";
    let tree = parse::parse(source, &lang).unwrap();
    let analysis = ScopeAnalysis::from_tree(&tree, source, &lang, locals_content).unwrap();
    let transform = DeadDefinitionTransform::from_analysis(&analysis, &tree, locals_content);
    let provider = EmptyProvider;
    for k in 0..tree.nodes.len() {
        for c in &transform.candidates(&tree, k, source, &provider) {
            let text = String::from_utf8_lossy(&source[c.start_byte..c.end_byte]);
            assert!(!text.contains("let x"), "Should NOT propose deleting used definition: {}", text);
        }
    }
}

#[test]
fn test_dead_definition_empty_produces_nothing() {
    let transform = DeadDefinitionTransform::empty();
    let lang = languages::get_language("javascript").unwrap();
    let source = b"let x = 1;";
    let tree = parse::parse(source, &lang).unwrap();
    let provider = EmptyProvider;
    let candidates = transform.candidates(&tree, 0, source, &provider);
    assert!(candidates.is_empty());
    assert_eq!(transform.name(), "dead_definition");
}

#[test]
fn test_dead_definition_recomputes_after_reduction() {
    let lang = languages::get_language("javascript").unwrap();
    let locals_content = js_locals();
    let source = b"let a = 1; let b = a;";
    let tree = parse::parse(source, &lang).unwrap();
    let analysis = ScopeAnalysis::from_tree(&tree, source, &lang, locals_content).unwrap();
    let mut transform = DeadDefinitionTransform::from_analysis(&analysis, &tree, locals_content);
    let provider = EmptyProvider;
    let proposes = |t: &DeadDefinitionTransform, tree: &bonsai::tree::SyntaxTree, src: &[u8], text: &str| {
        (0..tree.nodes.len()).any(|k| {
            t.candidates(tree, k, src, &provider)
                .iter()
                .any(|c| &src[c.start_byte..c.end_byte] == text.as_bytes())
        })
    };
    assert!(!proposes(&transform, &tree, source, "let a = 1;"));
    // After `let b = a;` is gone, `a` is dead too.
    let reduced = b"let a = 1; ";
    let tree2 = parse::parse(reduced, &lang).unwrap();
    transform.on_reduction(&tree2, reduced, &lang);
    assert!(proposes(&transform, &tree2, reduced, "let a = 1;"));
}
