use bonsai::languages;
use bonsai::parse;
use bonsai::validity::{apply_replacement, tree_has_errors, try_replacement, ErrorSet, Replacement};

#[test]
fn test_apply_replacement_middle() {
    let source = b"hello world";
    let replacement = Replacement {
        start_byte: 5,
        end_byte: 11,
        new_bytes: b" rust".to_vec(),
    };
    assert_eq!(apply_replacement(source, &replacement), b"hello rust");
}

#[test]
fn test_apply_replacement_delete() {
    let source = b"hello world";
    let replacement = Replacement {
        start_byte: 5,
        end_byte: 11,
        new_bytes: vec![],
    };
    assert_eq!(apply_replacement(source, &replacement), b"hello");
}

#[test]
fn test_apply_replacement_insert() {
    let source = b"hello";
    let replacement = Replacement {
        start_byte: 5,
        end_byte: 5,
        new_bytes: b" world".to_vec(),
    };
    assert_eq!(apply_replacement(source, &replacement), b"hello world");
}

#[test]
fn test_replacement_at_boundaries() {
    let source = b"abc";
    let r = Replacement {
        start_byte: 0,
        end_byte: 1,
        new_bytes: b"X".to_vec(),
    };
    assert_eq!(apply_replacement(source, &r), b"Xbc");

    let r = Replacement {
        start_byte: 2,
        end_byte: 3,
        new_bytes: b"Z".to_vec(),
    };
    assert_eq!(apply_replacement(source, &r), b"abZ");

    let r = Replacement {
        start_byte: 0,
        end_byte: 3,
        new_bytes: b"XYZ".to_vec(),
    };
    assert_eq!(apply_replacement(source, &r), b"XYZ");

    let r = Replacement {
        start_byte: 0,
        end_byte: 3,
        new_bytes: vec![],
    };
    assert_eq!(apply_replacement(source, &r), b"");
}

#[test]
fn test_apply_replacement_length_formula() {
    let source = b"0123456789";
    let r = Replacement {
        start_byte: 2,
        end_byte: 7,
        new_bytes: b"ab".to_vec(),
    };
    let out = apply_replacement(source, &r);
    assert_eq!(out.len(), 10 - (7 - 2) + 2);
    assert_eq!(out, b"01ab789");
}

#[test]
fn test_tree_has_errors_clean() {
    let lang = languages::get_language("python").unwrap();
    let tree = parse::parse(b"x = 1", &lang).unwrap();
    assert!(!tree_has_errors(&tree));
}

#[test]
fn test_tree_has_errors_broken() {
    let lang = languages::get_language("python").unwrap();
    let tree = parse::parse(b"def )", &lang).unwrap();
    assert!(tree_has_errors(&tree));
}

#[test]
fn test_error_set_from_clean_tree() {
    let lang = languages::get_language("python").unwrap();
    let source = b"x = 1";
    let tree = parse::parse(source, &lang).unwrap();
    let errors = ErrorSet::from_tree(&tree, source);
    assert!(errors.is_empty());
    assert_eq!(errors.len(), 0);
    assert!(!errors.has_errors());
}

#[test]
fn test_error_set_from_broken_tree() {
    let lang = languages::get_language("python").unwrap();
    let source = b"def )";
    let tree = parse::parse(source, &lang).unwrap();
    let errors = ErrorSet::from_tree(&tree, source);
    assert!(errors.has_errors());
    assert!(errors.len() > 0);
}

#[test]
fn test_error_set_detects_new_errors() {
    let lang = languages::get_language("python").unwrap();
    let source1 = b"def )\nx = 1";
    let tree1 = parse::parse(source1, &lang).unwrap();
    let initial = ErrorSet::from_tree(&tree1, source1);
    assert!(initial.has_errors());

    let source2 = b"def )\nx = )";
    let tree2 = parse::parse(source2, &lang).unwrap();
    assert!(initial.has_new_errors(&tree2, source2));
}

#[test]
fn test_error_set_no_new_errors_against_itself() {
    let lang = languages::get_language("python").unwrap();
    let source = b"def )\nx = 1";
    let tree = parse::parse(source, &lang).unwrap();
    let initial = ErrorSet::from_tree(&tree, source);
    assert!(!initial.has_new_errors(&tree, source));
}

#[test]
fn test_try_replacement_valid() {
    let lang = languages::get_language("python").unwrap();
    let source = b"x = 1\ny = 2";
    let replacement = Replacement {
        start_byte: 6,
        end_byte: 11,
        new_bytes: vec![],
    };
    let result = try_replacement(source, &replacement, &lang, None);
    assert!(result.is_some());
    assert_eq!(result.unwrap(), b"x = 1\n");
}

#[test]
fn test_try_replacement_invalid() {
    let lang = languages::get_language("python").unwrap();
    let source = b"if True:\n  pass";
    let replacement = Replacement {
        start_byte: 3,
        end_byte: 7,
        new_bytes: vec![],
    };
    let result = try_replacement(source, &replacement, &lang, None);
    assert!(result.is_none(), "Removing condition from if should be invalid");
}

#[test]
fn test_try_replacement_lenient_with_preexisting_errors() {
    let lang = languages::get_language("python").unwrap();
    let source = b"x = )\ny = 1\nz = 2";
    let tree = parse::parse(source, &lang).unwrap();
    let initial = ErrorSet::from_tree(&tree, source);
    assert!(initial.has_errors());

    let new_source = b"x = )\ny = 1\n";
    let new_tree = parse::parse(new_source, &lang).unwrap();
    assert!(
        !initial.has_new_errors(&new_tree, new_source),
        "Removing a trailing line should not introduce new errors"
    );

    let replacement = Replacement {
        start_byte: 12,
        end_byte: 17,
        new_bytes: vec![],
    };
    let result = try_replacement(source, &replacement, &lang, Some(&initial));
    assert!(result.is_some(), "Should accept removal that doesn't add new errors");
}

#[test]
fn test_try_replacement_strict_rejects_preexisting_errors() {
    let lang = languages::get_language("python").unwrap();
    let source = b"def )\nx = 1";
    let replacement = Replacement {
        start_byte: 6,
        end_byte: 11,
        new_bytes: vec![],
    };
    let result = try_replacement(source, &replacement, &lang, None);
    assert!(result.is_none(), "Strict mode should reject when errors exist");
}

#[test]
fn test_try_replacement_invalid_range() {
    let lang = languages::get_language("python").unwrap();
    let source = b"x = 1";
    let r = Replacement {
        start_byte: 0,
        end_byte: 100,
        new_bytes: vec![],
    };
    assert!(try_replacement(source, &r, &lang, None).is_none());

    let r = Replacement {
        start_byte: 4,
        end_byte: 2,
        new_bytes: vec![],
    };
    assert!(try_replacement(source, &r, &lang, None).is_none());
}

#[test]
fn test_missing_nodes_are_errors() {
    let lang = languages::get_language("python").unwrap();
    let tree = parse::parse(b"def foo(", &lang).unwrap();
    assert!(tree_has_errors(&tree), "Incomplete code should have errors/missing nodes");
}

#[test]
fn test_lenient_mode_with_error_before_deletion() {
    let lang = languages::get_language("python").unwrap();
    let source = b"x = )\ny = 1\nz = 2";
    let tree = parse::parse(source, &lang).unwrap();
    let initial = ErrorSet::from_tree(&tree, source);
    assert!(initial.has_errors());

    let r = Replacement {
        start_byte: 6,
        end_byte: 12,
        new_bytes: vec![],
    };
    let result = try_replacement(source, &r, &lang, Some(&initial));
    assert!(result.is_some(), "Deleting after error should be accepted");
}

#[test]
fn test_error_set_empty_tree() {
    let lang = languages::get_language("python").unwrap();
    let tree = parse::parse(b"", &lang).unwrap();
    let source = b"";
    let errors = ErrorSet::from_tree(&tree, source);
    assert!(errors.is_empty());
}

#[test]
fn test_lenient_mode_deletion_before_error_no_false_reject() {
    let lang = languages::get_language("python").unwrap();
    let source = b"y = 1\nx = )\nz = 2";
    let tree = parse::parse(source, &lang).unwrap();
    let initial = ErrorSet::from_tree(&tree, source);
    assert!(initial.has_errors());

    let r = Replacement {
        start_byte: 0,
        end_byte: 6,
        new_bytes: vec![],
    };
    let result = try_replacement(source, &r, &lang, Some(&initial));
    assert!(
        result.is_some(),
        "Deleting before error should be accepted (error just shifted, same content)"
    );
}
