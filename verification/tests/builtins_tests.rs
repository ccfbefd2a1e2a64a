use lex_core::builtins::{is_canonical_label, is_doc_builtin, CANONICAL_LABELS, DOC_BUILTIN_LABELS};

#[test]
fn is_doc_builtin_recognises_every_canonical() {
    for label in DOC_BUILTIN_LABELS {
        assert!(is_doc_builtin(label), "{label} must be a doc built-in");
    }
    assert!(!is_doc_builtin("doc.unknown"));
    assert!(!is_doc_builtin("doc."));
    assert!(!is_doc_builtin("title"));
    assert!(!is_doc_builtin("lex.metadata.title"));
}

#[test]
fn is_canonical_label_recognizes_every_constant() {
    for label in CANONICAL_LABELS {
        assert!(is_canonical_label(label), "{label} must be canonical");
    }
    assert!(!is_canonical_label(""));
    assert!(!is_canonical_label("title"));
    assert!(!is_canonical_label("metadata.title"));
    assert!(!is_canonical_label("doc.table"));
    assert!(!is_canonical_label("acme.task"));
}
