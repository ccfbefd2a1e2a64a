use lex_core::includes::resolver::{
    admit_invocation, enter_invocation, leave_invocation, record_resolved, ResolveKey,
};
use lex_core::includes::{IncludeError, ResolveConfig};
use lex_core::location::{default_location, Position};
use std::path::PathBuf;

fn key(label: &str, origin: Option<&str>, line: usize) -> ResolveKey {
    ResolveKey {
        label: label.to_string(),
        origin: origin.map(PathBuf::from),
        start: Position::new(line, 0),
    }
}

fn config(max_depth: usize, max_total: usize) -> ResolveConfig {
    let mut c = ResolveConfig::with_root(PathBuf::from("/repo"));
    c.max_depth = max_depth;
    c.max_total_includes = max_total;
    c
}

#[test]
fn repeated_key_is_a_cycle_naming_the_chain() {
    let chain = vec![key("lex.include", Some("/repo/a.lex"), 1), key("lex.include", None, 4)];
    let site = default_location();
    let r = admit_invocation(&key("lex.include", None, 4), &chain, &site, 0, 0, &config(8, 100));
    match r {
        Err(IncludeError::Cycle { path, chain, .. }) => {
            assert_eq!(path, PathBuf::new());
            assert_eq!(chain, vec![PathBuf::from("/repo/a.lex"), PathBuf::new()]);
        }
        other => panic!("expected Cycle, got {other:?}"),
    }
}

#[test]
fn same_label_elsewhere_is_not_a_cycle() {
    let chain = vec![key("lex.include", Some("/repo/a.lex"), 1)];
    let site = default_location();
    let r = admit_invocation(&key("lex.include", Some("/repo/a.lex"), 2), &chain, &site, 1, 0, &config(8, 100));
    assert!(r.is_ok());
}

#[test]
fn depth_limit_is_capped_by_the_kernel_backstop() {
    let site = default_location();
    let r = admit_invocation(&key("x", None, 0), &Vec::new(), &site, 32, 0, &config(100, 1000));
    assert!(matches!(r, Err(IncludeError::DepthExceeded { limit: 32, .. })));
    let r = admit_invocation(&key("x", None, 0), &Vec::new(), &site, 8, 0, &config(8, 1000));
    assert!(matches!(r, Err(IncludeError::DepthExceeded { limit: 8, .. })));
    let r = admit_invocation(&key("x", None, 0), &Vec::new(), &site, 7, 0, &config(8, 1000));
    assert!(r.is_ok());
}

#[test]
fn total_limit_is_checked_after_depth() {
    let site = default_location();
    let r = admit_invocation(&key("x", None, 0), &Vec::new(), &site, 0, 5, &config(8, 5));
    assert!(matches!(r, Err(IncludeError::TotalIncludesExceeded { limit: 5, .. })));
    let r = admit_invocation(&key("x", None, 0), &Vec::new(), &site, 9, 5, &config(8, 5));
    assert!(matches!(r, Err(IncludeError::DepthExceeded { .. })));
}

#[test]
fn entering_and_leaving_restores_chain_and_depth() {
    let mut chain = vec![key("lex.include", None, 1)];
    let mut depth: usize = 3;
    let saved = enter_invocation(&mut chain, &mut depth, key("lex.include", Some("/repo/b.lex"), 7));
    assert_eq!(saved, 3);
    assert_eq!(depth, 4);
    assert_eq!(chain.len(), 2);
    assert_eq!(chain[1].origin, Some(PathBuf::from("/repo/b.lex")));
    leave_invocation(&mut chain, &mut depth, saved);
    assert_eq!(depth, 3);
    assert_eq!(chain.len(), 1);
    let mut total: usize = 9;
    record_resolved(&mut total);
    assert_eq!(total, 10);
}
