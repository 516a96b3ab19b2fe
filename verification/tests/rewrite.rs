//! Which spawn calls are rewritten.

use detector::monitor::{spawn_blocking_monitored, spawn_monitored, TaskRegistry};
use detector::rewrite::{
    collect_from_use_tree, collect_rewrite_aliases, RewriteAliases, Rewritten, SpawnRewriter,
    SpawnTarget, Stmt, UseTree,
};

fn name(ident: &str) -> UseTree {
    UseTree::Name(ident.to_string())
}

fn rename(ident: &str, rename: &str) -> UseTree {
    UseTree::Rename(ident.to_string(), rename.to_string())
}

fn behind(tree: UseTree) -> UseTree {
    UseTree::Path(Box::new(tree))
}

fn rewriter(stmts: &[Stmt]) -> SpawnRewriter {
    SpawnRewriter {
        aliases: collect_rewrite_aliases(stmts),
    }
}

fn call(rewriter: &SpawnRewriter, path: &[&str], args: usize) -> Option<(SpawnTarget, String)> {
    let segments: Vec<String> = path.iter().map(|s| s.to_string()).collect();
    rewriter
        .rewrite_call(&segments, args)
        .map(|Rewritten { target, label }| (target, label))
}

#[test]
fn default_names_are_always_known() {
    let aliases = collect_rewrite_aliases(&[Stmt::Other]);
    assert_eq!(aliases.spawn, vec!["spawn"]);
    assert_eq!(aliases.spawn_blocking, vec!["spawn_blocking"]);
}

#[test]
fn aliases_come_from_use_items_in_order() {
    // use tokio::{spawn as go, task::{spawn_blocking as block, spawn}, time::*};
    // use tokio::spawn as run;
    let stmts = [
        Stmt::Use(behind(UseTree::Group(vec![
            rename("spawn", "go"),
            behind(UseTree::Group(vec![
                rename("spawn_blocking", "block"),
                name("spawn"),
            ])),
            behind(UseTree::Glob),
        ]))),
        Stmt::Other,
        Stmt::Use(behind(rename("spawn", "run"))),
    ];
    let aliases = collect_rewrite_aliases(&stmts);
    assert_eq!(aliases.spawn, vec!["go", "spawn", "run"]);
    assert_eq!(aliases.spawn_blocking, vec!["block", "spawn_blocking"]);
}

#[test]
fn other_names_are_no_aliases() {
    let mut aliases = RewriteAliases::default();
    collect_from_use_tree(&behind(name("sleep")), &mut aliases);
    collect_from_use_tree(&behind(rename("sleep", "spawn")), &mut aliases);
    collect_from_use_tree(&behind(UseTree::Glob), &mut aliases);
    assert!(aliases.spawn.is_empty());
    assert!(aliases.spawn_blocking.is_empty());
    collect_from_use_tree(&name("spawn_blocking"), &mut aliases);
    assert_eq!(aliases.spawn_blocking, vec!["spawn_blocking"]);
}

#[test]
fn tokio_paths_are_rewritten() {
    let r = rewriter(&[]);
    assert_eq!(
        call(&r, &["tokio", "spawn"], 1),
        Some((SpawnTarget::Task, "tokio::spawn".to_string()))
    );
    assert_eq!(
        call(&r, &["tokio", "task", "spawn_blocking"], 1),
        Some((SpawnTarget::Blocking, "tokio::task::spawn_blocking".to_string()))
    );
}

#[test]
fn aliased_calls_are_rewritten_under_their_name() {
    let r = rewriter(&[
        Stmt::Use(behind(rename("spawn", "go"))),
        Stmt::Use(behind(rename("spawn_blocking", "block"))),
    ]);
    assert_eq!(call(&r, &["go"], 1), Some((SpawnTarget::Task, "go".to_string())));
    assert_eq!(call(&r, &["spawn"], 1), Some((SpawnTarget::Task, "spawn".to_string())));
    assert_eq!(call(&r, &["block"], 1), Some((SpawnTarget::Blocking, "block".to_string())));
    assert_eq!(
        call(&r, &["spawn_blocking"], 1),
        Some((SpawnTarget::Blocking, "spawn_blocking".to_string()))
    );
}

#[test]
fn a_name_for_both_is_a_spawn() {
    let r = rewriter(&[
        Stmt::Use(behind(rename("spawn_blocking", "go"))),
        Stmt::Use(behind(rename("spawn", "go"))),
    ]);
    assert_eq!(call(&r, &["go"], 1), Some((SpawnTarget::Task, "go".to_string())));
}

#[test]
fn other_calls_stay() {
    let r = rewriter(&[]);
    assert_eq!(call(&r, &["spawn"], 0), None);
    assert_eq!(call(&r, &["spawn"], 2), None);
    assert_eq!(call(&r, &["tokio", "spawn"], 2), None);
    assert_eq!(call(&r, &["sleep"], 1), None);
    assert_eq!(call(&r, &["task", "spawn"], 1), None);
    assert_eq!(call(&r, &["tokio", "task", "spawn"], 1), None);
    assert_eq!(call(&r, &["tokio", "spawn_blocking"], 1), None);
    assert_eq!(call(&r, &["std", "thread", "spawn"], 1), None);
    assert_eq!(call(&r, &["tokio"], 1), None);
    assert_eq!(call(&r, &[], 1), None);
}

#[test]
fn macros_tests_test_spawn_blocking_monitored_registers() {
    let mut registry = TaskRegistry::new();
    let rewriter = rewriter(&[Stmt::Other, Stmt::Other]);
    let (target, label) = call(&rewriter, &["tokio", "task", "spawn_blocking"], 1).unwrap();
    assert_eq!(target, SpawnTarget::Blocking);
    let id = spawn_blocking_monitored(&mut registry, label, "t.rs", 53, 22, 0);
    let snap = registry.snapshot();
    registry.touch_at(id, 0);
    registry.complete(id, 20);

    // registry should have recorded a task
    assert_eq!(snap.len(), 1);
    assert_eq!(snap[0].name, "tokio::task::spawn_blocking");
    assert!(snap[0].is_blocking);
    assert!(registry.snapshot().is_empty());
}

#[test]
fn test_spawn_monitored_registers() {
    let mut registry = TaskRegistry::new();
    let rewriter = rewriter(&[Stmt::Other, Stmt::Other]);
    let (target, label) = call(&rewriter, &["tokio", "spawn"], 1).unwrap();
    assert_eq!(target, SpawnTarget::Task);
    let mut task = spawn_monitored(&mut registry, label, "t.rs", 74, 22, "ok", 0);
    let snap = registry.snapshot();
    task.begin_poll(&mut registry, 20);
    task.finish_poll(&mut registry, true, 20);
    assert_eq!(task.inner, "ok");

    // registry should have recorded a task
    assert_eq!(snap.len(), 1);
    assert_eq!(snap[0].name, "tokio::spawn");
    assert!(!snap[0].is_blocking);
    assert!(registry.snapshot().is_empty());
}
