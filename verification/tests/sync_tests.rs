use githops::config::{Command, CommandEntry, Config, HookConfig};
use githops::hooks::{all_hooks, find_hook, HookCategory};
use githops::namemap::NameMap;
use githops::sync_hooks::{
    build_hook_script, configured_hook_names, managed_files, plan_sync, sync_summary, HookAction, SyncPlan,
    GITHOPS_MARKER,
};

fn lint(test: bool) -> CommandEntry {
    CommandEntry::Inline(Command {
        name: "lint".into(),
        run: "echo lint".into(),
        depends: vec![],
        env: NameMap::new(),
        test,
        cache: None,
    })
}

fn config_with_pre_commit(enabled: bool, test: bool) -> Config {
    let mut config = Config::default();
    config.hooks.pre_commit = Some(HookConfig { enabled, parallel: false, commands: vec![lint(test)] });
    config
}

fn position(name: &str) -> usize {
    all_hooks().iter().position(|h| h.name == name).unwrap()
}

fn no_files() -> Vec<Option<String>> {
    vec![None; all_hooks().len()]
}

/// What the files hold once the plan was carried out.
fn apply(existing: &[Option<String>], plan: &SyncPlan) -> Vec<Option<String>> {
    existing
        .iter()
        .zip(plan.actions.iter())
        .map(|(e, a)| match a {
            HookAction::Install { script, .. } => Some(script.clone()),
            HookAction::Remove => None,
            _ => e.clone(),
        })
        .collect()
}

#[test]
fn test_build_hook_script_contains_marker() {
    let script = build_hook_script("pre-commit", 3);
    assert!(script.contains("GITHOPS_MANAGED"));
}

#[test]
fn test_build_hook_script_contains_hook_name() {
    let script = build_hook_script("commit-msg", 1);
    assert!(script.contains("commit-msg"));
}

#[test]
fn test_build_hook_script_has_shebang() {
    let script = build_hook_script("pre-push", 2);
    assert!(script.starts_with("#!/"));
}

#[test]
fn test_build_hook_script_calls_githops_check() {
    let script = build_hook_script("pre-commit", 1);
    assert!(script.contains("githops check"));
}

#[test]
fn build_hook_script_exact_text() {
    let script = build_hook_script("pre-push", 12);
    assert_eq!(
        script,
        "#!/bin/sh\n# GITHOPS_MANAGED\n# Hook: pre-push\n# Managed by githops — do not edit manually.\n# Run `githops sync` to regenerate.\n# Commands configured: 12\n\nexec githops check pre-push \"$@\"\n"
    );
}

#[test]
fn test_sync_creates_hook_files() {
    let config = config_with_pre_commit(true, false);
    let plan = plan_sync(&config, &no_files(), false);
    assert_eq!(plan.installed, 1);
    assert_eq!(plan.skipped, 0);
    let i = position("pre-commit");
    assert!(matches!(plan.actions[i], HookAction::Install { forced: false, .. }));
}

#[test]
fn test_sync_hook_script_content_is_correct() {
    let config = config_with_pre_commit(true, false);
    let plan = plan_sync(&config, &no_files(), false);
    let after = apply(&no_files(), &plan);
    let content = after[position("pre-commit")].clone().unwrap();
    assert!(content.contains("GITHOPS_MANAGED"));
    assert!(content.contains("pre-commit"));
}

#[test]
fn test_sync_skips_disabled_hook() {
    let config = config_with_pre_commit(false, false);
    let plan = plan_sync(&config, &no_files(), false);
    assert_eq!(plan.installed, 0);
    assert!(apply(&no_files(), &plan)[position("pre-commit")].is_none());
}

#[test]
fn test_sync_skips_test_only_commands() {
    let config = config_with_pre_commit(true, true);
    let plan = plan_sync(&config, &no_files(), false);
    assert_eq!(plan.installed, 0);
}

#[test]
fn test_sync_does_not_overwrite_unmanaged_hook() {
    let mut files = no_files();
    files[position("pre-commit")] = Some("#!/bin/sh\necho manual".into());
    let config = config_with_pre_commit(true, false);
    let plan = plan_sync(&config, &files, false);
    assert_eq!(plan.skipped, 1);
    let after = apply(&files, &plan);
    assert!(after[position("pre-commit")].clone().unwrap().contains("manual"));
}

#[test]
fn test_sync_force_overwrites_unmanaged_hook() {
    let mut files = no_files();
    files[position("pre-commit")] = Some("#!/bin/sh\necho manual".into());
    let config = config_with_pre_commit(true, false);
    let plan = plan_sync(&config, &files, true);
    assert_eq!(plan.installed, 1);
    assert!(matches!(plan.actions[position("pre-commit")], HookAction::Install { forced: true, .. }));
    let after = apply(&files, &plan);
    assert!(after[position("pre-commit")].clone().unwrap().contains("GITHOPS_MANAGED"));
}

#[test]
fn test_sync_removes_obsolete_managed_hook() {
    let mut files = no_files();
    files[position("pre-commit")] =
        Some("#!/bin/sh\n# GITHOPS_MANAGED\nexec githops check pre-commit \"$@\"\n".into());
    let config = Config::default();
    let plan = plan_sync(&config, &files, false);
    assert!(matches!(plan.actions[position("pre-commit")], HookAction::Remove));
    assert!(apply(&files, &plan)[position("pre-commit")].is_none());
}

#[test]
fn test_sync_is_idempotent() {
    let config = config_with_pre_commit(true, false);
    let once = apply(&no_files(), &plan_sync(&config, &no_files(), false));
    let twice = apply(&once, &plan_sync(&config, &once, false));
    assert_eq!(once, twice);
}

#[test]
fn unconfigured_unmanaged_files_are_kept() {
    let mut files = no_files();
    files[position("pre-push")] = Some("#!/bin/sh\necho mine".into());
    let plan = plan_sync(&Config::default(), &files, true);
    assert!(matches!(plan.actions[position("pre-push")], HookAction::Keep));
}

#[test]
fn script_counts_only_active_commands() {
    let mut config = Config::default();
    config.hooks.pre_push = Some(HookConfig { enabled: true, parallel: false, commands: vec![lint(false), lint(true), lint(false)] });
    let plan = plan_sync(&config, &no_files(), false);
    match &plan.actions[position("pre-push")] {
        HookAction::Install { script, .. } => assert_eq!(script, &build_hook_script("pre-push", 2)),
        other => panic!("unexpected {:?}", other),
    }
}

#[test]
fn sync_summary_mentions_skipped_hooks() {
    assert_eq!(sync_summary(3, 0), "Synced 3 hook(s)");
    assert_eq!(sync_summary(1, 2), "Synced 1 hook(s) (2 skipped)");
}

#[test]
fn destroy_removes_only_managed_files() {
    let files = vec![Some(format!("x\n{}\n", GITHOPS_MARKER)), Some("mine".to_string()), None];
    assert_eq!(managed_files(&files), vec![true, false, false]);
}

#[test]
fn configured_names_follow_listing_order() {
    let mut config = Config::default();
    config.hooks.pre_push = Some(HookConfig { enabled: true, parallel: false, commands: vec![] });
    config.hooks.pre_commit = Some(HookConfig { enabled: false, parallel: false, commands: vec![] });
    assert_eq!(configured_hook_names(&config), vec!["pre-commit", "pre-push"]);
}

#[test]
fn hook_listing_and_lookup() {
    let hooks = all_hooks();
    assert_eq!(hooks.len(), 28);
    assert_eq!(hooks[0].name, "pre-commit");
    assert_eq!(hooks[27].name, "p4-pre-submit");
    let h = find_hook("update").unwrap();
    assert_eq!(h.description, "Server-side: runs once per ref being updated.");
    assert_eq!(h.category, HookCategory::Receive);
    assert_eq!(h.category.label(), "Receive (server-side)");
    assert!(find_hook("pre-commmit").is_none());
    assert_eq!(HookCategory::Email.label(), "Email / Patch");
}
