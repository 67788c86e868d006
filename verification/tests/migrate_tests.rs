use githops::config::{CommandEntry, Config, HookConfig};
use githops::hooks::all_hooks;
use githops::migrate::{
    build_revert_script, extract_husky_commands, extract_lefthook_commands, husky_config, is_old_tool_hook,
    lefthook_config, lefthook_config_from_text, migrated_config_text, old_hooks_to_remove, MigrateError,
};
use githops::yaml::YamlNode;

fn s(x: &str) -> YamlNode {
    YamlNode::Str(x.to_string())
}

fn map(pairs: Vec<(YamlNode, YamlNode)>) -> YamlNode {
    YamlNode::Mapping(pairs)
}

fn inline(e: &CommandEntry) -> (&str, &str) {
    match e {
        CommandEntry::Inline(c) => (c.name.as_str(), c.run.as_str()),
        other => panic!("unexpected {:?}", other),
    }
}

#[test]
fn husky_script_lines_become_steps() {
    let script = "#!/usr/bin/env sh\n. \"$(dirname -- \"$0\")/_/husky.sh\"\n\n# lint first\nset -e\n  npm run lint  \nnpx tsc\r\n. \"other.sh\"\n";
    let cmds = extract_husky_commands(script);
    let got: Vec<(&str, &str)> = cmds.iter().map(inline).collect();
    assert_eq!(got, vec![("step-1", "npm run lint"), ("step-2", "npx tsc")]);
}

#[test]
fn husky_old_loader_is_skipped() {
    let cmds = extract_husky_commands(". \"$(dirname \"$0\")/_/husky.sh\"\nyarn test");
    let got: Vec<(&str, &str)> = cmds.iter().map(inline).collect();
    assert_eq!(got, vec![("step-1", "yarn test")]);
}

#[test]
fn husky_config_keeps_hooks_with_commands() {
    let hooks = all_hooks();
    let mut contents: Vec<Option<String>> = vec![None; hooks.len()];
    let pre_commit = hooks.iter().position(|h| h.name == "pre-commit").unwrap();
    let commit_msg = hooks.iter().position(|h| h.name == "commit-msg").unwrap();
    let pre_push = hooks.iter().position(|h| h.name == "pre-push").unwrap();
    contents[pre_commit] = Some("npm test\nnpm run lint\n".into());
    contents[commit_msg] = Some("#!/bin/sh\n# nothing\n".into());
    contents[pre_push] = Some("npm run build".into());
    let import = husky_config(&contents);
    let pc = import.config.hooks.get("pre-commit").unwrap();
    assert!(pc.enabled);
    assert!(!pc.parallel);
    assert_eq!(pc.commands.len(), 2);
    assert!(import.config.hooks.get("commit-msg").is_none());
    assert_eq!(import.config.hooks.get("pre-push").unwrap().commands.len(), 1);
    assert_eq!(import.found, vec![("pre-commit".to_string(), 2), ("pre-push".to_string(), 1)]);
}

#[test]
fn lefthook_commands_with_run_and_env() {
    let section = map(vec![
        (
            s("commands"),
            map(vec![
                (
                    s("lint"),
                    map(vec![
                        (s("run"), s("npm run lint")),
                        (s("env"), map(vec![(s("CI"), s("1")), (s("N"), YamlNode::Number("2".into()))])),
                    ]),
                ),
                (s("empty"), map(vec![(s("glob"), s("*.js"))])),
                (YamlNode::Number("7".into()), map(vec![(s("run"), s("make"))])),
            ]),
        ),
        (s("scripts"), map(vec![])),
    ]);
    let cmds = extract_lefthook_commands(&section);
    assert_eq!(cmds.len(), 2);
    match &cmds[0] {
        CommandEntry::Inline(c) => {
            assert_eq!(c.name, "lint");
            assert_eq!(c.run, "npm run lint");
            assert_eq!(c.env.get("CI").map(|x| x.as_str()), Some("1"));
            assert!(c.env.get("N").is_none());
        }
        other => panic!("unexpected {:?}", other),
    }
    assert_eq!(inline(&cmds[1]), ("step", "make"));
}

#[test]
fn lefthook_config_imports_known_hooks() {
    let raw = map(vec![
        (s("pre-commit"), map(vec![(s("commands"), map(vec![(s("lint"), map(vec![(s("run"), s("eslint"))]))]))])),
        (s("not-a-hook"), map(vec![(s("commands"), map(vec![(s("x"), map(vec![(s("run"), s("x"))]))]))])),
        (s("pre-push"), map(vec![(s("scripts"), map(vec![]))])),
        (s("output"), YamlNode::List(vec![s("meta")])),
    ]);
    let import = lefthook_config(&raw).unwrap();
    assert_eq!(import.config.hooks.get("pre-commit").unwrap().commands.len(), 1);
    assert!(import.config.hooks.get("pre-push").is_none());
    assert_eq!(import.found, vec![("pre-commit".to_string(), 1)]);
    assert_eq!(import.warnings, vec!["pre-push".to_string()]);
}

#[test]
fn lefthook_file_must_be_a_mapping() {
    let err = lefthook_config(&YamlNode::List(vec![])).unwrap_err();
    assert_eq!(err.message(), "Invalid lefthook.yml format");
}

#[test]
fn old_tool_hooks_are_recognised() {
    assert!(is_old_tool_hook("#!/bin/sh\n. \"$(dirname \"$0\")/_/husky.sh\"", "husky"));
    assert!(is_old_tool_hook("# lefthook\ncall_lefthook run pre-commit", "lefthook"));
    assert!(!is_old_tool_hook("#!/bin/sh\n# GITHOPS_MANAGED\n# husky", "husky"));
    assert!(!is_old_tool_hook("husky run", "lefthook"));
    assert!(!is_old_tool_hook("husky run", "other"));
}

#[test]
fn only_configured_old_hooks_are_removed() {
    let hooks = all_hooks();
    let mut config = Config::default();
    config.hooks.pre_commit = Some(HookConfig { enabled: true, parallel: false, commands: vec![] });
    let mut existing: Vec<Option<String>> = vec![None; hooks.len()];
    let pre_commit = hooks.iter().position(|h| h.name == "pre-commit").unwrap();
    let pre_push = hooks.iter().position(|h| h.name == "pre-push").unwrap();
    existing[pre_commit] = Some("husky run pre-commit".into());
    existing[pre_push] = Some("husky run pre-push".into());
    let r = old_hooks_to_remove(&config, &existing, "husky");
    assert!(r[pre_commit]);
    assert!(!r[pre_push]);
    assert_eq!(r.iter().filter(|x| **x).count(), 1);
}

#[test]
fn revert_script_for_husky() {
    let script = build_revert_script("husky");
    assert!(script.starts_with("#!/usr/bin/env bash\n# Generated by `githops migrate --from husky`\n"));
    assert!(script.contains("echo \"Reverting githops migration (husky)...\"\n"));
    assert!(script.contains("rm -f githops.yaml .githops/githops.schema.json\n"));
    assert!(script.ends_with("echo \"Your .husky/ directory was not modified.\"\necho \"To re-activate husky, run:  npx husky install\"\n"));
}

#[test]
fn revert_script_for_unknown_tool_has_empty_notes() {
    let script = build_revert_script("other");
    assert!(script.ends_with("echo \"\"\necho \"\"\necho \"\"\n"));
}

#[test]
fn migrated_file_has_schema_and_note() {
    assert_eq!(
        migrated_config_text("hooks: {}\n"),
        "# yaml-language-server: $schema=.githops/githops.schema.json\n# Migrated by `githops migrate`\nhooks: {}\n"
    );
}

#[test]
fn lefthook_text_is_parsed_then_imported() {
    let text = "pre-commit:\n  commands:\n    lint:\n      run: eslint\n      env:\n        CI: \"1\"\npre-push:\n  scripts:\n    a.sh:\n      runner: bash\n";
    let import = lefthook_config_from_text(text).unwrap();
    let hook = import.config.hooks.get("pre-commit").unwrap();
    assert_eq!(hook.commands.len(), 1);
    assert_eq!(import.found, vec![("pre-commit".to_string(), 1)]);
    assert_eq!(import.warnings, vec!["pre-push".to_string()]);

    let err = lefthook_config_from_text("- just\n- a list\n").unwrap_err();
    assert_eq!(err.message(), "Invalid lefthook.yml format");

    match lefthook_config_from_text("pre-commit: [unclosed") {
        Err(MigrateError::Parse { message }) => assert!(!message.is_empty()),
        other => panic!("unexpected {:?}", other.map(|i| i.found)),
    }
}

#[test]
fn lefthook_parallel_flag_is_kept() {
    let text = "pre-commit:\n  parallel: true\n  commands:\n    lint:\n      run: npm run lint\n    typecheck:\n      run: npm run typecheck\npre-push:\n  commands:\n    test:\n      run: npm test\n";
    let import = lefthook_config_from_text(text).unwrap();
    let pre_commit = import.config.hooks.get("pre-commit").unwrap();
    assert!(pre_commit.enabled);
    assert!(pre_commit.parallel);
    assert_eq!(pre_commit.commands.len(), 2);
    match &pre_commit.commands[0] {
        CommandEntry::Inline(c) => {
            assert_eq!(c.name, "lint");
            assert_eq!(c.run, "npm run lint");
        }
        other => panic!("unexpected {:?}", other),
    }
    match &pre_commit.commands[1] {
        CommandEntry::Inline(c) => {
            assert_eq!(c.name, "typecheck");
            assert_eq!(c.run, "npm run typecheck");
        }
        other => panic!("unexpected {:?}", other),
    }
    let pre_push = import.config.hooks.get("pre-push").unwrap();
    assert!(pre_push.enabled);
    assert!(!pre_push.parallel);
    assert_eq!(pre_push.commands.len(), 1);
}
