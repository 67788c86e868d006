use githops::config::{
    Command, CommandEntry, Config, DefinitionEntry, HookConfig, Hooks, IncludeEntry, IncludeError, IncludeRef,
    IncludeType, LocalInclude, RefEntry, CONFIG_FILE, SCHEMA_FILE,
};
use githops::config::{config_file_text, needed_includes, resolve_include_entry, load_include_document, include_doc_text, IncludeDoc, GlobalCache};
use githops::check::validate_depends_pub;
use githops::document::{navigate, DocNode};
use githops::namemap::NameMap;

fn command(name: &str, run: &str) -> Command {
    Command {
        name: name.into(),
        run: run.into(),
        depends: vec![],
        env: NameMap::new(),
        test: false,
        cache: None,
    }
}

fn include_ref(include_ref: &str, run: &str, name: Option<&str>) -> IncludeRef {
    IncludeRef {
        include_ref: include_ref.into(),
        run: run.into(),
        args: None,
        env: NameMap::new(),
        name: name.map(|n| n.to_string()),
    }
}

fn local(path: &str, file_type: IncludeType, ref_name: &str) -> IncludeEntry {
    IncludeEntry::Local(LocalInclude { path: path.into(), file_type, ref_name: ref_name.into() })
}

fn json(text: &str) -> DocNode {
    match load_include_document(text, &IncludeType::Json, "doc.json").unwrap() {
        IncludeDoc::Tree(d) => d,
        IncludeDoc::Yaml(_) => panic!("a JSON document parses to a tree"),
    }
}

fn toml(text: &str) -> DocNode {
    match load_include_document(text, &IncludeType::Toml, "doc.toml").unwrap() {
        IncludeDoc::Tree(d) => d,
        IncludeDoc::Yaml(_) => panic!("a TOML document parses to a tree"),
    }
}

fn yaml(text: &str) -> IncludeDoc {
    load_include_document(text, &IncludeType::Yaml, "doc.yaml").unwrap()
}

#[test]
fn test_include_entry_ref_name_accessor() {
    let local = IncludeEntry::Local(LocalInclude {
        path: "pkg.json".into(),
        file_type: IncludeType::Json,
        ref_name: "mypkg".into(),
    });
    assert_eq!(local.ref_name(), "mypkg");
    assert_eq!(local.path(), "pkg.json");
    assert!(matches!(local.file_type(), IncludeType::Json));
}

#[test]
fn test_resolved_commands_inline_only() {
    let hook = HookConfig {
        enabled: true,
        parallel: false,
        commands: vec![CommandEntry::Inline(command("lint", "echo lint"))],
    };
    let resolved = hook.resolved_commands(&NameMap::new());
    assert_eq!(resolved.len(), 1);
    assert_eq!(resolved[0].name, "lint");
}

fn lint_definition() -> NameMap<DefinitionEntry> {
    let mut defs = NameMap::new();
    defs.insert("lint".to_string(), DefinitionEntry::Single(command("lint", "npx eslint .")));
    defs
}

#[test]
fn test_resolved_commands_ref_expansion() {
    let defs = lint_definition();
    let hook = HookConfig {
        enabled: true,
        parallel: false,
        commands: vec![CommandEntry::Ref(RefEntry { target: "lint".into(), args: None, name: None })],
    };
    let resolved = hook.resolved_commands(&defs);
    assert_eq!(resolved.len(), 1);
    assert_eq!(resolved[0].run, "npx eslint .");
}

#[test]
fn test_resolved_commands_ref_with_args() {
    let defs = lint_definition();
    let hook = HookConfig {
        enabled: true,
        parallel: false,
        commands: vec![CommandEntry::Ref(RefEntry {
            target: "lint".into(),
            args: Some("--fix".into()),
            name: None,
        })],
    };
    let resolved = hook.resolved_commands(&defs);
    assert_eq!(resolved[0].run, "npx eslint . --fix");
}

#[test]
fn test_resolved_commands_ref_with_name_override() {
    let defs = lint_definition();
    let hook = HookConfig {
        enabled: true,
        parallel: false,
        commands: vec![CommandEntry::Ref(RefEntry {
            target: "lint".into(),
            args: None,
            name: Some("ESLint (fix)".into()),
        })],
    };
    let resolved = hook.resolved_commands(&defs);
    assert_eq!(resolved[0].name, "ESLint (fix)");
}

#[test]
fn test_resolved_commands_list_definition() {
    let mut defs = NameMap::new();
    defs.insert(
        "quality".to_string(),
        DefinitionEntry::List(vec![command("lint", "echo lint"), command("test", "echo test")]),
    );
    let hook = HookConfig {
        enabled: true,
        parallel: false,
        commands: vec![CommandEntry::Ref(RefEntry { target: "quality".into(), args: None, name: None })],
    };
    let resolved = hook.resolved_commands(&defs);
    assert_eq!(resolved.len(), 2);
}

#[test]
fn test_resolved_commands_skips_include_entries() {
    let hook = HookConfig {
        enabled: true,
        parallel: false,
        commands: vec![
            CommandEntry::Include(include_ref("pkg", "scripts.lint", None)),
            CommandEntry::Inline(command("fmt", "echo fmt")),
        ],
    };
    let resolved = hook.resolved_commands(&NameMap::new());
    assert_eq!(resolved.len(), 1);
    assert_eq!(resolved[0].name, "fmt");
}

#[test]
fn test_resolved_commands_with_includes_local() {
    let includes = vec![local("pkg.json", IncludeType::Json, "pkg")];
    let loaded = vec![Ok("{\"scripts\": {\"lint\": \"eslint . --ext .ts\"}}\n".to_string())];
    let hook = HookConfig {
        enabled: true,
        parallel: false,
        commands: vec![CommandEntry::Include(include_ref("pkg", "scripts.lint", None))],
    };
    let resolved = hook.resolved_commands_with_includes(&NameMap::new(), &includes, &loaded).unwrap();
    assert_eq!(resolved.len(), 1);
    assert_eq!(resolved[0].name, "lint");
    assert_eq!(resolved[0].run, "eslint . --ext .ts");
}

#[test]
fn test_resolved_commands_with_includes_name_override() {
    let includes = vec![local("pkg.json", IncludeType::Json, "pkg")];
    let loaded = vec![Ok("{\"scripts\": {\"lint\": \"eslint .\"}}\n".to_string())];
    let hook = HookConfig {
        enabled: true,
        parallel: false,
        commands: vec![CommandEntry::Include(include_ref("pkg", "scripts.lint", Some("ESLint")))],
    };
    let resolved = hook.resolved_commands_with_includes(&NameMap::new(), &includes, &loaded).unwrap();
    assert_eq!(resolved[0].name, "ESLint");
}

#[test]
fn test_resolved_commands_with_includes_unknown_ref_errors() {
    let includes: Vec<IncludeEntry> = vec![];
    let hook = HookConfig {
        enabled: true,
        parallel: false,
        commands: vec![CommandEntry::Include(include_ref("nonexistent", "scripts.lint", None))],
    };
    let result = hook.resolved_commands_with_includes(&NameMap::new(), &includes, &[]);
    assert!(result.is_err());
    let msg = result.unwrap_err().message();
    assert!(msg.contains("nonexistent"));
}

#[test]
fn test_navigate_json_simple() {
    let doc = json(r#"{"scripts": {"lint": "eslint ."}}"#);
    let result = navigate(&doc, "scripts.lint").unwrap();
    assert_eq!(result, "eslint .");
}

#[test]
fn test_navigate_json_top_level() {
    let doc = json(r#"{"name": "myapp"}"#);
    assert_eq!(navigate(&doc, "name").unwrap(), "myapp");
}

#[test]
fn test_navigate_json_missing_key() {
    let doc = json(r#"{"scripts": {}}"#);
    assert!(navigate(&doc, "scripts.lint").is_err());
}

#[test]
fn test_navigate_json_deeply_nested() {
    let doc = json(r#"{"a": {"b": {"c": "deep"}}}"#);
    assert_eq!(navigate(&doc, "a.b.c").unwrap(), "deep");
}

#[test]
fn test_navigate_toml_simple() {
    let doc = toml("[scripts]\nlint = \"cargo clippy\"");
    assert_eq!(navigate(&doc, "scripts.lint").unwrap(), "cargo clippy");
}

#[test]
fn test_navigate_toml_missing_key() {
    let doc = toml("[scripts]\n");
    assert!(navigate(&doc, "scripts.missing").is_err());
}

#[test]
fn test_navigate_yaml_simple() {
    let doc = yaml("scripts:\n  lint: \"npm run lint\"");
    assert_eq!(include_doc_text(&doc, "scripts.lint").unwrap(), "npm run lint");
}

#[test]
fn test_navigate_yaml_missing_key() {
    let doc = yaml("scripts: {}");
    assert!(include_doc_text(&doc, "scripts.missing").is_none());
}

#[test]
fn navigate_reports_the_first_missing_key() {
    let doc = json(r#"{"a": {"b": "x"}}"#);
    let err = navigate(&doc, "a.c.d").unwrap_err();
    assert_eq!(err.key, "c");
    assert_eq!(err.message(), "Key 'c' not found");
}

#[test]
fn navigate_renders_non_string_values() {
    let doc = json(r#"{"n": 3, "flags": {"x": true}}"#);
    assert_eq!(navigate(&doc, "n").unwrap(), "3");
    assert_eq!(navigate(&doc, "flags").unwrap(), r#"{"x":true}"#);
}

#[test]
fn test_resolve_include_local_json() {
    let includes = vec![local("package.json", IncludeType::Json, "pkg")];
    let loaded = vec![Ok(r#"{"scripts": {"test": "jest"}}"#.to_string())];
    let inc_ref = include_ref("pkg", "scripts.test", None);
    let cmd = resolve_include_entry(&inc_ref, &includes, &loaded).unwrap();
    assert_eq!(cmd.run, "jest");
    assert_eq!(cmd.name, "test");
}

#[test]
fn test_resolve_include_local_toml() {
    let includes = vec![local("Cargo.toml", IncludeType::Toml, "cargo")];
    let loaded = vec![Ok("[scripts]\nbuild = \"cargo build --release\"".to_string())];
    let inc_ref = include_ref("cargo", "scripts.build", None);
    let cmd = resolve_include_entry(&inc_ref, &includes, &loaded).unwrap();
    assert_eq!(cmd.run, "cargo build --release");
}

#[test]
fn test_resolve_include_local_yaml() {
    let includes = vec![local("scripts.yaml", IncludeType::Yaml, "scripts")];
    let loaded = vec![Ok("scripts:\n  lint: \"eslint .\"\n".to_string())];
    let inc_ref = include_ref("scripts", "scripts.lint", None);
    let cmd = resolve_include_entry(&inc_ref, &includes, &loaded).unwrap();
    assert_eq!(cmd.run, "eslint .");
}

#[test]
fn test_resolve_include_missing_ref() {
    let includes: Vec<IncludeEntry> = vec![];
    let inc_ref = include_ref("pkg", "scripts.lint", None);
    let result = resolve_include_entry(&inc_ref, &includes, &[]);
    assert!(result.is_err());
    assert!(result.unwrap_err().message().contains("pkg"));
}

#[test]
fn test_resolve_include_missing_file() {
    let includes = vec![local("/nonexistent/path/file.json", IncludeType::Json, "pkg")];
    let loaded = vec![Err("Failed to read include file '/nonexistent/path/file.json'".to_string())];
    let inc_ref = include_ref("pkg", "scripts.lint", None);
    assert!(resolve_include_entry(&inc_ref, &includes, &loaded).is_err());
}

#[test]
fn test_resolve_include_name_defaults_to_last_segment() {
    let includes = vec![local("package.json", IncludeType::Json, "pkg")];
    let loaded = vec![Ok(r#"{"scripts": {"mytest": "jest --coverage"}}"#.to_string())];
    let inc_ref = include_ref("pkg", "scripts.mytest", None);
    let cmd = resolve_include_entry(&inc_ref, &includes, &loaded).unwrap();
    assert_eq!(cmd.name, "mytest");
}

#[test]
fn resolve_include_appends_non_empty_args_and_keeps_env() {
    let includes = vec![local("package.json", IncludeType::Json, "pkg")];
    let loaded = vec![Ok(r#"{"scripts": {"lint": "eslint ."}}"#.to_string())];
    let mut inc_ref = include_ref("pkg", "scripts.lint", None);
    inc_ref.args = Some("--fix".into());
    inc_ref.env.insert("CI".into(), "1".into());
    let cmd = resolve_include_entry(&inc_ref, &includes, &loaded).unwrap();
    assert_eq!(cmd.run, "eslint . --fix");
    assert_eq!(cmd.env.get("CI").map(|s| s.as_str()), Some("1"));
    assert!(!cmd.test);
    assert!(cmd.depends.is_empty());

    inc_ref.args = Some(String::new());
    let cmd = resolve_include_entry(&inc_ref, &includes, &loaded).unwrap();
    assert_eq!(cmd.run, "eslint .");
}

#[test]
fn resolve_include_errors_carry_their_messages() {
    let includes = vec![local("package.json", IncludeType::Json, "pkg")];
    let inc_ref = include_ref("pkg", "scripts.missing", None);
    let loaded = vec![Ok(r#"{"scripts": {}}"#.to_string())];
    match resolve_include_entry(&inc_ref, &includes, &loaded) {
        Err(e @ IncludeError::PathNotFound { .. }) => {
            assert_eq!(e.message(), "Path 'scripts.missing' not found in 'package.json'");
        }
        other => panic!("unexpected {:?}", other),
    }
    let loaded = vec![Err("Failed to parse JSON from 'package.json'".to_string())];
    match resolve_include_entry(&inc_ref, &includes, &loaded) {
        Err(e @ IncludeError::Load { .. }) => assert_eq!(e.message(), "Failed to parse JSON from 'package.json'"),
        other => panic!("unexpected {:?}", other),
    }
    let err = resolve_include_entry(&include_ref("other", "x", None), &includes, &loaded).unwrap_err();
    assert_eq!(err.message(), "Include 'other' not defined in the `include:` section.");
}

#[test]
fn needed_includes_marks_only_referenced_includes() {
    let includes = vec![
        local("a.json", IncludeType::Json, "a"),
        local("b.json", IncludeType::Json, "b"),
    ];
    let hook = HookConfig {
        enabled: true,
        parallel: false,
        commands: vec![
            CommandEntry::Inline(command("fmt", "echo fmt")),
            CommandEntry::Include(include_ref("b", "scripts.lint", None)),
            CommandEntry::Include(include_ref("zzz", "scripts.lint", None)),
        ],
    };
    assert_eq!(needed_includes(&hook, &includes), vec![false, true]);
}

#[test]
fn test_validate_depends_valid() {
    let mut b = command("b", "echo b");
    b.depends = vec!["a".into()];
    let cmds = vec![command("a", "echo a"), b];
    assert!(validate_depends_pub(&cmds).is_ok());
}

#[test]
fn test_validate_depends_unknown_dep() {
    let mut b = command("b", "echo b");
    b.depends = vec!["nonexistent".into()];
    let cmds = vec![b];
    let result = validate_depends_pub(&cmds);
    assert!(result.is_err());
    assert!(result.unwrap_err().message().contains("nonexistent"));
}

#[test]
fn test_validate_depends_self_reference() {
    let mut a = command("a", "echo a");
    a.depends = vec!["a".into()];
    let cmds = vec![a];
    let result = validate_depends_pub(&cmds);
    assert!(result.is_err());
    assert!(result.unwrap_err().message().contains("itself"));
}

#[test]
fn test_validate_depends_empty() {
    assert!(validate_depends_pub(&[]).is_ok());
}

#[test]
fn validate_depends_messages_are_exact() {
    let mut b = command("b", "echo b");
    b.depends = vec!["a".into(), "nope".into()];
    let err = validate_depends_pub(&[b]).unwrap_err();
    assert_eq!(err.message(), "Command 'b' depends on 'a', which is not defined in this hook.");
    let mut a = command("a", "echo a");
    a.depends = vec!["a".into()];
    let err = validate_depends_pub(&[a]).unwrap_err();
    assert_eq!(err.message(), "Command 'a' depends on itself.");
}

#[test]
fn hooks_set_then_get_gives_back_the_hook() {
    let mut hooks = Hooks::default();
    let hook = HookConfig { enabled: false, parallel: true, commands: vec![] };
    hooks.set("pre-push", hook);
    let got = hooks.get("pre-push").unwrap();
    assert!(!got.enabled);
    assert!(got.parallel);
    assert!(hooks.get("pre-commit").is_none());
    hooks.set("not-a-hook", HookConfig { enabled: true, parallel: false, commands: vec![] });
    assert!(hooks.get("not-a-hook").is_none());
    hooks.remove("pre-push");
    assert!(hooks.get("pre-push").is_none());
}

#[test]
fn cache_settings_defaults() {
    let c = GlobalCache::default();
    assert!(c.is_unconfigured());
    assert_eq!(c.cache_dir(), ".githops/cache");
    let c = GlobalCache { enabled: true, dir: Some("tmp/c".into()) };
    assert!(!c.is_unconfigured());
    assert_eq!(c.cache_dir(), "tmp/c");
}

#[test]
fn config_file_text_keeps_or_adds_the_schema_line() {
    assert_eq!(CONFIG_FILE, "githops.yaml");
    let fresh = config_file_text("hooks: {}\n", None);
    assert_eq!(fresh, format!("# yaml-language-server: $schema={}\nhooks: {{}}\n", SCHEMA_FILE));
    let kept = config_file_text("hooks: {}\n", Some("# yaml-language-server: $schema=x.json\nold: 1\n"));
    assert_eq!(kept, "# yaml-language-server: $schema=x.json\nhooks: {}\n");
    let replaced = config_file_text("hooks: {}\n", Some("old: 1\n"));
    assert_eq!(replaced, "hooks: {}\n");
}

#[test]
fn default_config_is_empty() {
    let c = Config::default();
    assert!(c.version.is_empty());
    assert!(c.includes.is_empty());
    assert!(c.definitions.is_empty());
    assert!(c.hooks.get("pre-commit").is_none());
    assert!(!c.cache.enabled);
}

#[test]
fn resolving_without_includes_matches_plain_resolution() {
    let defs = lint_definition();
    let hook = HookConfig {
        enabled: true,
        parallel: false,
        commands: vec![
            CommandEntry::Inline(command("fmt", "echo fmt")),
            CommandEntry::Ref(RefEntry { target: "lint".into(), args: Some("--fix".into()), name: None }),
            CommandEntry::Ref(RefEntry { target: "missing".into(), args: None, name: None }),
        ],
    };
    let plain: Vec<(String, String)> = hook.resolved_commands(&defs).into_iter().map(|c| (c.name, c.run)).collect();
    let with: Vec<(String, String)> = hook
        .resolved_commands_with_includes(&defs, &[], &[])
        .unwrap()
        .into_iter()
        .map(|c| (c.name, c.run))
        .collect();
    assert_eq!(plain, with);
    assert_eq!(plain, vec![("fmt".to_string(), "echo fmt".to_string()), ("lint".to_string(), "npx eslint . --fix".to_string())]);
}

#[test]
fn name_map_insert_replaces_in_place_and_remove_drops() {
    let mut m: NameMap<String> = NameMap::new();
    m.insert("b".into(), "1".into());
    m.insert("a".into(), "2".into());
    m.insert("b".into(), "3".into());
    assert_eq!(m.len(), 2);
    assert_eq!(m.get("b").map(|s| s.as_str()), Some("3"));
    assert_eq!(m.entries[0].0, "b");
    m.remove("b");
    assert!(!m.contains_key("b"));
    assert_eq!(m.get("a").map(|s| s.as_str()), Some("2"));
    assert_eq!(m.position("a"), Some(0));
}

#[test]
fn include_documents_that_do_not_parse_name_their_format_and_path() {
    for (text, t, label) in [
        ("{not json", IncludeType::Json, "JSON"),
        ("= nope", IncludeType::Toml, "TOML"),
        ("a: [unclosed", IncludeType::Yaml, "YAML"),
    ] {
        let err = load_include_document(text, &t, "conf/file").unwrap_err();
        assert_eq!(err, format!("Failed to parse {} from 'conf/file'", label));
    }
    let includes = vec![local("Cargo.toml", IncludeType::Toml, "cargo")];
    let contents = vec![Ok("= nope".to_string())];
    match resolve_include_entry(&include_ref("cargo", "scripts.build", None), &includes, &contents) {
        Err(e @ IncludeError::Load { .. }) => assert_eq!(e.message(), "Failed to parse TOML from 'Cargo.toml'"),
        other => panic!("unexpected {:?}", other),
    }
}

#[test]
fn yaml_include_values_render_as_text() {
    let doc = yaml("n: 3\nflag: true\nlist:\n  - a\n  - b\ntagged: !env\n  lint: run-lint\n");
    assert_eq!(include_doc_text(&doc, "n").unwrap(), "3");
    assert_eq!(include_doc_text(&doc, "flag").unwrap(), "true");
    assert_eq!(include_doc_text(&doc, "list").unwrap(), "- a\n- b");
    assert_eq!(include_doc_text(&doc, "tagged.lint").unwrap(), "run-lint");
    assert!(include_doc_text(&doc, "n.more").is_none());
}

#[test]
fn toml_include_values_render_as_text() {
    let doc = toml("[tool]\nversion = 2\nname = \"x\"\n");
    assert_eq!(navigate(&doc, "tool.version").unwrap(), "2");
    assert_eq!(navigate(&doc, "tool.name").unwrap(), "x");
}
