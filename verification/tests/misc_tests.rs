use githops::cache::{cache_step, records_marker, CacheStep};
use githops::order::sorted_unique;
use githops::cli::MigrateSource;
use githops::completions::{
    completion_rel_path, patch_completion, rc_addition, rc_rel_path, rc_snippet, shell_from_name, unpatch_rc_text,
    Shell, RC_MARKER,
};
use githops::config::{Command, CommandEntry, Config, HookConfig, IncludeEntry};
use githops::init::example_config;
use githops::logger::{time_of_day, LogKind, LogLayer, Logger, DEFAULT_VERBOSE_TEMPLATE};
use githops::namemap::NameMap;
use githops::run::{prepare_hook_run, wave_in_parallel, RunError};
use githops::yaml::{flatten_command_aliases, YamlNode};

fn s(x: &str) -> YamlNode {
    YamlNode::Str(x.to_string())
}

#[test]
fn aliased_command_lists_are_spliced() {
    let shared = YamlNode::List(vec![s("a"), s("b")]);
    let mut root = YamlNode::Mapping(vec![(
        s("hooks"),
        YamlNode::Mapping(vec![
            (s("pre-commit"), YamlNode::Mapping(vec![(s("commands"), YamlNode::List(vec![shared, s("c")]))])),
            (s("pre-push"), YamlNode::Mapping(vec![(s("enabled"), YamlNode::Bool(true))])),
        ]),
    )]);
    flatten_command_aliases(&mut root);
    let hooks = match &root {
        YamlNode::Mapping(es) => &es[0].1,
        _ => panic!(),
    };
    let cmds = match hooks {
        YamlNode::Mapping(hs) => match &hs[0].1 {
            YamlNode::Mapping(e) => &e[0].1,
            _ => panic!(),
        },
        _ => panic!(),
    };
    match cmds {
        YamlNode::List(items) => {
            let names: Vec<String> = items
                .iter()
                .map(|i| match i {
                    YamlNode::Str(x) => x.clone(),
                    _ => panic!(),
                })
                .collect();
            assert_eq!(names, vec!["a", "b", "c"]);
        }
        _ => panic!(),
    }
}

#[test]
fn documents_without_hooks_are_left_alone() {
    let mut root = YamlNode::List(vec![YamlNode::List(vec![s("x")])]);
    flatten_command_aliases(&mut root);
    match &root {
        YamlNode::List(v) => assert!(matches!(&v[0], YamlNode::List(_))),
        _ => panic!(),
    }
}

#[test]
fn completion_paths_and_rc_files() {
    assert_eq!(completion_rel_path(Shell::Zsh), ".zfunc/_githops");
    assert_eq!(completion_rel_path(Shell::Fish), ".config/fish/completions/githops.fish");
    assert_eq!(rc_rel_path(Shell::Bash), Some(".bashrc"));
    assert_eq!(rc_rel_path(Shell::Fish), None);
    assert_eq!(
        rc_snippet(Shell::Bash, "/home/u/.local/share/bash-completion/completions/githops"),
        Some("# githops completions\nsource /home/u/.local/share/bash-completion/completions/githops\n".to_string())
    );
    assert_eq!(
        rc_snippet(Shell::Zsh, "ignored"),
        Some("# githops completions\nfpath=(~/.zfunc $fpath)\nautoload -Uz compinit && compinit\n".to_string())
    );
    assert_eq!(rc_snippet(Shell::Elvish, "x"), None);
}

#[test]
fn rc_is_patched_once() {
    assert_eq!(rc_addition("export A=1\n", "SNIP"), Some("\nSNIP\n".to_string()));
    assert_eq!(rc_addition(&format!("x\n{}\n", RC_MARKER), "SNIP"), None);
}

#[test]
fn rc_block_is_taken_out() {
    let content = "export A=1\n\n# githops completions\nsource /x\n\nexport B=2\n";
    assert_eq!(unpatch_rc_text(content), Some("export A=1\n\nexport B=2\n".to_string()));
    assert_eq!(unpatch_rc_text("export A=1\n"), None);
}

#[test]
fn shells_are_detected_by_name() {
    assert_eq!(shell_from_name("zsh"), Ok(Shell::Zsh));
    assert_eq!(
        shell_from_name("tcsh"),
        Err("Unsupported shell 'tcsh'. Use `githops completions print <shell>` for manual installation.".to_string())
    );
    assert_eq!(Shell::PowerShell.name(), "powershell");
}

#[test]
fn completion_scripts_get_dynamic_hooks() {
    let bash = patch_completion(Shell::Bash, b"BASE");
    assert!(bash.starts_with("BASE\n# Dynamic hook completion"));
    assert!(bash.ends_with("complete -F __githops_check_hook githops\n"));
    let zsh = patch_completion(Shell::Zsh, b"_arguments ':hook -- Hook stage:(pre-commit pre-push)' rest");
    assert!(zsh.starts_with("_arguments ':hook:__githops_hook_names' rest\n# Dynamic hook completion"));
    let zsh_plain = patch_completion(Shell::Zsh, b"no spec");
    assert!(zsh_plain.starts_with("no spec\n# Dynamic"));
    assert_eq!(patch_completion(Shell::Elvish, b"E"), "E");
    assert!(patch_completion(Shell::Fish, b"F").contains("__fish_seen_subcommand_from check"));
}

#[test]
fn log_lines_follow_the_template() {
    let logger = Logger { verbose: false, template: DEFAULT_VERBOSE_TEMPLATE.to_string() };
    assert_eq!(
        logger.line(LogKind::Info, LogLayer::YamlResolve, "config loaded", "12:00:00.000"),
        Some("[12:00:00.000] [INFO] (yaml resolve) config loaded".to_string())
    );
    assert_eq!(logger.line(LogKind::Verbose, LogLayer::YamlExec, "x", "t"), None);
    let verbose = Logger { verbose: true, template: "$k/$l: $m $m".to_string() };
    assert_eq!(
        verbose.line(LogKind::Trace, LogLayer::SchemaValidation, "$t", "T"),
        Some("TRACE/schema validation: $t $t".to_string())
    );
}

#[test]
fn clock_text_is_padded() {
    assert_eq!(time_of_day(0, 7), "00:00:00.007");
    assert_eq!(time_of_day(86400 + 3 * 3600 + 4 * 60 + 5, 120), "03:04:05.120");
}

#[test]
fn example_config_has_three_hooks() {
    let c = example_config();
    let pc = c.hooks.get("pre-commit").unwrap();
    assert_eq!(pc.commands.len(), 2);
    assert_eq!(c.hooks.get("commit-msg").unwrap().commands.len(), 1);
    assert_eq!(c.hooks.get("pre-push").unwrap().commands.len(), 1);
    assert!(c.hooks.get("post-merge").is_none());
}

fn command(name: &str, test: bool, depends: &[&str]) -> CommandEntry {
    CommandEntry::Inline(Command {
        name: name.into(),
        run: format!("echo {}", name),
        depends: depends.iter().map(|d| d.to_string()).collect(),
        env: NameMap::new(),
        test,
        cache: None,
    })
}

#[test]
fn hook_runs_are_prepared() {
    let mut config = Config::default();
    let no_docs: Vec<Result<String, String>> = vec![];
    assert!(matches!(prepare_hook_run("pre-comit", &config, &no_docs), Err(RunError::UnknownHook(_))));
    assert!(matches!(prepare_hook_run("pre-commit", &config, &no_docs), Ok(None)));
    config.hooks.pre_commit = Some(HookConfig {
        enabled: true,
        parallel: false,
        commands: vec![command("a", false, &[]), command("t", true, &[]), command("b", false, &["a"])],
    });
    let cmds = prepare_hook_run("pre-commit", &config, &no_docs).unwrap().unwrap();
    let names: Vec<&str> = cmds.iter().map(|c| c.name.as_str()).collect();
    assert_eq!(names, vec!["a", "b"]);
    config.hooks.pre_commit = Some(HookConfig { enabled: true, parallel: false, commands: vec![command("b", false, &["t"])] });
    match prepare_hook_run("pre-commit", &config, &no_docs) {
        Err(e) => assert_eq!(e.message(), "Command 'b' depends on 't', which is not defined in this hook."),
        Ok(_) => panic!(),
    }
    let err = prepare_hook_run("nope", &config, &no_docs).unwrap_err();
    assert_eq!(err.message(), "Unknown hook: 'nope'. See `githops graph` for all supported hooks.");
    let _: &Vec<IncludeEntry> = &config.includes;
}

#[test]
fn waves_run_in_parallel_only_when_asked_and_wide() {
    assert!(wave_in_parallel(true, 2));
    assert!(!wave_in_parallel(true, 1));
    assert!(!wave_in_parallel(false, 3));
}

#[test]
fn migrate_sources_name_their_tool() {
    assert_eq!(MigrateSource::Husky.tool_name(), "husky");
    assert_eq!(MigrateSource::Lefthook.tool_name(), "lefthook");
}

#[test]
fn namemap_keeps_keys_distinct_through_insert_and_remove() {
    let mut m: githops::namemap::NameMap<String> = githops::namemap::NameMap::new();
    m.insert("a".into(), "1".into());
    m.insert("b".into(), "2".into());
    m.insert("a".into(), "3".into());
    assert_eq!(m.entries.len(), 2);
    m.remove("a");
    m.insert("a".into(), "4".into());
    let keys: Vec<&str> = m.entries.iter().map(|e| e.0.as_str()).collect();
    assert_eq!(keys, vec!["b", "a"]);
}

#[test]
fn patch_completion_reads_invalid_utf8_lossily() {
    assert_eq!(patch_completion(Shell::Elvish, b"A\xffB"), "A\u{FFFD}B");
}

#[test]
fn cache_steps_skip_on_hit_and_record_only_passing_runs() {
    assert_eq!(cache_step(true), CacheStep::Skip);
    assert_eq!(cache_step(false), CacheStep::Run);
    assert!(records_marker(None));
    assert!(records_marker(Some(true)));
    assert!(!records_marker(Some(false)));
}

#[test]
fn sorted_unique_orders_and_drops_repeats() {
    let keys: Vec<String> = ["src\0b.rs", "src\0a.rs", "src", "src\0a.rs", "lib"].iter().map(|s| s.to_string()).collect();
    assert_eq!(sorted_unique(&keys), vec!["lib", "src", "src\0a.rs", "src\0b.rs"]);
}
