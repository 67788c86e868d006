use githops::config::{Command, CommandEntry, Config, DefinitionEntry, GlobalCache, HookConfig, RefEntry};
use githops::graph::{
    api_update, remove_def_refs_from_hooks, update_cache_settings, update_command_in_all_hooks,
    update_def_ref_in_all_hooks, ws_update_action, CommandCacheDto, CommandDto, UpdateError, UpdateRequest,
};
use githops::namemap::NameMap;
use githops::state::{definition_rows, hook_states, shared_commands};

fn cmd(name: &str, run: &str, depends: &[&str]) -> Command {
    Command {
        name: name.into(),
        run: run.into(),
        depends: depends.iter().map(|d| d.to_string()).collect(),
        env: NameMap::new(),
        test: false,
        cache: None,
    }
}

fn reference(target: &str) -> CommandEntry {
    CommandEntry::Ref(RefEntry { target: target.into(), args: None, name: None })
}

fn dto(name: &str, run: &str) -> CommandDto {
    CommandDto {
        name: name.into(),
        run: run.into(),
        depends: vec![],
        env: NameMap::new(),
        test: false,
        is_ref: false,
        ref_name: String::new(),
        ref_args: String::new(),
        name_override: String::new(),
        cache: None,
    }
}

fn request(action: &str) -> UpdateRequest {
    UpdateRequest {
        action: action.into(),
        hook: String::new(),
        enabled: false,
        parallel: false,
        commands: vec![],
        old_name: String::new(),
        name: String::new(),
        run: String::new(),
        def_type: String::new(),
    }
}

fn sample() -> Config {
    let mut config = Config::default();
    config.hooks.pre_commit = Some(HookConfig {
        enabled: true,
        parallel: false,
        commands: vec![
            CommandEntry::Inline(cmd("lint", "eslint", &[])),
            CommandEntry::Inline(cmd("test", "jest", &["lint"])),
            reference("fmt"),
        ],
    });
    config.hooks.pre_push = Some(HookConfig {
        enabled: true,
        parallel: true,
        commands: vec![CommandEntry::Inline(cmd("lint", "eslint .", &[])), reference("fmt")],
    });
    config.definitions.insert("fmt".into(), DefinitionEntry::Single(cmd("format", "prettier", &[])));
    config
}

fn names(h: &HookConfig) -> Vec<String> {
    h.commands
        .iter()
        .map(|e| match e {
            CommandEntry::Inline(c) => format!("{}:{}:{}", c.name, c.run, c.depends.join(",")),
            CommandEntry::Ref(r) => format!("${}", r.target),
            CommandEntry::Include(i) => format!("@{}", i.include_ref),
        })
        .collect()
}

#[test]
fn dto_rows_become_entries() {
    let mut d = dto("lint", "eslint");
    d.cache = Some(CommandCacheDto { inputs: vec!["src/**".into()], key: vec![] });
    match d.into_entry() {
        CommandEntry::Inline(c) => {
            assert_eq!(c.name, "lint");
            assert_eq!(c.cache.unwrap().inputs, vec!["src/**".to_string()]);
        }
        other => panic!("unexpected {:?}", other),
    }
    let mut r = dto("", "");
    r.is_ref = true;
    r.ref_name = "fmt".into();
    r.ref_args = "--check".into();
    match r.into_entry() {
        CommandEntry::Ref(x) => {
            assert_eq!(x.target, "fmt");
            assert_eq!(x.args.as_deref(), Some("--check"));
            assert!(x.name.is_none());
        }
        other => panic!("unexpected {:?}", other),
    }
}

#[test]
fn renaming_a_command_follows_into_dependencies() {
    let mut config = sample();
    update_command_in_all_hooks("lint", "check", "", &mut config);
    assert_eq!(names(config.hooks.get("pre-commit").unwrap()), vec!["check:eslint:", "test:jest:check", "$fmt"]);
    assert_eq!(names(config.hooks.get("pre-push").unwrap()), vec!["check:eslint .:", "$fmt"]);
    update_command_in_all_hooks("check", "check", "eslint --max-warnings 0", &mut config);
    assert_eq!(names(config.hooks.get("pre-push").unwrap())[0], "check:eslint --max-warnings 0:");
}

#[test]
fn renaming_a_definition_retargets_refs() {
    let mut config = sample();
    update_def_ref_in_all_hooks("fmt", "format", &mut config);
    assert_eq!(names(config.hooks.get("pre-commit").unwrap())[2], "$format");
    assert_eq!(names(config.hooks.get("pre-push").unwrap())[1], "$format");
}

#[test]
fn deleting_a_definition_drops_its_refs() {
    let mut config = sample();
    remove_def_refs_from_hooks("fmt", &mut config);
    assert_eq!(names(config.hooks.get("pre-commit").unwrap()), vec!["lint:eslint:", "test:jest:lint"]);
    assert_eq!(config.hooks.get("pre-push").unwrap().commands.len(), 1);
}

#[test]
fn update_request_sets_a_hook() {
    let mut config = sample();
    let mut req = request("update");
    req.hook = "commit-msg".into();
    req.enabled = true;
    req.commands = vec![dto("msg", "commitlint")];
    assert!(api_update(req, &mut config).is_ok());
    assert_eq!(names(config.hooks.get("commit-msg").unwrap()), vec!["msg:commitlint:"]);
}

#[test]
fn update_request_with_bad_dependency_is_refused() {
    let mut config = sample();
    let mut req = request("update");
    req.hook = "commit-msg".into();
    let mut d = dto("msg", "commitlint");
    d.depends = vec!["ghost".into()];
    req.commands = vec![d];
    let err = api_update(req, &mut config).unwrap_err();
    assert!(matches!(err, UpdateError::Depends(_)));
    assert_eq!(err.message(), "Command 'msg' depends on 'ghost', which is not defined in this hook.");
    assert!(config.hooks.get("commit-msg").is_none());
}

#[test]
fn update_requests_report_missing_fields() {
    let mut config = sample();
    let err = api_update(request("update-command"), &mut config).unwrap_err();
    assert_eq!(err.message(), "oldName is required for update-command");
    let mut req = request("update-command");
    req.old_name = "lint".into();
    assert_eq!(api_update(req, &mut config).unwrap_err().message(), "name is required for update-command");
    let mut req = request("update-definition");
    req.name = "   ".into();
    assert_eq!(api_update(req, &mut config).unwrap_err().message(), "Definition name cannot be empty");
    assert_eq!(api_update(request("explode"), &mut config).unwrap_err().message(), "Unknown action: explode");
}

#[test]
fn renaming_a_definition_through_a_request() {
    let mut config = sample();
    let mut req = request("update-definition");
    req.name = " style ".into();
    req.old_name = "fmt".into();
    req.run = "prettier --write".into();
    api_update(req, &mut config).unwrap();
    assert!(config.definitions.get("fmt").is_none());
    match config.definitions.get("style").unwrap() {
        DefinitionEntry::Single(c) => {
            assert_eq!(c.name, "style");
            assert_eq!(c.run, "prettier --write");
        }
        other => panic!("unexpected {:?}", other),
    }
    assert_eq!(names(config.hooks.get("pre-commit").unwrap())[2], "$style");
}

#[test]
fn deleting_a_definition_through_a_request() {
    let mut config = sample();
    let mut req = request("delete-definition");
    req.name = "fmt".into();
    api_update(req, &mut config).unwrap();
    assert!(config.definitions.is_empty());
    assert_eq!(config.hooks.get("pre-push").unwrap().commands.len(), 1);
}

#[test]
fn removing_a_hook_through_a_request() {
    let mut config = sample();
    let mut req = request("remove");
    req.hook = "pre-push".into();
    api_update(req, &mut config).unwrap();
    assert!(config.hooks.get("pre-push").is_none());
    assert!(config.hooks.get("pre-commit").is_some());
}

#[test]
fn editing_methods_map_to_actions() {
    assert_eq!(ws_update_action("hook.update"), Some("update"));
    assert_eq!(ws_update_action("definition.delete"), Some("delete-definition"));
    assert_eq!(ws_update_action("sync"), None);
}

#[test]
fn cache_settings_edit() {
    let mut cache = GlobalCache { enabled: false, dir: Some("x".into()) };
    update_cache_settings(&mut cache, Some(true), Some(Some(".githops/cache".into())));
    assert!(cache.enabled);
    assert_eq!(cache.dir, None);
    update_cache_settings(&mut cache, None, Some(Some("build/cache".into())));
    assert_eq!(cache.dir.as_deref(), Some("build/cache"));
    update_cache_settings(&mut cache, Some(false), None);
    assert!(!cache.enabled);
    assert_eq!(cache.dir.as_deref(), Some("build/cache"));
}

#[test]
fn state_rows_show_refs_with_their_definition() {
    let config = sample();
    let installed = vec![false; 28];
    let states = hook_states(&config, &installed);
    assert_eq!(states.len(), 28);
    let pc = &states[0];
    assert_eq!(pc.name, "pre-commit");
    assert_eq!(pc.category, "Commit");
    assert!(pc.configured && pc.enabled && !pc.parallel);
    assert_eq!(pc.commands.len(), 3);
    let r = &pc.commands[2];
    assert!(r.is_ref);
    assert_eq!(r.ref_name, "fmt");
    assert_eq!(r.name, "format");
    assert_eq!(r.run, "prettier");
    assert_eq!(r.name_override, "");
    assert!(!states[1].configured);
}

#[test]
fn shared_commands_list_first_of_each_name() {
    let config = sample();
    let shared = shared_commands(&config);
    let got: Vec<(String, String, Vec<String>)> =
        shared.iter().map(|c| (c.name.clone(), c.run.clone(), c.used_in.clone())).collect();
    assert_eq!(
        got,
        vec![
            ("lint".to_string(), "eslint".to_string(), vec!["pre-commit".to_string(), "pre-push".to_string()]),
            ("test".to_string(), "jest".to_string(), vec!["pre-commit".to_string()]),
        ]
    );
}

#[test]
fn definitions_are_listed_by_name() {
    let mut defs = NameMap::new();
    defs.insert("zeta".into(), DefinitionEntry::Single(cmd("z", "z", &[])));
    defs.insert("alpha".into(), DefinitionEntry::List(vec![cmd("a", "a", &[]), cmd("b", "b", &[])]));
    let rows = definition_rows(&defs);
    let got: Vec<(String, String, usize)> =
        rows.iter().map(|r| (r.name.clone(), r.def_type.clone(), r.commands.len())).collect();
    assert_eq!(got, vec![("alpha".to_string(), "list".to_string(), 2), ("zeta".to_string(), "single".to_string(), 1)]);
}
