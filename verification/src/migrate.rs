//! Importing hook configurations from husky and lefthook, and the files a
//! migration writes.
use vstd::prelude::*;
use crate::config::{
    entries_view, hooks_get, hooks_put, Command, CommandEntry, CommandView, Config, EntryView, HookConfig,
    HookView, CONFIG_FILE, SCHEMA_FILE,
};
use crate::hooks::{all_hooks, find_hook, hook_table, table_position};
use crate::namemap::{insert_entry, NameMap};
use crate::sync_hooks::GITHOPS_MARKER;
use crate::text::{
    contains, occurs_at, decimal, lines_of, lines_string, push_decimal, push_str, starts_with, str_contains, str_eq,
    str_starts_with, trim, trim_string,
};
use crate::yaml::{untag, untag_node, parse_yaml_value, yaml_value, as_pairs, as_text, lookup_key, lookup_node, node_pairs, node_text, pair_views, YamlNode, YamlView};

verus! {

/// Directory under which migrations keep their revert scripts.
pub const MIGRATION_DIR: &'static str = ".githops/migration";

/// The line with which current husky hooks load husky.
pub const HUSKY_LOADER: &'static str = ". \"$(dirname -- \"$0\")/_/husky.sh\"";

/// The line with which older husky hooks load husky.
pub const HUSKY_LOADER_OLD: &'static str = ". \"$(dirname \"$0\")/_/husky.sh\"";

// ---------------------------------------------------------------------------
// Husky
// ---------------------------------------------------------------------------

/// Whether a trimmed line of a husky hook is a command: not blank, not a
/// comment or shebang, not `set -e`, and not husky's own loader.
pub open spec fn husky_keep(t: Seq<char>) -> bool {
    &&& t.len() > 0
    &&& !starts_with(t, "#"@)
    &&& !starts_with(t, "#!/"@)
    &&& t != "set -e"@
    &&& !contains(t, HUSKY_LOADER@)
    &&& !contains(t, HUSKY_LOADER_OLD@)
    &&& !starts_with(t, ". \""@)
}

/// The trimmed command lines among `lines`, in order.
pub open spec fn husky_steps(lines: Seq<Seq<char>>) -> Seq<Seq<char>>
    decreases lines.len(),
{
    if lines.len() == 0 {
        Seq::empty()
    } else {
        let prev = husky_steps(lines.drop_last());
        let t = trim(lines.last());
        if husky_keep(t) {
            prev.push(t)
        } else {
            prev
        }
    }
}

/// The command `step-<i+1>` running `run`.
pub open spec fn step_command(i: nat, run: Seq<char>) -> CommandView {
    CommandView {
        name: "step-"@ + decimal(i + 1),
        run,
        depends: Seq::empty(),
        env: Seq::empty(),
        test: false,
        cache: None,
    }
}

/// The entries made from command lines: `step-1`, `step-2`, ... in order.
pub open spec fn step_entries(steps: Seq<Seq<char>>) -> Seq<EntryView> {
    Seq::new(steps.len(), |i: int| EntryView::Inline(step_command(i as nat, steps[i])))
}

/// The commands of a husky hook script.
pub open spec fn husky_commands(script: Seq<char>) -> Seq<EntryView> {
    step_entries(husky_steps(lines_of(script)))
}

fn keep_husky_line(t: &str) -> (b: bool)
    ensures
        b == husky_keep(t@),
{
    t.unicode_len() != 0 && !str_starts_with(t, "#") && !str_starts_with(t, "#!/") && !str_eq(t, "set -e")
        && !str_contains(t, HUSKY_LOADER) && !str_contains(t, HUSKY_LOADER_OLD) && !str_starts_with(t, ". \"")
}

fn step(i: usize, run: String) -> (c: Command)
    requires
        i < usize::MAX,
    ensures
        c@ == step_command(i as nat, run@),
{
    let mut name = String::new();
    push_str(&mut name, "step-");
    push_decimal(&mut name, (i + 1) as u64);
    let c = Command { name, run, depends: Vec::new(), env: NameMap::new(), test: false, cache: None };
    assert(crate::config::strs_view(c.depends@) =~= Seq::<Seq<char>>::empty());
    c
}

/// Extracts the shell commands of a husky hook script, skipping shebangs,
/// blank lines, comments and husky's own boilerplate; they are named
/// `step-1`, `step-2`, ... in order.
pub fn extract_husky_commands(script: &str) -> (r: Vec<CommandEntry>)
    ensures
        entries_view(r@) == husky_commands(script@),
{
    let lines = lines_string(script);
    let ghost lv = lines@.map_values(|p: String| p@);
    let mut out: Vec<CommandEntry> = Vec::new();
    let mut i: usize = 0;
    while i < lines.len()
        invariant
            lv == lines@.map_values(|p: String| p@),
            lv == lines_of(script@),
            i <= lines.len(),
            out.len() <= i,
            entries_view(out@) == step_entries(husky_steps(lv.take(i as int))),
        decreases lines.len() - i,
    {
        let t = trim_string(lines[i].as_str());
        assert(lv.take(i + 1).drop_last() =~= lv.take(i as int));
        assert(lv.take(i + 1).last() == lines@[i as int]@);
        let ghost steps = husky_steps(lv.take(i as int));
        if keep_husky_line(t.as_str()) {
            let n = out.len();
            let ghost tv = t@;
            let ghost old_out = out@;
            assert(entries_view(old_out).len() == old_out.len());
            assert(n == steps.len());
            out.push(CommandEntry::Inline(step(n, t)));
            assert forall|k: int| 0 <= k < out@.len() implies #[trigger] entries_view(out@)[k] == step_entries(steps.push(tv))[k] by {
                if k < n {
                    assert(out@[k] == old_out[k]);
                    assert(entries_view(old_out)[k] == step_entries(steps)[k]);
                }
            }
            assert(entries_view(out@) =~= step_entries(steps.push(tv)));
        }
        i = i + 1;
    }
    assert(lv.take(i as int) =~= lv);
    out
}

/// The slots of a configuration without hooks.
pub open spec fn no_hooks() -> Seq<Option<HookView>> {
    Seq::new(28, |i: int| None)
}

/// The hook configuration imported from a husky script, if it has commands.
pub open spec fn husky_hook(content: Option<Seq<char>>) -> Option<HookView> {
    match content {
        Some(c) => if husky_commands(c).len() > 0 {
            Some(HookView { enabled: true, parallel: false, commands: husky_commands(c) })
        } else {
            None
        },
        None => None,
    }
}

/// The hooks imported from the first `n` husky scripts, `contents[i]` being
/// the script of hook `i` of [`hook_table`] when there is one.
pub open spec fn husky_hooks(contents: Seq<Option<Seq<char>>>, n: nat) -> Seq<Option<HookView>>
    decreases n,
{
    if n == 0 {
        no_hooks()
    } else {
        let prev = husky_hooks(contents, (n - 1) as nat);
        match husky_hook(contents[n - 1]) {
            Some(h) => hooks_put(prev, hook_table()[n - 1].0, Some(h)),
            None => prev,
        }
    }
}

/// The hooks imported, with how many commands each has, in import order.
pub open spec fn husky_found(contents: Seq<Option<Seq<char>>>, n: nat) -> Seq<(Seq<char>, nat)>
    decreases n,
{
    if n == 0 {
        Seq::empty()
    } else {
        let prev = husky_found(contents, (n - 1) as nat);
        match husky_hook(contents[n - 1]) {
            Some(h) => prev.push((hook_table()[n - 1].0, h.commands.len())),
            None => prev,
        }
    }
}

/// A configuration imported from another tool, with the hooks found.
#[derive(Debug)]
pub struct Import {
    pub config: Config,
    /// Each imported hook with its number of commands, in import order.
    pub found: Vec<(String, usize)>,
    /// Hooks whose `scripts` block could not be imported.
    pub warnings: Vec<String>,
}

/// The hooks found by an import, as values.
pub open spec fn found_view(f: Seq<(String, usize)>) -> Seq<(Seq<char>, nat)> {
    f.map_values(|e: (String, usize)| (e.0@, e.1 as nat))
}

/// Whether `c` is a configuration with nothing but `hooks`: no version,
/// includes or definitions, caching off.
pub open spec fn bare_config(c: Config, hooks: Seq<Option<HookView>>) -> bool {
    &&& c.version@.len() == 0
    &&& c.includes@.len() == 0
    &&& c.definitions@.len() == 0
    &&& !c.cache.enabled
    &&& c.cache.dir is None
    &&& c.hooks@ == hooks
}

/// Builds a configuration from husky hook scripts: `contents[i]` is the
/// script of hook `i` of [`hook_table`] (`None` when husky has none). Every
/// script with at least one command becomes an enabled, sequential hook.
pub fn husky_config(contents: &[Option<String>]) -> (r: Import)
    requires
        contents@.len() == hook_table().len(),
    ensures
        bare_config(
            r.config,
            husky_hooks(contents@.map_values(|c: Option<String>| crate::config::opt_str_view(c)), 28),
        ),
        found_view(r.found@) == husky_found(
            contents@.map_values(|c: Option<String>| crate::config::opt_str_view(c)),
            28,
        ),
        r.warnings@.len() == 0,
{
    let ghost cv = contents@.map_values(|c: Option<String>| crate::config::opt_str_view(c));
    let hooks = all_hooks();
    let mut config = Config::default();
    assert(config.hooks@ =~= no_hooks());
    let mut found: Vec<(String, usize)> = Vec::new();
    let mut i: usize = 0;
    while i < hooks.len()
        invariant
            hooks@.len() == hook_table().len(),
            forall|k: int| 0 <= k < hooks@.len() ==> crate::hooks::info_view(#[trigger] hooks@[k]) == hook_table()[k],
            contents@.len() == hook_table().len(),
            cv == contents@.map_values(|c: Option<String>| crate::config::opt_str_view(c)),
            i <= hooks.len(),
            bare_config(config, husky_hooks(cv, i as nat)),
            found_view(found@) == husky_found(cv, i as nat),
        decreases hooks.len() - i,
    {
        assert(crate::hooks::info_view(hooks@[i as int]) == hook_table()[i as int]);
        assert(cv[i as int] == crate::config::opt_str_view(contents@[i as int]));
        match &contents[i] {
            Some(script) => {
                let commands = extract_husky_commands(script.as_str());
                let n = commands.len();
                if n > 0 {
                    let ghost hv = HookView { enabled: true, parallel: false, commands: entries_view(commands@) };
                    config.hooks.set(hooks[i].name, HookConfig { enabled: true, parallel: false, commands });
                    let ghost before = found@;
                    found.push((crate::text::string_of(hooks[i].name), n));
                    assert(found_view(found@) =~= found_view(before).push((hook_table()[i as int].0, n as nat)));
                }
            },
            None => {},
        }
        i = i + 1;
    }
    Import { config, found, warnings: Vec::new() }
}

// ---------------------------------------------------------------------------
// Lefthook
// ---------------------------------------------------------------------------

/// The text under `key` of a mapping value, or `""`.
pub open spec fn text_under(v: YamlView, key: Seq<char>) -> Seq<char> {
    match as_pairs(v) {
        Some(m) => match lookup_key(m, key) {
            Some(x) => match as_text(x) {
                Some(s) => s,
                None => ""@,
            },
            None => ""@,
        },
        None => ""@,
    }
}

/// The environment of string pairs, later keys overriding earlier ones;
/// pairs that are not two strings are skipped.
pub open spec fn env_pairs(ep: Seq<(YamlView, YamlView)>) -> Seq<(Seq<char>, Seq<char>)>
    decreases ep.len(),
{
    if ep.len() == 0 {
        Seq::empty()
    } else {
        let prev = env_pairs(ep.drop_last());
        match (as_text(ep.last().0), as_text(ep.last().1)) {
            (Some(k), Some(v)) => insert_entry(prev, k, v),
            _ => prev,
        }
    }
}

/// The `env` mapping of a lefthook command.
pub open spec fn lefthook_env(cv: YamlView) -> Seq<(Seq<char>, Seq<char>)> {
    match as_pairs(cv) {
        Some(m) => match lookup_key(m, "env"@) {
            Some(e) => match as_pairs(e) {
                Some(ep) => env_pairs(ep),
                None => Seq::empty(),
            },
            None => Seq::empty(),
        },
        None => Seq::empty(),
    }
}

/// The commands of a lefthook `commands` mapping: each with a non-empty
/// `run`, named by its key (`step` for a key that is not a string).
pub open spec fn lefthook_cmds(cmds: Seq<(YamlView, YamlView)>) -> Seq<EntryView>
    decreases cmds.len(),
{
    if cmds.len() == 0 {
        Seq::empty()
    } else {
        let prev = lefthook_cmds(cmds.drop_last());
        let (k, cv) = cmds.last();
        let run = text_under(cv, "run"@);
        if run.len() == 0 {
            prev
        } else {
            prev.push(
                EntryView::Inline(
                    CommandView {
                        name: match as_text(k) {
                            Some(n) => n,
                            None => "step"@,
                        },
                        run,
                        depends: Seq::empty(),
                        env: lefthook_env(cv),
                        test: false,
                        cache: None,
                    },
                ),
            )
        }
    }
}

/// The commands of a lefthook hook section.
pub open spec fn lefthook_commands(value: YamlView) -> Seq<EntryView> {
    match as_pairs(value) {
        Some(m) => match lookup_key(m, "commands"@) {
            Some(c) => match as_pairs(c) {
                Some(cp) => lefthook_cmds(cp),
                None => Seq::empty(),
            },
            None => Seq::empty(),
        },
        None => Seq::empty(),
    }
}

/// Whether a lefthook hook section has a `scripts` block.
pub open spec fn lefthook_has_scripts(value: YamlView) -> bool {
    match as_pairs(value) {
        Some(m) => lookup_key(m, "scripts"@) is Some,
        None => false,
    }
}

fn env_of(cv: &YamlNode) -> (env: NameMap<String>)
    ensures
        env@ == lefthook_env(cv@),
{
    let mut env: NameMap<String> = NameMap::new();
    match node_pairs(cv) {
        Some(m) => match lookup_node(m, "env") {
            Some(e) => match node_pairs(e) {
                Some(ep) => {
                    let ghost pv = pair_views(ep@);
                    let mut i: usize = 0;
                    while i < ep.len()
                        invariant
                            pv == pair_views(ep@),
                            i <= ep.len(),
                            env@ == env_pairs(pv.take(i as int)),
                        decreases ep.len() - i,
                    {
                        assert(pv.take(i + 1).drop_last() =~= pv.take(i as int));
                        assert(pv.take(i + 1).last() == (ep@[i as int].0@, ep@[i as int].1@));
                        match (node_text(&ep[i].0), node_text(&ep[i].1)) {
                            (Some(k), Some(v)) => {
                                env.insert(k.clone(), v.clone());
                            },
                            _ => {},
                        }
                        i = i + 1;
                    }
                    assert(pv.take(i as int) =~= pv);
                },
                None => {},
            },
            None => {},
        },
        None => {},
    }
    env
}

fn text_under_node(v: &YamlNode, key: &str) -> (s: String)
    ensures
        s@ == text_under(v@, key@),
{
    proof {
        reveal_strlit("");
    }
    match node_pairs(v) {
        Some(m) => match lookup_node(m, key) {
            Some(x) => match node_text(x) {
                Some(t) => t.clone(),
                None => String::new(),
            },
            None => String::new(),
        },
        None => String::new(),
    }
}

/// Extracts the commands of a lefthook hook section: each entry of its
/// `commands` mapping with a non-empty `run` becomes an inline command named
/// by its key, with the string pairs of its `env`.
pub fn extract_lefthook_commands(value: &YamlNode) -> (r: Vec<CommandEntry>)
    ensures
        entries_view(r@) == lefthook_commands(value@),
{
    let mut out: Vec<CommandEntry> = Vec::new();
    let m = match node_pairs(value) {
        Some(m) => m,
        None => {
            assert(entries_view(out@) =~= Seq::<EntryView>::empty());
            return out;
        },
    };
    let cmds = match lookup_node(m, "commands") {
        Some(c) => match node_pairs(c) {
            Some(cp) => cp,
            None => {
                assert(entries_view(out@) =~= Seq::<EntryView>::empty());
                return out;
            },
        },
        None => {
            assert(entries_view(out@) =~= Seq::<EntryView>::empty());
            return out;
        },
    };
    let ghost pv = pair_views(cmds@);
    let mut i: usize = 0;
    assert(entries_view(out@) =~= lefthook_cmds(pv.take(0)));
    while i < cmds.len()
        invariant
            pv == pair_views(cmds@),
            i <= cmds.len(),
            entries_view(out@) == lefthook_cmds(pv.take(i as int)),
        decreases cmds.len() - i,
    {
        assert(pv.take(i + 1).drop_last() =~= pv.take(i as int));
        assert(pv.take(i + 1).last() == (cmds@[i as int].0@, cmds@[i as int].1@));
        let cv = &cmds[i].1;
        let run = text_under_node(cv, "run");
        if run.unicode_len() != 0 {
            let name = match node_text(&cmds[i].0) {
                Some(n) => n.clone(),
                None => crate::text::string_of("step"),
            };
            let env = env_of(cv);
            let c = Command { name, run, depends: Vec::new(), env, test: false, cache: None };
            assert(crate::config::strs_view(c.depends@) =~= Seq::<Seq<char>>::empty());
            let ghost before = entries_view(out@);
            out.push(CommandEntry::Inline(c));
            assert(entries_view(out@) =~= before.push(EntryView::Inline(c@)));
        }
        i = i + 1;
    }
    assert(pv.take(i as int) =~= pv);
    out
}

/// Whether a lefthook hook section has a `scripts` block, which migration
/// does not import.
pub fn has_scripts_block(value: &YamlNode) -> (b: bool)
    ensures
        b == lefthook_has_scripts(value@),
{
    match node_pairs(value) {
        Some(m) => lookup_node(m, "scripts").is_some(),
        None => false,
    }
}

/// Whether `name` is a git hook that githops manages.
pub open spec fn known_hook(name: Seq<char>) -> bool {
    table_position(hook_table(), name) >= 0
}

/// Whether a lefthook section runs its commands in parallel: its `parallel`
/// value when that is a boolean, and otherwise not.
pub open spec fn lefthook_parallel(value: YamlView) -> bool {
    match as_pairs(value) {
        Some(es) => match lookup_key(es, "parallel"@) {
            Some(p) => match untag(p) {
                YamlView::Bool(b) => b,
                _ => false,
            },
            None => false,
        },
        None => false,
    }
}

/// Reads a lefthook section's `parallel` flag.
fn parallel_of(value: &YamlNode) -> (b: bool)
    ensures
        b == lefthook_parallel(value@),
{
    proof {
        reveal_strlit("parallel");
    }
    match node_pairs(value) {
        Some(m) => match lookup_node(m, "parallel") {
            Some(p) => match untag_node(p) {
                YamlNode::Bool(b) => *b,
                _ => false,
            },
            None => false,
        },
        None => false,
    }
}

/// The hook imported from the lefthook section `value` of hook `name`:
/// enabled, parallel as the section's `parallel` flag says.
pub open spec fn lefthook_hook(name: Option<Seq<char>>, value: YamlView) -> Option<HookView> {
    match name {
        Some(n) => if known_hook(n) && lefthook_commands(value).len() > 0 {
            Some(HookView { enabled: true, parallel: lefthook_parallel(value), commands: lefthook_commands(value) })
        } else {
            None
        },
        None => None,
    }
}

/// The hooks imported from the sections of a lefthook file, in order.
pub open spec fn lefthook_hooks(table: Seq<(YamlView, YamlView)>) -> Seq<Option<HookView>>
    decreases table.len(),
{
    if table.len() == 0 {
        no_hooks()
    } else {
        let prev = lefthook_hooks(table.drop_last());
        match lefthook_hook(as_text(table.last().0), table.last().1) {
            Some(h) => hooks_put(prev, as_text(table.last().0).unwrap(), Some(h)),
            None => prev,
        }
    }
}

/// The hooks imported from a lefthook file with their command counts.
pub open spec fn lefthook_found(table: Seq<(YamlView, YamlView)>) -> Seq<(Seq<char>, nat)>
    decreases table.len(),
{
    if table.len() == 0 {
        Seq::empty()
    } else {
        let prev = lefthook_found(table.drop_last());
        match lefthook_hook(as_text(table.last().0), table.last().1) {
            Some(h) => prev.push((as_text(table.last().0).unwrap(), h.commands.len())),
            None => prev,
        }
    }
}

/// The known hooks of a lefthook file whose section has a `scripts` block.
pub open spec fn lefthook_warned(table: Seq<(YamlView, YamlView)>) -> Seq<Seq<char>>
    decreases table.len(),
{
    if table.len() == 0 {
        Seq::empty()
    } else {
        let prev = lefthook_warned(table.drop_last());
        match as_text(table.last().0) {
            Some(n) => if known_hook(n) && lefthook_has_scripts(table.last().1) {
                prev.push(n)
            } else {
                prev
            },
            None => prev,
        }
    }
}

/// Why a lefthook file cannot be imported.
#[derive(Debug)]
pub enum MigrateError {
    /// The top of the file is not a mapping.
    InvalidLefthook,
    /// The file is not YAML; the parser's message.
    Parse { message: String },
}

impl MigrateError {
    /// The error as text.
    pub fn message(&self) -> (s: String)
        ensures
            s@ == match self {
                MigrateError::InvalidLefthook => "Invalid lefthook.yml format"@,
                MigrateError::Parse { message } => message@,
            },
    {
        match self {
            MigrateError::InvalidLefthook => crate::text::string_of("Invalid lefthook.yml format"),
            MigrateError::Parse { message } => message.clone(),
        }
    }
}

/// Builds a configuration from a parsed lefthook file: every section named
/// after a git hook with at least one command becomes an enabled hook, run
/// in parallel when the section sets `parallel: true`. The top of the file
/// must be a mapping.
pub fn lefthook_config(raw: &YamlNode) -> (r: Result<Import, MigrateError>)
    ensures
        match raw@ {
            YamlView::Mapping(table) => r matches Ok(imp) && bare_config(imp.config, lefthook_hooks(table))
                && found_view(imp.found@) == lefthook_found(table)
                && imp.warnings@.map_values(|w: String| w@) == lefthook_warned(table),
            _ => r matches Err(MigrateError::InvalidLefthook),
        },
{
    let table = match raw {
        YamlNode::Mapping(t) => t,
        _ => {
            return Err(MigrateError::InvalidLefthook);
        },
    };
    proof {
        crate::yaml::lemma_mapping_view_pub(*table);
    }
    let ghost tv = pair_views(table@);
    let mut config = Config::default();
    assert(config.hooks@ =~= no_hooks());
    let mut found: Vec<(String, usize)> = Vec::new();
    let mut warnings: Vec<String> = Vec::new();
    let mut i: usize = 0;
    assert(found_view(found@) =~= lefthook_found(tv.take(0)));
    assert(warnings@.map_values(|w: String| w@) =~= lefthook_warned(tv.take(0)));
    while i < table.len()
        invariant
            tv == pair_views(table@),
            i <= table.len(),
            bare_config(config, lefthook_hooks(tv.take(i as int))),
            found_view(found@) == lefthook_found(tv.take(i as int)),
            warnings@.map_values(|w: String| w@) == lefthook_warned(tv.take(i as int)),
        decreases table.len() - i,
    {
        assert(tv.take(i + 1).drop_last() =~= tv.take(i as int));
        assert(tv.take(i + 1).last() == (table@[i as int].0@, table@[i as int].1@));
        let (key, value) = (&table[i].0, &table[i].1);
        match node_text(key) {
            Some(name) => {
                let known = find_hook(name.as_str()).is_some();
                if known {
                    let commands = extract_lefthook_commands(value);
                    if has_scripts_block(value) {
                        let ghost wb = warnings@.map_values(|w: String| w@);
                        warnings.push(name.clone());
                        assert(warnings@.map_values(|w: String| w@) =~= wb.push(name@));
                    }
                    let n = commands.len();
                    if n > 0 {
                        let parallel = parallel_of(value);
                        config.hooks.set(name.as_str(), HookConfig { enabled: true, parallel, commands });
                        let ghost before = found@;
                        found.push((name.clone(), n));
                        assert(found_view(found@) =~= found_view(before).push((name@, n as nat)));
                    }
                }
            },
            None => {},
        }
        i = i + 1;
    }
    assert(tv.take(i as int) =~= tv);
    Ok(Import { config, found, warnings })
}

/// Builds a configuration from the text of a lefthook file: the text must
/// parse as YAML (else the parser's message is the error), and the parsed
/// value is then imported as [`lefthook_config`] does.
pub fn lefthook_config_from_text(text: &str) -> (r: Result<Import, MigrateError>)
    ensures
        match yaml_value(text@) {
            Err(e) => r matches Err(MigrateError::Parse { message }) && message@ == e,
            Ok(YamlView::Mapping(table)) => r matches Ok(imp) && bare_config(imp.config, lefthook_hooks(table))
                && found_view(imp.found@) == lefthook_found(table)
                && imp.warnings@.map_values(|w: String| w@) == lefthook_warned(table),
            Ok(_) => r matches Err(MigrateError::InvalidLefthook),
        },
{
    match parse_yaml_value(text) {
        Ok(raw) => lefthook_config(&raw),
        Err(message) => Err(MigrateError::Parse { message }),
    }
}

// ---------------------------------------------------------------------------
// Files a migration writes or removes
// ---------------------------------------------------------------------------

/// Whether hook file `content` was written by `tool` (and not by githops).
pub open spec fn old_tool_hook(content: Seq<char>, tool: Seq<char>) -> bool {
    !contains(content, GITHOPS_MARKER@) && if tool == "husky"@ {
        contains(content, "husky.sh"@) || contains(content, "husky run"@) || contains(content, "# husky"@)
    } else if tool == "lefthook"@ {
        contains(content, "lefthook run"@) || contains(content, "lefthook-runner"@) || contains(content, "# lefthook"@)
    } else {
        false
    }
}

/// Whether a hook file holding `content` looks like `tool` installed it and
/// githops does not manage it.
pub fn is_old_tool_hook(content: &str, tool: &str) -> (b: bool)
    ensures
        b == old_tool_hook(content@, tool@),
{
    if str_contains(content, GITHOPS_MARKER) {
        return false;
    }
    if str_eq(tool, "husky") {
        str_contains(content, "husky.sh") || str_contains(content, "husky run") || str_contains(content, "# husky")
    } else if str_eq(tool, "lefthook") {
        str_contains(content, "lefthook run") || str_contains(content, "lefthook-runner")
            || str_contains(content, "# lefthook")
    } else {
        false
    }
}

/// `k` occurs in `prefix + k + suffix`.
proof fn lemma_contains_middle(prefix: Seq<char>, k: Seq<char>, suffix: Seq<char>)
    ensures
        contains(prefix + k + suffix, k),
{
    let s = prefix + k + suffix;
    assert(s.subrange(prefix.len() as int, (prefix.len() + k.len()) as int) =~= k);
    assert(occurs_at(s, k, prefix.len() as int));
}

/// Which tool wrote a hook file: a file without the githops marker is
/// husky's when it mentions `husky.sh`, `husky run` or `# husky` anywhere,
/// and lefthook's when it mentions `lefthook run`, `lefthook-runner` or
/// `# lefthook` anywhere; a file carrying the githops marker is never
/// another tool's, and no other tool is recognised.
pub proof fn law_old_tool_hook_recognised(prefix: Seq<char>, suffix: Seq<char>, content: Seq<char>, tool: Seq<char>)
    ensures
        !contains(prefix + "lefthook run"@ + suffix, GITHOPS_MARKER@) ==> old_tool_hook(
            prefix + "lefthook run"@ + suffix,
            "lefthook"@,
        ),
        !contains(prefix + "lefthook-runner"@ + suffix, GITHOPS_MARKER@) ==> old_tool_hook(
            prefix + "lefthook-runner"@ + suffix,
            "lefthook"@,
        ),
        !contains(prefix + "# lefthook"@ + suffix, GITHOPS_MARKER@) ==> old_tool_hook(
            prefix + "# lefthook"@ + suffix,
            "lefthook"@,
        ),
        !contains(prefix + "husky.sh"@ + suffix, GITHOPS_MARKER@) ==> old_tool_hook(
            prefix + "husky.sh"@ + suffix,
            "husky"@,
        ),
        !contains(prefix + "husky run"@ + suffix, GITHOPS_MARKER@) ==> old_tool_hook(
            prefix + "husky run"@ + suffix,
            "husky"@,
        ),
        !contains(prefix + "# husky"@ + suffix, GITHOPS_MARKER@) ==> old_tool_hook(
            prefix + "# husky"@ + suffix,
            "husky"@,
        ),
        !old_tool_hook(prefix + GITHOPS_MARKER@ + suffix, tool),
        tool != "husky"@ && tool != "lefthook"@ ==> !old_tool_hook(content, tool),
{
    reveal_strlit("husky");
    reveal_strlit("lefthook");
    assert("lefthook"@ != "husky"@) by {
        assert("lefthook"@.len() != "husky"@.len());
    }
    lemma_contains_middle(prefix, "lefthook run"@, suffix);
    assert(contains(prefix + "lefthook run"@ + suffix, "lefthook run"@));
    lemma_contains_middle(prefix, "lefthook-runner"@, suffix);
    assert(contains(prefix + "lefthook-runner"@ + suffix, "lefthook-runner"@));
    lemma_contains_middle(prefix, "# lefthook"@, suffix);
    lemma_contains_middle(prefix, "husky.sh"@, suffix);
    lemma_contains_middle(prefix, "husky run"@, suffix);
    lemma_contains_middle(prefix, "# husky"@, suffix);
    lemma_contains_middle(prefix, GITHOPS_MARKER@, suffix);
}

/// Whether a hook file must go before githops installs its own: the hook is
/// configured and its file, if any, was written by `tool`.
pub open spec fn to_remove(configured: bool, existing: Option<Seq<char>>, tool: Seq<char>) -> bool {
    configured && match existing {
        Some(c) => old_tool_hook(c, tool),
        None => false,
    }
}

/// For each hook of [`hook_table`], whether its file must be removed so
/// that githops can install its own: the hook is configured, the file exists
/// (`existing[i]` holds it) and `tool` wrote it.
pub fn old_hooks_to_remove(config: &Config, existing: &[Option<String>], tool: &str) -> (r: Vec<bool>)
    requires
        existing@.len() == hook_table().len(),
    ensures
        r@.len() == hook_table().len(),
        forall|i: int|
            0 <= i < r@.len() ==> #[trigger] r@[i] == to_remove(
                hooks_get(config.hooks@, hook_table()[i].0) is Some,
                crate::config::opt_str_view(existing@[i]),
                tool@,
            ),
{
    let hooks = all_hooks();
    let mut r: Vec<bool> = Vec::new();
    let mut i: usize = 0;
    while i < hooks.len()
        invariant
            hooks@.len() == hook_table().len(),
            forall|k: int| 0 <= k < hooks@.len() ==> crate::hooks::info_view(#[trigger] hooks@[k]) == hook_table()[k],
            existing@.len() == hook_table().len(),
            i <= hooks.len(),
            r@.len() == i,
            forall|k: int|
                0 <= k < i ==> #[trigger] r@[k] == to_remove(
                    hooks_get(config.hooks@, hook_table()[k].0) is Some,
                    crate::config::opt_str_view(existing@[k]),
                    tool@,
                ),
        decreases hooks.len() - i,
    {
        assert(crate::hooks::info_view(hooks@[i as int]) == hook_table()[i as int]);
        let configured = config.hooks.get(hooks[i].name).is_some();
        let remove = configured && match &existing[i] {
            Some(c) => is_old_tool_hook(c.as_str(), tool),
            None => false,
        };
        r.push(remove);
        i = i + 1;
    }
    r
}

/// The note and the reinstall hint a revert script ends with.
pub open spec fn revert_notes(tool: Seq<char>) -> (Seq<char>, Seq<char>) {
    if tool == "husky"@ {
        ("Your .husky/ directory was not modified."@, "To re-activate husky, run:  npx husky install"@)
    } else if tool == "lefthook"@ {
        ("Your lefthook.yml / lefthook.yaml was not modified."@, "To re-activate lefthook, run:  lefthook install"@)
    } else {
        (""@, ""@)
    }
}

/// The script that undoes a migration from `tool`.
pub open spec fn revert_script(tool: Seq<char>) -> Seq<char> {
    "#!/usr/bin/env bash\n# Generated by `githops migrate --from "@ + tool
        + "`\n# Run this script to undo the migration and restore "@ + tool
        + ".\nset -euo pipefail\n\nSCRIPT_DIR=\"$(cd \"$(dirname \"$0\")\" && pwd)\"\nREPO_ROOT=\"$(cd \"$SCRIPT_DIR/../../..\" && pwd)\"\ncd \"$REPO_ROOT\"\n\necho \"Reverting githops migration ("@
        + tool
        + ")...\"\necho \"\"\n\n# Remove githops-managed hooks from .git/hooks/\nif command -v githops &>/dev/null; then\n    githops destroy\nelse\n    echo \"warn: githops not in PATH — remove managed hooks manually from .git/hooks/\"\nfi\n\n# Remove githops config files\nrm -f "@
        + CONFIG_FILE@ + " "@ + SCHEMA_FILE@ + "\necho \"removed: "@ + CONFIG_FILE@ + " "@ + SCHEMA_FILE@
        + "\"\n\necho \"\"\necho \""@ + revert_notes(tool).0 + "\"\necho \""@ + revert_notes(tool).1 + "\"\n"@
}

/// The script that undoes a migration from `tool`: it removes the githops
/// hooks and configuration files and says how to re-activate `tool`.
pub fn build_revert_script(tool: &str) -> (s: String)
    ensures
        s@ == revert_script(tool@),
{
    let (note, hint) = if str_eq(tool, "husky") {
        ("Your .husky/ directory was not modified.", "To re-activate husky, run:  npx husky install")
    } else if str_eq(tool, "lefthook") {
        ("Your lefthook.yml / lefthook.yaml was not modified.", "To re-activate lefthook, run:  lefthook install")
    } else {
        ("", "")
    };
    let mut s = String::new();
    push_str(&mut s, "#!/usr/bin/env bash\n# Generated by `githops migrate --from ");
    push_str(&mut s, tool);
    push_str(&mut s, "`\n# Run this script to undo the migration and restore ");
    push_str(&mut s, tool);
    push_str(
        &mut s,
        ".\nset -euo pipefail\n\nSCRIPT_DIR=\"$(cd \"$(dirname \"$0\")\" && pwd)\"\nREPO_ROOT=\"$(cd \"$SCRIPT_DIR/../../..\" && pwd)\"\ncd \"$REPO_ROOT\"\n\necho \"Reverting githops migration (",
    );
    push_str(&mut s, tool);
    push_str(
        &mut s,
        ")...\"\necho \"\"\n\n# Remove githops-managed hooks from .git/hooks/\nif command -v githops &>/dev/null; then\n    githops destroy\nelse\n    echo \"warn: githops not in PATH — remove managed hooks manually from .git/hooks/\"\nfi\n\n# Remove githops config files\nrm -f ",
    );
    push_str(&mut s, CONFIG_FILE);
    push_str(&mut s, " ");
    push_str(&mut s, SCHEMA_FILE);
    push_str(&mut s, "\necho \"removed: ");
    push_str(&mut s, CONFIG_FILE);
    push_str(&mut s, " ");
    push_str(&mut s, SCHEMA_FILE);
    push_str(&mut s, "\"\n\necho \"\"\necho \"");
    push_str(&mut s, note);
    push_str(&mut s, "\"\necho \"");
    push_str(&mut s, hint);
    push_str(&mut s, "\"\n");
    assert(s@ =~= revert_script(tool@));
    s
}

/// The text of the `githops.yaml` a migration writes around the serialised
/// configuration `yaml_body`.
pub fn migrated_config_text(yaml_body: &str) -> (s: String)
    ensures
        s@ == "# yaml-language-server: $schema="@ + SCHEMA_FILE@ + "\n# Migrated by `githops migrate`\n"@ + yaml_body@,
{
    let mut s = String::new();
    push_str(&mut s, "# yaml-language-server: $schema=");
    push_str(&mut s, SCHEMA_FILE);
    push_str(&mut s, "\n# Migrated by `githops migrate`\n");
    push_str(&mut s, yaml_body);
    s
}

} // verus!
