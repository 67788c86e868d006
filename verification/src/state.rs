//! The state the graph UI shows: every hook with its command rows, the
//! inline commands shared across hooks, and the definitions.
use vstd::prelude::*;
use crate::config::{
    entries_view, hooks_get, strs_view, CacheView, Command, CommandCache, CommandEntry, CommandView, Config,
    DefView, DefinitionEntry, EntryView, HookConfig, HookView, commands_view, dup_commands,
};
use crate::hooks::{all_hooks, category_label, hook_table, info_view, HookInfo};
use crate::namemap::{lookup, Duplicate, NameMap};
use crate::order::{sort_positions, sorted_positions};
use crate::text::{str_eq, string_of};

verus! {

/// A row of a hook's command list as the UI shows it.
#[derive(Debug)]
pub struct CommandRow {
    pub is_ref: bool,
    pub ref_name: String,
    pub name: String,
    pub name_override: String,
    pub run: String,
    pub ref_args: String,
    pub depends: Vec<String>,
    pub env: NameMap<String>,
    pub test: bool,
    pub cache: Option<CommandCache>,
}

/// A command row as values.
pub struct RowView {
    pub is_ref: bool,
    pub ref_name: Seq<char>,
    pub name: Seq<char>,
    pub name_override: Seq<char>,
    pub run: Seq<char>,
    pub ref_args: Seq<char>,
    pub depends: Seq<Seq<char>>,
    pub env: Seq<(Seq<char>, Seq<char>)>,
    pub test: bool,
    pub cache: Option<CacheView>,
}

impl View for CommandRow {
    type V = RowView;

    open spec fn view(&self) -> RowView {
        RowView {
            is_ref: self.is_ref,
            ref_name: self.ref_name@,
            name: self.name@,
            name_override: self.name_override@,
            run: self.run@,
            ref_args: self.ref_args@,
            depends: strs_view(self.depends@),
            env: self.env@,
            test: self.test,
            cache: crate::config::opt_cache_view(self.cache),
        }
    }
}

/// The value of an optional text, or `""`.
pub open spec fn or_empty(s: Option<Seq<char>>) -> Seq<char> {
    match s {
        Some(x) => x,
        None => Seq::empty(),
    }
}

/// The row of an entry: a `$ref` shows the name and script of a single
/// definition it points at (the reference's own name otherwise); `$include`
/// entries have no row.
pub open spec fn entry_row(e: EntryView, defs: Seq<(Seq<char>, DefView)>) -> Option<RowView> {
    match e {
        EntryView::Ref(r) => {
            let (dn, dr) = match lookup(defs, r.target) {
                Some(DefView::Single(c)) => (c.name, c.run),
                _ => (r.target, Seq::empty()),
            };
            Some(
                RowView {
                    is_ref: true,
                    ref_name: r.target,
                    name: match r.name {
                        Some(n) => n,
                        None => dn,
                    },
                    name_override: or_empty(r.name),
                    run: dr,
                    ref_args: or_empty(r.args),
                    depends: Seq::empty(),
                    env: Seq::empty(),
                    test: false,
                    cache: None,
                },
            )
        },
        EntryView::Inline(c) => Some(
            RowView {
                is_ref: false,
                ref_name: Seq::empty(),
                name: c.name,
                name_override: Seq::empty(),
                run: c.run,
                ref_args: Seq::empty(),
                depends: c.depends,
                env: c.env,
                test: c.test,
                cache: c.cache,
            },
        ),
        EntryView::Include(_) => None,
    }
}

/// The rows of a command list.
pub open spec fn entry_rows(es: Seq<EntryView>, defs: Seq<(Seq<char>, DefView)>) -> Seq<RowView>
    decreases es.len(),
{
    if es.len() == 0 {
        Seq::empty()
    } else {
        let prev = entry_rows(es.drop_last(), defs);
        match entry_row(es.last(), defs) {
            Some(r) => prev.push(r),
            None => prev,
        }
    }
}

fn row_of(e: &CommandEntry, defs: &NameMap<DefinitionEntry>) -> (r: Option<CommandRow>)
    ensures
        match entry_row(e@, defs@) {
            Some(x) => r matches Some(y) && y@ == x,
            None => r is None,
        },
{
    proof {
        reveal_strlit("");
    }
    match e {
        CommandEntry::Ref(x) => {
            let (dn, dr) = match defs.get(x.target.as_str()) {
                Some(DefinitionEntry::Single(c)) => (c.name.clone(), c.run.clone()),
                _ => (x.target.clone(), String::new()),
            };
            let name = match &x.name {
                Some(n) => n.clone(),
                None => dn,
            };
            let name_override = match &x.name {
                Some(n) => n.clone(),
                None => String::new(),
            };
            let ref_args = match &x.args {
                Some(a) => a.clone(),
                None => String::new(),
            };
            let row = CommandRow {
                is_ref: true,
                ref_name: x.target.clone(),
                name,
                name_override,
                run: dr,
                ref_args,
                depends: Vec::new(),
                env: NameMap::new(),
                test: false,
                cache: None,
            };
            assert(strs_view(row.depends@) =~= Seq::<Seq<char>>::empty());
            Some(row)
        },
        CommandEntry::Inline(c) => {
            let cache = match &c.cache {
                Some(k) => Some(k.duplicate()),
                None => None,
            };
            Some(
                CommandRow {
                    is_ref: false,
                    ref_name: String::new(),
                    name: c.name.clone(),
                    name_override: String::new(),
                    run: c.run.clone(),
                    ref_args: String::new(),
                    depends: c.depends.duplicate(),
                    env: c.env.duplicate(),
                    test: c.test,
                    cache,
                },
            )
        },
        CommandEntry::Include(_) => None,
    }
}

/// One hook as the UI shows it.
#[derive(Debug)]
pub struct HookState {
    pub name: String,
    pub description: String,
    pub category: String,
    /// The configuration sets this hook.
    pub configured: bool,
    /// A hook file exists in the hooks directory.
    pub installed: bool,
    pub enabled: bool,
    pub parallel: bool,
    pub commands: Vec<CommandRow>,
}

/// The rows of a list of command rows.
pub open spec fn rows_view(v: Seq<CommandRow>) -> Seq<RowView> {
    v.map_values(|r: CommandRow| r@)
}

/// Whether `s` shows hook `i` of [`hook_table`] configured as `h`.
pub open spec fn shows_hook(
    s: HookState,
    i: int,
    h: Option<HookView>,
    installed: bool,
    defs: Seq<(Seq<char>, DefView)>,
) -> bool {
    &&& s.name@ == hook_table()[i].0
    &&& s.description@ == hook_table()[i].1
    &&& s.category@ == category_label(hook_table()[i].2)
    &&& s.configured == (h is Some)
    &&& s.installed == installed
    &&& s.enabled == (h matches Some(v) && v.enabled)
    &&& s.parallel == (h matches Some(v) && v.parallel)
    &&& rows_view(s.commands@) == match h {
        Some(v) => entry_rows(v.commands, defs),
        None => Seq::empty(),
    }
}

fn rows_of(h: &HookConfig, defs: &NameMap<DefinitionEntry>) -> (r: Vec<CommandRow>)
    ensures
        rows_view(r@) == entry_rows(h@.commands, defs@),
{
    let ghost es = h@.commands;
    let mut out: Vec<CommandRow> = Vec::new();
    let mut i: usize = 0;
    while i < h.commands.len()
        invariant
            es == h@.commands,
            i <= h.commands.len(),
            rows_view(out@) == entry_rows(es.take(i as int), defs@),
        decreases h.commands.len() - i,
    {
        assert(es.take(i + 1).drop_last() =~= es.take(i as int));
        assert(es.take(i + 1).last() == h.commands@[i as int]@);
        match row_of(&h.commands[i], defs) {
            Some(row) => {
                let ghost before = rows_view(out@);
                out.push(row);
                assert(rows_view(out@) =~= before.push(out@[out@.len() - 1]@));
            },
            None => {},
        }
        i = i + 1;
    }
    assert(es.take(i as int) =~= es);
    out
}

/// Every hook of [`hook_table`] as the UI shows it; `installed[i]` tells
/// whether hook `i` has a file in the hooks directory.
pub fn hook_states(config: &Config, installed: &[bool]) -> (r: Vec<HookState>)
    requires
        installed@.len() == hook_table().len(),
    ensures
        r@.len() == hook_table().len(),
        forall|i: int|
            0 <= i < r@.len() ==> shows_hook(
                #[trigger] r@[i],
                i,
                hooks_get(config.hooks@, hook_table()[i].0),
                installed@[i],
                config.definitions@,
            ),
{
    let hooks = all_hooks();
    let mut out: Vec<HookState> = Vec::new();
    let mut i: usize = 0;
    while i < hooks.len()
        invariant
            hooks@.len() == hook_table().len(),
            forall|k: int| 0 <= k < hooks@.len() ==> info_view(#[trigger] hooks@[k]) == hook_table()[k],
            installed@.len() == hook_table().len(),
            i <= hooks.len(),
            out@.len() == i,
            forall|k: int|
                0 <= k < i ==> shows_hook(
                    #[trigger] out@[k],
                    k,
                    hooks_get(config.hooks@, hook_table()[k].0),
                    installed@[k],
                    config.definitions@,
                ),
        decreases hooks.len() - i,
    {
        let info = hooks[i];
        assert(info_view(hooks@[i as int]) == hook_table()[i as int]);
        let cfg = config.hooks.get(info.name);
        let (configured, enabled, parallel, commands) = match cfg {
            Some(c) => (true, c.enabled, c.parallel, rows_of(c, &config.definitions)),
            None => {
                let v: Vec<CommandRow> = Vec::new();
                assert(rows_view(v@) =~= Seq::<RowView>::empty());
                (false, false, false, v)
            },
        };
        out.push(
            HookState {
                name: string_of(info.name),
                description: string_of(info.description),
                category: string_of(info.category.label()),
                configured,
                installed: installed[i],
                enabled,
                parallel,
                commands,
            },
        );
        i = i + 1;
    }
    out
}

// ---------------------------------------------------------------------------
// Commands shared across hooks
// ---------------------------------------------------------------------------

/// The inline commands of a command list, in order.
pub open spec fn inline_cmds(es: Seq<EntryView>) -> Seq<CommandView>
    decreases es.len(),
{
    if es.len() == 0 {
        Seq::empty()
    } else {
        let prev = inline_cmds(es.drop_last());
        match es.last() {
            EntryView::Inline(c) => prev.push(c),
            _ => prev,
        }
    }
}

/// The inline commands of the first `n` hooks of [`hook_table`], in order.
pub open spec fn all_inline(h: Seq<Option<HookView>>, n: nat) -> Seq<CommandView>
    decreases n,
{
    if n == 0 {
        Seq::empty()
    } else {
        all_inline(h, (n - 1) as nat) + match hooks_get(h, hook_table()[n - 1].0) {
            Some(v) => inline_cmds(v.commands),
            None => Seq::empty(),
        }
    }
}

/// The names of `cs`.
pub open spec fn names_of(cs: Seq<CommandView>) -> Seq<Seq<char>> {
    cs.map_values(|c: CommandView| c.name)
}

/// The first command of each name, in order of first appearance.
pub open spec fn first_of_each_name(cs: Seq<CommandView>) -> Seq<CommandView>
    decreases cs.len(),
{
    if cs.len() == 0 {
        Seq::empty()
    } else {
        let prev = first_of_each_name(cs.drop_last());
        if names_of(prev).contains(cs.last().name) {
            prev
        } else {
            prev.push(cs.last())
        }
    }
}

/// Whether hook configuration `h` has an inline command named `name`.
pub open spec fn uses_name(h: Option<HookView>, name: Seq<char>) -> bool {
    match h {
        Some(v) => names_of(inline_cmds(v.commands)).contains(name),
        None => false,
    }
}

/// The hooks among the first `n` of [`hook_table`] with an inline command
/// named `name`.
pub open spec fn used_in(h: Seq<Option<HookView>>, name: Seq<char>, n: nat) -> Seq<Seq<char>>
    decreases n,
{
    if n == 0 {
        Seq::empty()
    } else {
        let prev = used_in(h, name, (n - 1) as nat);
        if uses_name(hooks_get(h, hook_table()[n - 1].0), name) {
            prev.push(hook_table()[n - 1].0)
        } else {
            prev
        }
    }
}

/// An inline command shared across hooks.
#[derive(Debug)]
pub struct SharedCommand {
    pub name: String,
    pub run: String,
    pub test: bool,
    /// The hooks that have an inline command of this name.
    pub used_in: Vec<String>,
}

/// Whether `s` shows command `c` of a configuration with hooks `h`.
pub open spec fn shows_shared(s: SharedCommand, c: CommandView, h: Seq<Option<HookView>>) -> bool {
    &&& s.name@ == c.name
    &&& s.run@ == c.run
    &&& s.test == c.test
    &&& strs_view(s.used_in@) == used_in(h, c.name, 28)
}

fn inline_of(h: &HookConfig) -> (r: Vec<&Command>)
    ensures
        r@.map_values(|c: &Command| c@) == inline_cmds(h@.commands),
{
    let ghost es = h@.commands;
    let mut out: Vec<&Command> = Vec::new();
    let mut i: usize = 0;
    while i < h.commands.len()
        invariant
            es == h@.commands,
            i <= h.commands.len(),
            out@.map_values(|c: &Command| c@) == inline_cmds(es.take(i as int)),
        decreases h.commands.len() - i,
    {
        assert(es.take(i + 1).drop_last() =~= es.take(i as int));
        assert(es.take(i + 1).last() == h.commands@[i as int]@);
        match &h.commands[i] {
            CommandEntry::Inline(c) => {
                let ghost before = out@.map_values(|c: &Command| c@);
                out.push(c);
                assert(out@.map_values(|c: &Command| c@) =~= before.push(c@));
            },
            _ => {},
        }
        i = i + 1;
    }
    assert(es.take(i as int) =~= es);
    out
}

fn has_inline_named(h: &HookConfig, name: &str) -> (b: bool)
    ensures
        b == names_of(inline_cmds(h@.commands)).contains(name@),
{
    let cmds = inline_of(h);
    let ghost cv = cmds@.map_values(|c: &Command| c@);
    let mut i: usize = 0;
    while i < cmds.len()
        invariant
            cv == cmds@.map_values(|c: &Command| c@),
            cv == inline_cmds(h@.commands),
            i <= cmds.len(),
            forall|k: int| 0 <= k < i ==> names_of(cv)[k] != name@,
        decreases cmds.len() - i,
    {
        assert(names_of(cv)[i as int] == cmds@[i as int].name@);
        if str_eq(cmds[i].name.as_str(), name) {
            assert(names_of(cv)[i as int] == name@);
            return true;
        }
        i = i + 1;
    }
    false
}

fn hooks_using(config: &Config, name: &str) -> (r: Vec<String>)
    ensures
        strs_view(r@) == used_in(config.hooks@, name@, 28),
{
    let hooks = all_hooks();
    let mut out: Vec<String> = Vec::new();
    let mut i: usize = 0;
    while i < hooks.len()
        invariant
            hooks@.len() == hook_table().len(),
            forall|k: int| 0 <= k < hooks@.len() ==> info_view(#[trigger] hooks@[k]) == hook_table()[k],
            i <= hooks.len(),
            strs_view(out@) == used_in(config.hooks@, name@, i as nat),
        decreases hooks.len() - i,
    {
        assert(info_view(hooks@[i as int]) == hook_table()[i as int]);
        let uses = match config.hooks.get(hooks[i].name) {
            Some(h) => has_inline_named(h, name),
            None => false,
        };
        if uses {
            let ghost before = strs_view(out@);
            out.push(string_of(hooks[i].name));
            assert(strs_view(out@) =~= before.push(hook_table()[i as int].0));
        }
        i = i + 1;
    }
    out
}

/// The inline commands of all hooks, the first of each name in hook order,
/// each with the hooks that use its name.
pub fn shared_commands(config: &Config) -> (r: Vec<SharedCommand>)
    ensures
        r@.len() == first_of_each_name(all_inline(config.hooks@, 28)).len(),
        forall|i: int|
            0 <= i < r@.len() ==> shows_shared(
                #[trigger] r@[i],
                first_of_each_name(all_inline(config.hooks@, 28))[i],
                config.hooks@,
            ),
{
    let hooks = all_hooks();
    let mut out: Vec<SharedCommand> = Vec::new();
    let mut seen: Vec<String> = Vec::new();
    let ghost mut chosen: Seq<CommandView> = Seq::empty();
    let mut i: usize = 0;
    while i < hooks.len()
        invariant
            hooks@.len() == hook_table().len(),
            forall|k: int| 0 <= k < hooks@.len() ==> info_view(#[trigger] hooks@[k]) == hook_table()[k],
            i <= hooks.len(),
            chosen == first_of_each_name(all_inline(config.hooks@, i as nat)),
            strs_view(seen@) == names_of(chosen),
            out@.len() == chosen.len(),
            forall|k: int| 0 <= k < out@.len() ==> shows_shared(#[trigger] out@[k], chosen[k], config.hooks@),
        decreases hooks.len() - i,
    {
        assert(info_view(hooks@[i as int]) == hook_table()[i as int]);
        let ghost base = all_inline(config.hooks@, i as nat);
        match config.hooks.get(hooks[i].name) {
            Some(h) => {
                let cmds = inline_of(h);
                let ghost cv = cmds@.map_values(|c: &Command| c@);
                let mut j: usize = 0;
                assert(base + cv.take(0) =~= base);
                while j < cmds.len()
                    invariant
                        cv == cmds@.map_values(|c: &Command| c@),
                        j <= cmds.len(),
                        chosen == first_of_each_name(base + cv.take(j as int)),
                        strs_view(seen@) == names_of(chosen),
                        out@.len() == chosen.len(),
                        forall|k: int| 0 <= k < out@.len() ==> shows_shared(#[trigger] out@[k], chosen[k], config.hooks@),
                    decreases cmds.len() - j,
                {
                    let c = cmds[j];
                    assert((base + cv.take(j + 1)).drop_last() =~= base + cv.take(j as int));
                    assert((base + cv.take(j + 1)).last() == c@);
                    let mut known = false;
                    let mut q: usize = 0;
                    while q < seen.len()
                        invariant
                            q <= seen.len(),
                            known == exists|k: int| 0 <= k < q && #[trigger] seen@[k]@ == c.name@,
                        decreases seen.len() - q,
                    {
                        if str_eq(seen[q].as_str(), c.name.as_str()) {
                            known = true;
                        }
                        q = q + 1;
                    }
                    assert(known == names_of(chosen).contains(c.name@)) by {
                        if known {
                            let k = choose|k: int| 0 <= k < seen@.len() && #[trigger] seen@[k]@ == c.name@;
                            assert(strs_view(seen@)[k] == names_of(chosen)[k]);
                        }
                        if names_of(chosen).contains(c.name@) {
                            let k = choose|k: int| 0 <= k < names_of(chosen).len() && names_of(chosen)[k] == c.name@;
                            assert(strs_view(seen@)[k] == seen@[k]@);
                        }
                    }
                    if !known {
                        let used = hooks_using(config, c.name.as_str());
                        let ghost before_seen = strs_view(seen@);
                        seen.push(c.name.clone());
                        assert(strs_view(seen@) =~= before_seen.push(c.name@));
                        out.push(SharedCommand { name: c.name.clone(), run: c.run.clone(), test: c.test, used_in: used });
                        proof {
                            chosen = chosen.push(c@);
                        }
                        assert(names_of(chosen) =~= before_seen.push(c.name@));
                    }
                    j = j + 1;
                }
                assert(cv.take(j as int) =~= cv);
            },
            None => {
                assert(base + Seq::<CommandView>::empty() =~= base);
            },
        }
        i = i + 1;
    }
    out
}

// ---------------------------------------------------------------------------
// Definitions
// ---------------------------------------------------------------------------

/// A definition as the UI shows it.
#[derive(Debug)]
pub struct DefinitionRow {
    pub name: String,
    /// `single` or `list`.
    pub def_type: String,
    pub commands: Vec<Command>,
}

/// Whether `row` shows definition `d` named `name`.
pub open spec fn shows_definition(row: DefinitionRow, name: Seq<char>, d: DefView) -> bool {
    &&& row.name@ == name
    &&& row.def_type@ == match d {
        DefView::Single(_) => "single"@,
        DefView::List(_) => "list"@,
    }
    &&& commands_view(row.commands@) == match d {
        DefView::Single(c) => seq![c],
        DefView::List(cs) => cs,
    }
}

/// The names of the definitions, in their order.
pub open spec fn def_keys(defs: Seq<(Seq<char>, DefView)>) -> Seq<Seq<char>> {
    defs.map_values(|e: (Seq<char>, DefView)| e.0)
}

/// The definitions in key order, as a map keyed by name lists them.
pub fn definition_rows(defs: &NameMap<DefinitionEntry>) -> (r: Vec<DefinitionRow>)
    ensures
        exists|order: Seq<usize>|
            #[trigger] sorted_positions(def_keys(defs@), order) && r@.len() == order.len()
                && forall|i: int|
                0 <= i < r@.len() ==> shows_definition(
                    #[trigger] r@[i],
                    defs@[order[i] as int].0,
                    defs@[order[i] as int].1,
                ),
{
    let mut names: Vec<String> = Vec::new();
    let mut k: usize = 0;
    while k < defs.entries.len()
        invariant
            k <= defs.entries.len(),
            strs_view(names@) == def_keys(defs@).take(k as int),
        decreases defs.entries.len() - k,
    {
        let ghost before = strs_view(names@);
        let ghost keys = def_keys(defs@);
        assert(keys[k as int] == defs.entries@[k as int].0@);
        names.push(defs.entries[k].0.clone());
        assert(strs_view(names@) =~= before.push(keys[k as int]));
        assert(keys.take(k + 1) =~= keys.take(k as int).push(keys[k as int]));
        k = k + 1;
    }
    assert(strs_view(names@) =~= def_keys(defs@));
    assert(names@.map_values(|s: String| s@) == strs_view(names@));
    let order = sort_positions(&names);
    let mut out: Vec<DefinitionRow> = Vec::new();
    let mut i: usize = 0;
    while i < order.len()
        invariant
            sorted_positions(def_keys(defs@), order@),
            defs@.len() == defs.entries@.len(),
            i <= order.len(),
            out@.len() == i,
            forall|k: int|
                0 <= k < i ==> shows_definition(
                    #[trigger] out@[k],
                    defs@[order@[k] as int].0,
                    defs@[order@[k] as int].1,
                ),
        decreases order.len() - i,
    {
        let p = order[i];
        let (name, entry) = (&defs.entries[p].0, &defs.entries[p].1);
        let row = match entry {
            DefinitionEntry::Single(c) => {
                let mut v: Vec<Command> = Vec::new();
                v.push(c.duplicate());
                assert(commands_view(v@) =~= seq![c@]);
                DefinitionRow { name: name.clone(), def_type: string_of("single"), commands: v }
            },
            DefinitionEntry::List(cs) => DefinitionRow {
                name: name.clone(),
                def_type: string_of("list"),
                commands: dup_commands(cs),
            },
        };
        out.push(row);
        i = i + 1;
    }
    assert(sorted_positions(def_keys(defs@), order@));
    out
}

} // verus!
