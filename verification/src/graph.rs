//! The editing operations of the graph UI: turning edited rows back into
//! configuration entries, renaming commands and definitions across hooks,
//! and applying an update request to a configuration.
use vstd::prelude::*;
use crate::check::{dep_before, dep_issue, validate_depends_pub, DependsError, DependsErrorView};
use crate::config::{
    commands_view, entries_view, hook_name_at, hook_names, hook_slot, hooks_get, hooks_put, lemma_hook_slots,
    resolve_all, strs_view, CacheView, Command, CommandCache, CommandEntry, CommandView, Config, DefView,
    DefinitionEntry, EntryView, GlobalCache, HookConfig, HookView, RefEntry, RefView, DEFAULT_CACHE_DIR,
};
use crate::namemap::{insert_entry, remove_key, Duplicate, NameMap};
use crate::text::{str_eq, string_of, trim, trim_string};

verus! {

// ---------------------------------------------------------------------------
// Edited rows
// ---------------------------------------------------------------------------

/// The cache block of an edited command.
#[derive(Debug)]
pub struct CommandCacheDto {
    pub inputs: Vec<String>,
    pub key: Vec<String>,
}

/// A command row as the graph UI edits it: an inline command, or a use of a
/// definition (`is_ref`) with optional extra arguments and name override.
#[derive(Debug)]
pub struct CommandDto {
    pub name: String,
    pub run: String,
    pub depends: Vec<String>,
    pub env: NameMap<String>,
    pub test: bool,
    pub is_ref: bool,
    pub ref_name: String,
    /// Extra arguments appended to the definition's run command (refs only).
    pub ref_args: String,
    /// Explicit name override for this ref use-site (empty = use definition name).
    pub name_override: String,
    pub cache: Option<CommandCacheDto>,
}

/// The cache block of an edited row, as a value.
pub open spec fn dto_cache_view(c: Option<CommandCacheDto>) -> Option<CacheView> {
    match c {
        Some(x) => Some(CacheView { inputs: strs_view(x.inputs@), key: strs_view(x.key@) }),
        None => None,
    }
}

/// The command an edited row stands for, ignoring its ref fields.
pub open spec fn dto_command(d: CommandDto) -> CommandView {
    CommandView {
        name: d.name@,
        run: d.run@,
        depends: strs_view(d.depends@),
        env: d.env@,
        test: d.test,
        cache: dto_cache_view(d.cache),
    }
}

/// `Some(s)` for a non-empty `s`, `None` for an empty one.
pub open spec fn non_empty(s: Seq<char>) -> Option<Seq<char>> {
    if s.len() == 0 {
        None
    } else {
        Some(s)
    }
}

/// The entry an edited row stands for.
pub open spec fn dto_entry(d: CommandDto) -> EntryView {
    if d.is_ref {
        EntryView::Ref(RefView { target: d.ref_name@, args: non_empty(d.ref_args@), name: non_empty(d.name_override@) })
    } else {
        EntryView::Inline(dto_command(d))
    }
}

fn non_empty_string(s: String) -> (r: Option<String>)
    ensures
        crate::config::opt_str_view(r) == non_empty(s@),
{
    if s.unicode_len() == 0 {
        None
    } else {
        Some(s)
    }
}

impl CommandDto {
    /// The cache block of the row.
    pub fn into_cache(c: CommandCacheDto) -> (r: CommandCache)
        ensures
            r@ == (CacheView { inputs: strs_view(c.inputs@), key: strs_view(c.key@) }),
    {
        CommandCache { inputs: c.inputs, key: c.key }
    }

    /// The row as an inline command.
    pub fn into_command(self) -> (c: Command)
        ensures
            c@ == dto_command(self),
    {
        let cache = match self.cache {
            Some(c) => Some(CommandDto::into_cache(c)),
            None => None,
        };
        Command { name: self.name, run: self.run, depends: self.depends, env: self.env, test: self.test, cache }
    }

    /// The row as a command-list entry: a `$ref` entry when it uses a
    /// definition (empty arguments and name override left out), an inline
    /// command otherwise.
    pub fn into_entry(self) -> (e: CommandEntry)
        ensures
            e@ == dto_entry(self),
    {
        if self.is_ref {
            CommandEntry::Ref(
                RefEntry {
                    target: self.ref_name,
                    args: non_empty_string(self.ref_args),
                    name: non_empty_string(self.name_override),
                },
            )
        } else {
            CommandEntry::Inline(self.into_command())
        }
    }
}

// ---------------------------------------------------------------------------
// Rewriting every hook
// ---------------------------------------------------------------------------

/// Whether `b` equals `a` but for its hooks.
pub open spec fn same_but_hooks(a: Config, b: Config) -> bool {
    &&& b.version@ == a.version@
    &&& b.includes@ == a.includes@
    &&& b.definitions@ == a.definitions@
    &&& b.cache.enabled == a.cache.enabled
    &&& b.cache.dir == a.cache.dir
}

/// A hook with `f` applied to its command list.
pub open spec fn with_commands(h: Option<HookView>, cmds: Seq<EntryView>) -> Option<HookView> {
    match h {
        Some(v) => Some(HookView { enabled: v.enabled, parallel: v.parallel, commands: cmds }),
        None => None,
    }
}

/// `ds` with every `old` replaced by `new`.
pub open spec fn renamed_deps(ds: Seq<Seq<char>>, old: Seq<char>, new: Seq<char>) -> Seq<Seq<char>> {
    ds.map_values(|d: Seq<char>| if d == old { new } else { d })
}

/// An entry after renaming command `old` to `new`: an inline command named
/// `old` takes the new name (and `run`, when that is not empty), and every
/// inline dependency on `old` follows the rename.
pub open spec fn rename_entry(e: EntryView, old: Seq<char>, new: Seq<char>, run: Seq<char>) -> EntryView {
    match e {
        EntryView::Inline(c) => EntryView::Inline(
            CommandView {
                name: if c.name == old { new } else { c.name },
                run: if c.name == old && run.len() > 0 { run } else { c.run },
                depends: renamed_deps(c.depends, old, new),
                ..c
            },
        ),
        _ => e,
    }
}

/// The hooks after renaming command `old` to `new` everywhere.
pub open spec fn renamed_hooks(h: Seq<Option<HookView>>, old: Seq<char>, new: Seq<char>, run: Seq<char>) -> Seq<
    Option<HookView>,
> {
    h.map_values(
        |x: Option<HookView>|
            match x {
                Some(v) => with_commands(x, v.commands.map_values(|e: EntryView| rename_entry(e, old, new, run))),
                None => None,
            },
    )
}

/// An entry after renaming definition `old` to `new`: `$ref` entries follow.
pub open spec fn retarget_entry(e: EntryView, old: Seq<char>, new: Seq<char>) -> EntryView {
    match e {
        EntryView::Ref(r) => if r.target == old {
            EntryView::Ref(RefView { target: new, ..r })
        } else {
            e
        },
        _ => e,
    }
}

/// The hooks after renaming definition `old` to `new`.
pub open spec fn retargeted_hooks(h: Seq<Option<HookView>>, old: Seq<char>, new: Seq<char>) -> Seq<Option<HookView>> {
    h.map_values(
        |x: Option<HookView>|
            match x {
                Some(v) => with_commands(x, v.commands.map_values(|e: EntryView| retarget_entry(e, old, new))),
                None => None,
            },
    )
}

/// Whether `e` is a `$ref` entry to definition `name`.
pub open spec fn refers_to(e: EntryView, name: Seq<char>) -> bool {
    match e {
        EntryView::Ref(r) => r.target == name,
        _ => false,
    }
}

/// The entries without the `$ref` entries to `name`, the others in order.
pub open spec fn drop_refs(es: Seq<EntryView>, name: Seq<char>) -> Seq<EntryView>
    decreases es.len(),
{
    if es.len() == 0 {
        Seq::empty()
    } else {
        let prev = drop_refs(es.drop_last(), name);
        if refers_to(es.last(), name) {
            prev
        } else {
            prev.push(es.last())
        }
    }
}

/// The hooks without any `$ref` entry to definition `name`.
pub open spec fn unreferenced_hooks(h: Seq<Option<HookView>>, name: Seq<char>) -> Seq<Option<HookView>> {
    h.map_values(
        |x: Option<HookView>|
            match x {
                Some(v) => with_commands(x, drop_refs(v.commands, name)),
                None => None,
            },
    )
}

fn rename_command_entry(e: &CommandEntry, old: &str, new: &str, run: &str) -> (r: CommandEntry)
    ensures
        r@ == rename_entry(e@, old@, new@, run@),
{
    match e {
        CommandEntry::Inline(c) => {
            let hit = str_eq(c.name.as_str(), old);
            let name = if hit {
                string_of(new)
            } else {
                c.name.clone()
            };
            let run2 = if hit && run.unicode_len() > 0 {
                string_of(run)
            } else {
                c.run.clone()
            };
            let mut depends: Vec<String> = Vec::new();
            let mut k: usize = 0;
            while k < c.depends.len()
                invariant
                    k <= c.depends.len(),
                    strs_view(depends@) == renamed_deps(strs_view(c.depends@), old@, new@).take(k as int),
                decreases c.depends.len() - k,
            {
                let d = if str_eq(c.depends[k].as_str(), old) {
                    string_of(new)
                } else {
                    c.depends[k].clone()
                };
                let ghost before = strs_view(depends@);
                let ghost rd = renamed_deps(strs_view(c.depends@), old@, new@);
                depends.push(d);
                assert(strs_view(depends@) =~= before.push(rd[k as int]));
                assert(rd.take(k + 1) =~= rd.take(k as int).push(rd[k as int]));
                k = k + 1;
            }
            assert(renamed_deps(strs_view(c.depends@), old@, new@).take(k as int) =~= renamed_deps(
                strs_view(c.depends@),
                old@,
                new@,
            ));
            let cache = match &c.cache {
                Some(x) => Some(x.duplicate()),
                None => None,
            };
            CommandEntry::Inline(
                Command { name, run: run2, depends, env: c.env.duplicate(), test: c.test, cache },
            )
        },
        other => other.duplicate(),
    }
}

fn retarget_command_entry(e: &CommandEntry, old: &str, new: &str) -> (r: CommandEntry)
    ensures
        r@ == retarget_entry(e@, old@, new@),
{
    match e {
        CommandEntry::Ref(x) => {
            if str_eq(x.target.as_str(), old) {
                CommandEntry::Ref(
                    RefEntry {
                        target: string_of(new),
                        args: crate::config::dup_opt_string(&x.args),
                        name: crate::config::dup_opt_string(&x.name),
                    },
                )
            } else {
                e.duplicate()
            }
        },
        other => other.duplicate(),
    }
}

/// Renames the inline command `old_name` to `new_name` in every hook, with
/// the dependencies on it; a non-empty `new_run` replaces its script too.
pub fn update_command_in_all_hooks(old_name: &str, new_name: &str, new_run: &str, config: &mut Config)
    ensures
        same_but_hooks(*old(config), *final(config)),
        final(config).hooks@ == renamed_hooks(old(config).hooks@, old_name@, new_name@, new_run@),
{
    let ghost h0 = config.hooks@;
    let ghost target = renamed_hooks(h0, old_name@, new_name@, new_run@);
    proof {
        lemma_hook_slots();
    }
    let mut i: usize = 0;
    while i < 28
        invariant
            h0 == old(config).hooks@,
            target == renamed_hooks(h0, old_name@, new_name@, new_run@),
            h0.len() == 28,
            i <= 28,
            same_but_hooks(*old(config), *config),
            config.hooks@.len() == 28,
            forall|s: int| 0 <= s < 28 ==> #[trigger] config.hooks@[s] == if s < i { target[s] } else { h0[s] },
            forall|s: int| 0 <= s < 28 ==> #[trigger] hook_slot(hook_names()[s]) == s,
        decreases 28 - i,
    {
        let name = hook_name_at(i);
        let update = match config.hooks.get(name) {
            Some(h) => {
                let mut cmds: Vec<CommandEntry> = Vec::new();
                let mut k: usize = 0;
                while k < h.commands.len()
                    invariant
                        k <= h.commands.len(),
                        entries_view(cmds@) == entries_view(h.commands@).map_values(
                            |e: EntryView| rename_entry(e, old_name@, new_name@, new_run@),
                        ).take(k as int),
                    decreases h.commands.len() - k,
                {
                    let e = rename_command_entry(&h.commands[k], old_name, new_name, new_run);
                    let ghost mapped = entries_view(h.commands@).map_values(|e: EntryView| rename_entry(e, old_name@, new_name@, new_run@));
                    let ghost before = entries_view(cmds@);
                    assert(mapped[k as int] == e@);
                    cmds.push(e);
                    assert(entries_view(cmds@) =~= before.push(mapped[k as int]));
                    assert(mapped.take(k + 1) =~= mapped.take(k as int).push(mapped[k as int]));
                    k = k + 1;
                }
                assert(entries_view(h.commands@).map_values(
                    |e: EntryView| rename_entry(e, old_name@, new_name@, new_run@),
                ).take(k as int) =~= entries_view(h.commands@).map_values(
                    |e: EntryView| rename_entry(e, old_name@, new_name@, new_run@),
                ));
                Some(HookConfig { enabled: h.enabled, parallel: h.parallel, commands: cmds })
            },
            None => None,
        };
        match update {
            Some(cfg) => {
                config.hooks.set(name, cfg);
            },
            None => {},
        }
        assert forall|s: int| 0 <= s < 28 implies #[trigger] config.hooks@[s] == if s < i + 1 {
            target[s]
        } else {
            h0[s]
        } by {}
        i = i + 1;
    }
    assert(config.hooks@ =~= target);
}

/// Points every `$ref` entry to definition `old_name` at `new_name`.
pub fn update_def_ref_in_all_hooks(old_name: &str, new_name: &str, config: &mut Config)
    ensures
        same_but_hooks(*old(config), *final(config)),
        final(config).hooks@ == retargeted_hooks(old(config).hooks@, old_name@, new_name@),
{
    let ghost h0 = config.hooks@;
    let ghost target = retargeted_hooks(h0, old_name@, new_name@);
    proof {
        lemma_hook_slots();
    }
    let mut i: usize = 0;
    while i < 28
        invariant
            h0 == old(config).hooks@,
            target == retargeted_hooks(h0, old_name@, new_name@),
            h0.len() == 28,
            i <= 28,
            same_but_hooks(*old(config), *config),
            config.hooks@.len() == 28,
            forall|s: int| 0 <= s < 28 ==> #[trigger] config.hooks@[s] == if s < i { target[s] } else { h0[s] },
            forall|s: int| 0 <= s < 28 ==> #[trigger] hook_slot(hook_names()[s]) == s,
        decreases 28 - i,
    {
        let name = hook_name_at(i);
        let update = match config.hooks.get(name) {
            Some(h) => {
                let mut cmds: Vec<CommandEntry> = Vec::new();
                let mut k: usize = 0;
                while k < h.commands.len()
                    invariant
                        k <= h.commands.len(),
                        entries_view(cmds@) == entries_view(h.commands@).map_values(
                            |e: EntryView| retarget_entry(e, old_name@, new_name@),
                        ).take(k as int),
                    decreases h.commands.len() - k,
                {
                    let e = retarget_command_entry(&h.commands[k], old_name, new_name);
                    let ghost mapped = entries_view(h.commands@).map_values(|e: EntryView| retarget_entry(e, old_name@, new_name@));
                    let ghost before = entries_view(cmds@);
                    assert(mapped[k as int] == e@);
                    cmds.push(e);
                    assert(entries_view(cmds@) =~= before.push(mapped[k as int]));
                    assert(mapped.take(k + 1) =~= mapped.take(k as int).push(mapped[k as int]));
                    k = k + 1;
                }
                assert(entries_view(h.commands@).map_values(|e: EntryView| retarget_entry(e, old_name@, new_name@)).take(
                    k as int,
                ) =~= entries_view(h.commands@).map_values(|e: EntryView| retarget_entry(e, old_name@, new_name@)));
                Some(HookConfig { enabled: h.enabled, parallel: h.parallel, commands: cmds })
            },
            None => None,
        };
        match update {
            Some(cfg) => {
                config.hooks.set(name, cfg);
            },
            None => {},
        }
        assert forall|s: int| 0 <= s < 28 implies #[trigger] config.hooks@[s] == if s < i + 1 {
            target[s]
        } else {
            h0[s]
        } by {}
        i = i + 1;
    }
    assert(config.hooks@ =~= target);
}

/// Removes every `$ref` entry to definition `def_name` from every hook.
pub fn remove_def_refs_from_hooks(def_name: &str, config: &mut Config)
    ensures
        same_but_hooks(*old(config), *final(config)),
        final(config).hooks@ == unreferenced_hooks(old(config).hooks@, def_name@),
{
    let ghost h0 = config.hooks@;
    let ghost target = unreferenced_hooks(h0, def_name@);
    proof {
        lemma_hook_slots();
    }
    let mut i: usize = 0;
    while i < 28
        invariant
            h0 == old(config).hooks@,
            target == unreferenced_hooks(h0, def_name@),
            h0.len() == 28,
            i <= 28,
            same_but_hooks(*old(config), *config),
            config.hooks@.len() == 28,
            forall|s: int| 0 <= s < 28 ==> #[trigger] config.hooks@[s] == if s < i { target[s] } else { h0[s] },
            forall|s: int| 0 <= s < 28 ==> #[trigger] hook_slot(hook_names()[s]) == s,
        decreases 28 - i,
    {
        let name = hook_name_at(i);
        let update = match config.hooks.get(name) {
            Some(h) => {
                let ghost ev = entries_view(h.commands@);
                let mut cmds: Vec<CommandEntry> = Vec::new();
                let mut k: usize = 0;
                while k < h.commands.len()
                    invariant
                        ev == entries_view(h.commands@),
                        k <= h.commands.len(),
                        entries_view(cmds@) == drop_refs(ev.take(k as int), def_name@),
                    decreases h.commands.len() - k,
                {
                    assert(ev.take(k + 1).drop_last() =~= ev.take(k as int));
                    let drop = match &h.commands[k] {
                        CommandEntry::Ref(r) => str_eq(r.target.as_str(), def_name),
                        _ => false,
                    };
                    if !drop {
                        let ghost before = entries_view(cmds@);
                        cmds.push(h.commands[k].duplicate());
                        assert(entries_view(cmds@) =~= before.push(ev[k as int]));
                    }
                    k = k + 1;
                }
                assert(ev.take(k as int) =~= ev);
                Some(HookConfig { enabled: h.enabled, parallel: h.parallel, commands: cmds })
            },
            None => None,
        };
        match update {
            Some(cfg) => {
                config.hooks.set(name, cfg);
            },
            None => {},
        }
        assert forall|s: int| 0 <= s < 28 implies #[trigger] config.hooks@[s] == if s < i + 1 {
            target[s]
        } else {
            h0[s]
        } by {}
        i = i + 1;
    }
    assert(config.hooks@ =~= target);
}

/// After renaming command `old` to another name, no inline command of any
/// hook is named `old` or depends on `old`.
pub proof fn law_rename_leaves_no_old_name(
    h: Seq<Option<HookView>>,
    old: Seq<char>,
    new: Seq<char>,
    run: Seq<char>,
    s: int,
    j: int,
)
    requires
        old != new,
        0 <= s < h.len(),
        renamed_hooks(h, old, new, run)[s] is Some,
        0 <= j < renamed_hooks(h, old, new, run)[s].unwrap().commands.len(),
    ensures
        match renamed_hooks(h, old, new, run)[s].unwrap().commands[j] {
            EntryView::Inline(c) => c.name != old && !c.depends.contains(old),
            _ => true,
        },
{
    let v = h[s].unwrap();
    let e = v.commands[j];
    match e {
        EntryView::Inline(c) => {
            let ds = renamed_deps(c.depends, old, new);
            if ds.contains(old) {
                let q = choose|q: int| 0 <= q < ds.len() && ds[q] == old;
                assert(ds[q] == (if c.depends[q] == old { new } else { c.depends[q] }));
            }
        },
        _ => {},
    }
}

/// After renaming definition `old` to another name, no `$ref` entry of any
/// hook points at `old`.
pub proof fn law_retarget_leaves_no_old_ref(h: Seq<Option<HookView>>, old: Seq<char>, new: Seq<char>, s: int, j: int)
    requires
        old != new,
        0 <= s < h.len(),
        retargeted_hooks(h, old, new)[s] is Some,
        0 <= j < retargeted_hooks(h, old, new)[s].unwrap().commands.len(),
    ensures
        !refers_to(retargeted_hooks(h, old, new)[s].unwrap().commands[j], old),
{
}

proof fn lemma_drop_refs(es: Seq<EntryView>, name: Seq<char>)
    ensures
        forall|j: int| 0 <= j < drop_refs(es, name).len() ==> !refers_to(#[trigger] drop_refs(es, name)[j], name),
        forall|j: int| 0 <= j < drop_refs(es, name).len() ==> es.contains(#[trigger] drop_refs(es, name)[j]),
        forall|j: int| 0 <= j < es.len() && !refers_to(es[j], name) ==> drop_refs(es, name).contains(#[trigger] es[j]),
    decreases es.len(),
{
    if es.len() > 0 {
        let prev = drop_refs(es.drop_last(), name);
        lemma_drop_refs(es.drop_last(), name);
        assert forall|j: int| 0 <= j < drop_refs(es, name).len() implies es.contains(#[trigger] drop_refs(es, name)[j]) by {
            if j < prev.len() {
                let k = choose|k: int| 0 <= k < es.len() - 1 && es.drop_last()[k] == prev[j];
                assert(es[k] == prev[j]);
            } else {
                assert(es[es.len() - 1] == drop_refs(es, name)[j]);
            }
        }
        assert forall|j: int| 0 <= j < es.len() && !refers_to(es[j], name) implies drop_refs(es, name).contains(
            #[trigger] es[j],
        ) by {
            if j < es.len() - 1 {
                assert(es.drop_last()[j] == es[j]);
                let k = choose|k: int| 0 <= k < prev.len() && prev[k] == es[j];
                assert(drop_refs(es, name)[k] == es[j]);
            } else {
                assert(drop_refs(es, name)[prev.len() as int] == es[j]);
            }
        }
    }
}

/// Deleting the `$ref` entries to a definition leaves no entry pointing at
/// it, removes nothing else, and adds nothing.
pub proof fn law_drop_refs(es: Seq<EntryView>, name: Seq<char>, e: EntryView)
    ensures
        drop_refs(es, name).contains(e) <==> (es.contains(e) && !refers_to(e, name)),
{
    lemma_drop_refs(es, name);
    if drop_refs(es, name).contains(e) {
        let j = choose|j: int| 0 <= j < drop_refs(es, name).len() && drop_refs(es, name)[j] == e;
    }
    if es.contains(e) && !refers_to(e, name) {
        let j = choose|j: int| 0 <= j < es.len() && es[j] == e;
    }
}

// ---------------------------------------------------------------------------
// Update requests
// ---------------------------------------------------------------------------

/// An edit sent by the graph UI.
#[derive(Debug)]
pub struct UpdateRequest {
    /// `update`, `remove`, `update-command`, `update-definition` or
    /// `delete-definition`.
    pub action: String,
    pub hook: String,
    pub enabled: bool,
    pub parallel: bool,
    pub commands: Vec<CommandDto>,
    pub old_name: String,
    pub name: String,
    pub run: String,
    pub def_type: String,
}

/// Why an update request is refused.
#[derive(Debug)]
pub enum UpdateError {
    /// The new command list of a hook has a bad dependency.
    Depends(DependsError),
    MissingOldName,
    MissingName,
    EmptyDefinitionName,
    UnknownAction(String),
}

impl UpdateError {
    /// The message reported to the UI.
    pub fn message(&self) -> (s: String)
        ensures
            s@ == match self {
                UpdateError::Depends(e) => crate::check::depends_message(e@),
                UpdateError::MissingOldName => "oldName is required for update-command"@,
                UpdateError::MissingName => "name is required for update-command"@,
                UpdateError::EmptyDefinitionName => "Definition name cannot be empty"@,
                UpdateError::UnknownAction(a) => "Unknown action: "@ + a@,
            },
    {
        match self {
            UpdateError::Depends(e) => e.message(),
            UpdateError::MissingOldName => string_of("oldName is required for update-command"),
            UpdateError::MissingName => string_of("name is required for update-command"),
            UpdateError::EmptyDefinitionName => string_of("Definition name cannot be empty"),
            UpdateError::UnknownAction(a) => {
                let mut s = string_of("Unknown action: ");
                crate::text::push_str(&mut s, a.as_str());
                s
            },
        }
    }
}

/// No dependency of `c` is objected to.
pub open spec fn deps_valid(c: Seq<CommandView>) -> bool {
    forall|i: int, q: int| 0 <= i < c.len() && 0 <= q < c[i].depends.len() ==> #[trigger] dep_issue(c, i, q) is None
}

/// `e` is the first objection to a dependency of `c`, in reading order.
pub open spec fn first_dep_issue(c: Seq<CommandView>, e: DependsErrorView) -> bool {
    exists|i: int, q: int|
        0 <= i < c.len() && 0 <= q < c[i].depends.len() && #[trigger] dep_issue(c, i, q) == Some(e) && forall|
            i2: int,
            q2: int,
        |
            0 <= i2 < c.len() && 0 <= q2 < c[i2].depends.len() && dep_before(i2, q2, i, q) ==> #[trigger] dep_issue(
                c,
                i2,
                q2,
            ) is None
}

/// Whether `b` equals `a` in every part.
pub open spec fn same_config(a: Config, b: Config) -> bool {
    same_but_hooks(a, b) && b.hooks@ == a.hooks@
}

/// The entries of the rows of a request.
pub open spec fn request_entries(req: UpdateRequest) -> Seq<EntryView> {
    req.commands@.map_values(|d: CommandDto| dto_entry(d))
}

/// The definition an `update-definition` request stores under `def`.
pub open spec fn request_definition(req: UpdateRequest, def: Seq<char>) -> DefView {
    if req.def_type@ == "list"@ {
        DefView::List(req.commands@.map_values(|d: CommandDto| dto_command(d)))
    } else if req.commands@.len() > 0 {
        DefView::Single(dto_command(req.commands@[0]))
    } else {
        DefView::Single(
            CommandView { name: def, run: req.run@, depends: Seq::empty(), env: Seq::empty(), test: false, cache: None },
        )
    }
}

/// What applying `req` to a configuration whose hooks are `h` and
/// definitions `d` does, when it succeeds: the new hooks and definitions.
/// `None` when the request is refused.
pub open spec fn update_effect(
    h: Seq<Option<HookView>>,
    d: Seq<(Seq<char>, DefView)>,
    req: UpdateRequest,
) -> Option<(Seq<Option<HookView>>, Seq<(Seq<char>, DefView)>)> {
    let a = req.action@;
    if a == "update"@ {
        if deps_valid(resolve_all(request_entries(req), d)) {
            Some(
                (
                    hooks_put(
                        h,
                        req.hook@,
                        Some(HookView { enabled: req.enabled, parallel: req.parallel, commands: request_entries(req) }),
                    ),
                    d,
                ),
            )
        } else {
            None
        }
    } else if a == "remove"@ {
        Some((hooks_put(h, req.hook@, None), d))
    } else if a == "update-command"@ {
        if req.old_name@.len() == 0 || req.name@.len() == 0 {
            None
        } else {
            Some((renamed_hooks(h, req.old_name@, req.name@, req.run@), d))
        }
    } else if a == "update-definition"@ {
        let def = trim(req.name@);
        let old = trim(req.old_name@);
        if def.len() == 0 {
            None
        } else if old.len() > 0 && old != def {
            Some((retargeted_hooks(h, old, def), insert_entry(remove_key(d, old), def, request_definition(req, def))))
        } else {
            Some((h, insert_entry(d, def, request_definition(req, def))))
        }
    } else if a == "delete-definition"@ {
        let def = trim(req.name@);
        Some((unreferenced_hooks(h, def), remove_key(d, def)))
    } else {
        None
    }
}

/// The error of a refused request.
pub open spec fn update_refusal(d: Seq<(Seq<char>, DefView)>, req: UpdateRequest, e: UpdateError) -> bool {
    let a = req.action@;
    if a == "update"@ {
        e matches UpdateError::Depends(x) && first_dep_issue(resolve_all(request_entries(req), d), x@)
    } else if a == "update-command"@ {
        if req.old_name@.len() == 0 {
            e is MissingOldName
        } else {
            e is MissingName
        }
    } else if a == "update-definition"@ {
        e is EmptyDefinitionName
    } else {
        e matches UpdateError::UnknownAction(x) && x@ == a
    }
}

fn dto_entries(dtos: Vec<CommandDto>) -> (r: Vec<CommandEntry>)
    ensures
        entries_view(r@) == dtos@.map_values(|d: CommandDto| dto_entry(d)),
{
    let ghost target = dtos@.map_values(|d: CommandDto| dto_entry(d));
    let mut rest = dtos;
    let mut out: Vec<CommandEntry> = Vec::new();
    let ghost n = rest@.len();
    while rest.len() > 0
        invariant
            target.len() == n,
            out@.len() + rest@.len() == n,
            entries_view(out@) == target.take(out@.len() as int),
            forall|k: int| 0 <= k < rest@.len() ==> dto_entry(#[trigger] rest@[k]) == target[out@.len() + k],
        decreases rest.len(),
    {
        let ghost d = out@.len() as int;
        let ghost old_rest = rest@;
        assert(dto_entry(old_rest[0]) == target[d]);
        let x = rest.remove(0);
        assert forall|k: int| 0 <= k < rest@.len() implies dto_entry(#[trigger] rest@[k]) == target[out@.len() + 1 + k] by {
            assert(rest@[k] == old_rest[k + 1]);
        }
        let ghost before = entries_view(out@);
        out.push(x.into_entry());
        assert(entries_view(out@) =~= before.push(target[d]));
        assert(target.take(d + 1) =~= target.take(d).push(target[d]));
    }
    assert(target.take(n as int) =~= target);
    out
}

fn dto_commands(dtos: Vec<CommandDto>) -> (r: Vec<Command>)
    ensures
        commands_view(r@) == dtos@.map_values(|d: CommandDto| dto_command(d)),
{
    let ghost target = dtos@.map_values(|d: CommandDto| dto_command(d));
    let mut rest = dtos;
    let mut out: Vec<Command> = Vec::new();
    let ghost n = rest@.len();
    while rest.len() > 0
        invariant
            target.len() == n,
            out@.len() + rest@.len() == n,
            commands_view(out@) == target.take(out@.len() as int),
            forall|k: int| 0 <= k < rest@.len() ==> dto_command(#[trigger] rest@[k]) == target[out@.len() + k],
        decreases rest.len(),
    {
        let ghost d = out@.len() as int;
        let ghost old_rest = rest@;
        assert(dto_command(old_rest[0]) == target[d]);
        let x = rest.remove(0);
        assert forall|k: int| 0 <= k < rest@.len() implies dto_command(#[trigger] rest@[k]) == target[out@.len() + 1 + k] by {
            assert(rest@[k] == old_rest[k + 1]);
        }
        let ghost before = commands_view(out@);
        out.push(x.into_command());
        assert(commands_view(out@) =~= before.push(target[d]));
        assert(target.take(d + 1) =~= target.take(d).push(target[d]));
    }
    assert(target.take(n as int) =~= target);
    out
}

/// Applies an edit from the graph UI to `config`. A refused edit leaves the
/// configuration as it was.
pub fn api_update(req: UpdateRequest, config: &mut Config) -> (r: Result<(), UpdateError>)
    ensures
        final(config).version@ == old(config).version@,
        final(config).includes@ == old(config).includes@,
        final(config).cache.enabled == old(config).cache.enabled,
        final(config).cache.dir == old(config).cache.dir,
        match update_effect(old(config).hooks@, old(config).definitions@, req) {
            Some((h, d)) => r is Ok && final(config).hooks@ == h && final(config).definitions@ == d,
            None => r matches Err(e) && update_refusal(old(config).definitions@, req, e) && same_config(
                *old(config),
                *final(config),
            ),
        },
{
    let ghost req0 = req;
    let a = req.action.as_str();
    if str_eq(a, "update") {
        let ghost es = request_entries(req);
        let commands = dto_entries(req.commands);
        let temp = HookConfig { enabled: req.enabled, parallel: req.parallel, commands };
        let resolved = temp.resolved_commands(&config.definitions);
        match validate_depends_pub(&resolved) {
            Ok(()) => {
                config.hooks.set(req.hook.as_str(), temp);
                Ok(())
            },
            Err(e) => {
                Err(UpdateError::Depends(e))
            },
        }
    } else if str_eq(a, "remove") {
        config.hooks.remove(req.hook.as_str());
        Ok(())
    } else if str_eq(a, "update-command") {
        if req.old_name.unicode_len() == 0 {
            return Err(UpdateError::MissingOldName);
        }
        if req.name.unicode_len() == 0 {
            return Err(UpdateError::MissingName);
        }
        update_command_in_all_hooks(req.old_name.as_str(), req.name.as_str(), req.run.as_str(), config);
        Ok(())
    } else if str_eq(a, "update-definition") {
        let def_name = trim_string(req.name.as_str());
        let old_name = trim_string(req.old_name.as_str());
        if def_name.unicode_len() == 0 {
            return Err(UpdateError::EmptyDefinitionName);
        }
        let entry = if str_eq(req.def_type.as_str(), "list") {
            DefinitionEntry::List(dto_commands(req.commands))
        } else {
            let mut cmds = req.commands;
            if cmds.len() > 0 {
                let first = cmds.remove(0);
                DefinitionEntry::Single(first.into_command())
            } else {
                let c = Command {
                    name: def_name.clone(),
                    run: req.run,
                    depends: Vec::new(),
                    env: NameMap::new(),
                    test: false,
                    cache: None,
                };
                assert(strs_view(c.depends@) =~= Seq::<Seq<char>>::empty());
                DefinitionEntry::Single(c)
            }
        };
        assert(entry@ == request_definition(req0, def_name@));
        if old_name.unicode_len() != 0 && !str_eq(old_name.as_str(), def_name.as_str()) {
            config.definitions.remove(old_name.as_str());
            update_def_ref_in_all_hooks(old_name.as_str(), def_name.as_str(), config);
        }
        config.definitions.insert(def_name, entry);
        Ok(())
    } else if str_eq(a, "delete-definition") {
        let def_name = trim_string(req.name.as_str());
        config.definitions.remove(def_name.as_str());
        remove_def_refs_from_hooks(def_name.as_str(), config);
        Ok(())
    } else {
        Err(UpdateError::UnknownAction(req.action))
    }
}

// ---------------------------------------------------------------------------
// Other requests
// ---------------------------------------------------------------------------

/// The update action a request method of the UI stands for.
pub open spec fn method_action(method: Seq<char>) -> Option<Seq<char>> {
    if method == "hook.update"@ {
        Some("update"@)
    } else if method == "hook.remove"@ {
        Some("remove"@)
    } else if method == "command.update"@ {
        Some("update-command"@)
    } else if method == "definition.update"@ {
        Some("update-definition"@)
    } else if method == "definition.delete"@ {
        Some("delete-definition"@)
    } else {
        None
    }
}

/// The update action of a request method, if it is an editing method.
pub fn ws_update_action(method: &str) -> (r: Option<&'static str>)
    ensures
        match r {
            Some(a) => method_action(method@) == Some(a@),
            None => method_action(method@) is None,
        },
{
    if str_eq(method, "hook.update") {
        Some("update")
    } else if str_eq(method, "hook.remove") {
        Some("remove")
    } else if str_eq(method, "command.update") {
        Some("update-command")
    } else if str_eq(method, "definition.update") {
        Some("update-definition")
    } else if str_eq(method, "definition.delete") {
        Some("delete-definition")
    } else {
        None
    }
}

/// The cache directory an edit asks for: a non-empty text other than the
/// default directory; anything else means the default.
pub open spec fn requested_dir(d: Option<Seq<char>>) -> Option<Seq<char>> {
    match d {
        Some(s) => if s.len() > 0 && s != DEFAULT_CACHE_DIR@ {
            Some(s)
        } else {
            None
        },
        None => None,
    }
}

/// Applies a cache settings edit: `enabled`, when given, switches caching;
/// `dir`, when the edit has a `dir` field, holds its text (`None` when it is
/// not a string) and sets the directory override.
pub fn update_cache_settings(cache: &mut GlobalCache, enabled: Option<bool>, dir: Option<Option<String>>)
    ensures
        final(cache).enabled == match enabled {
            Some(b) => b,
            None => old(cache).enabled,
        },
        crate::config::opt_str_view(final(cache).dir) == match dir {
            Some(d) => requested_dir(crate::config::opt_str_view(d)),
            None => crate::config::opt_str_view(old(cache).dir),
        },
{
    match enabled {
        Some(b) => {
            cache.enabled = b;
        },
        None => {},
    }
    match dir {
        Some(d) => {
            cache.dir = match d {
                Some(s) => if s.unicode_len() > 0 && !str_eq(s.as_str(), DEFAULT_CACHE_DIR) {
                    Some(s)
                } else {
                    None
                },
                None => None,
            };
        },
        None => {},
    }
    if !cache.enabled && cache.dir.is_none() {
        *cache = GlobalCache::default();
    }
}

// ---------------------------------------------------------------------------
// Watching the configuration file
// ---------------------------------------------------------------------------

/// What a UI connection remembers between events: the modification time of
/// the configuration file (seconds and nanoseconds) when the UI last got the
/// state, `None` when the file had none.
#[derive(Debug)]
pub struct ConfigWatch {
    pub last_mtime: Option<(u64, u32)>,
}

impl ConfigWatch {
    /// On a timer tick that saw modification time `mtime`: whether to push
    /// the state again (the file changed since last time).
    pub fn on_tick(&mut self, mtime: Option<(u64, u32)>) -> (push: bool)
        ensures
            push == (mtime != old(self).last_mtime),
            final(self).last_mtime == if push { mtime } else { old(self).last_mtime },
    {
        let changed = match (self.last_mtime, mtime) {
            (Some(a), Some(b)) => a.0 != b.0 || a.1 != b.1,
            (None, None) => false,
            _ => true,
        };
        if changed {
            self.last_mtime = mtime;
        }
        changed
    }

    /// After answering a request: whether to push the state (the request
    /// changed something), remembering the file's time `mtime` if so.
    pub fn after_reply(&mut self, changed: bool, mtime: Option<(u64, u32)>) -> (push: bool)
        ensures
            push == changed,
            final(self).last_mtime == if changed { mtime } else { old(self).last_mtime },
    {
        if changed {
            self.last_mtime = mtime;
        }
        changed
    }
}

} // verus!
