//! Deciding which hook scripts to write, keep or remove so that the hooks
//! directory matches a configuration.
//!
//! The decision is a pure function of the configuration, of what each hook
//! file currently holds and of the `force` flag; performing it (reading and
//! writing files, printing) is left to the caller.
use vstd::prelude::*;
use crate::config::{commands_view, hooks_get, opt_str_view, resolve_all, Command, CommandView, Config, DefView, HookView};
use crate::hooks::{all_hooks, hook_table};
use crate::text::{contains, decimal, push_decimal, push_str, str_contains};

verus! {

/// Marker written into every hook script so that githops-managed files can be
/// told apart from hand-written ones.
pub const GITHOPS_MARKER: &'static str = "# GITHOPS_MANAGED";

/// The script installed for hook `name` running `count` commands.
pub open spec fn hook_script(name: Seq<char>, count: nat) -> Seq<char> {
    "#!/bin/sh\n"@ + GITHOPS_MARKER@ + "\n# Hook: "@ + name
        + "\n# Managed by githops — do not edit manually.\n# Run `githops sync` to regenerate.\n# Commands configured: "@
        + decimal(count) + "\n\nexec githops check "@ + name + " \"$@\"\n"@
}

/// Every hook script carries the marker.
pub proof fn lemma_script_has_marker(name: Seq<char>, count: nat)
    ensures
        contains(hook_script(name, count), GITHOPS_MARKER@),
{
    reveal_strlit("#!/bin/sh\n");
    reveal_strlit("# GITHOPS_MANAGED");
    let s = hook_script(name, count);
    assert(s.subrange(10, 10 + GITHOPS_MARKER@.len() as int) =~= GITHOPS_MARKER@);
    assert(crate::text::occurs_at(s, GITHOPS_MARKER@, 10));
}

/// The text of the hook script for `hook_name` with `command_count` active
/// commands.
pub fn build_hook_script(hook_name: &str, command_count: usize) -> (s: String)
    ensures
        s@ == hook_script(hook_name@, command_count as nat),
{
    let mut s = String::new();
    push_str(&mut s, "#!/bin/sh\n");
    push_str(&mut s, GITHOPS_MARKER);
    push_str(&mut s, "\n# Hook: ");
    push_str(&mut s, hook_name);
    push_str(
        &mut s,
        "\n# Managed by githops — do not edit manually.\n# Run `githops sync` to regenerate.\n# Commands configured: ",
    );
    push_decimal(&mut s, command_count as u64);
    push_str(&mut s, "\n\nexec githops check ");
    push_str(&mut s, hook_name);
    push_str(&mut s, " \"$@\"\n");
    assert(s@ =~= hook_script(hook_name@, command_count as nat));
    s
}

/// How many of `cmds` run outside test mode.
pub open spec fn active_count(cmds: Seq<CommandView>) -> nat
    decreases cmds.len(),
{
    if cmds.len() == 0 {
        0
    } else {
        active_count(cmds.drop_last()) + if cmds.last().test { 0nat } else { 1nat }
    }
}

/// Counts the commands of `cmds` that are not test-only.
pub fn count_active(cmds: &Vec<Command>) -> (n: usize)
    ensures
        n == active_count(commands_view(cmds@)),
{
    let ghost cv = commands_view(cmds@);
    let mut n: usize = 0;
    let mut i: usize = 0;
    while i < cmds.len()
        invariant
            cv == commands_view(cmds@),
            i <= cmds.len(),
            n <= i,
            n == active_count(cv.take(i as int)),
        decreases cmds.len() - i,
    {
        assert(cv.take(i + 1).drop_last() =~= cv.take(i as int));
        assert(cv.take(i + 1).last() == cmds@[i as int]@);
        if !cmds[i].test {
            n = n + 1;
        }
        i = i + 1;
    }
    assert(cv.take(i as int) =~= cv);
    n
}

/// Whether hook configuration `h` should have a script installed: it exists,
/// is enabled, and has at least one command that is not test-only.
pub open spec fn hook_configured(h: Option<HookView>, defs: Seq<(Seq<char>, DefView)>) -> bool {
    match h {
        Some(c) => c.enabled && active_count(resolve_all(c.commands, defs)) > 0,
        None => false,
    }
}

/// What a sync does to one hook file.
#[derive(Debug)]
pub enum HookAction {
    /// Leave the file as it is (or absent).
    Keep,
    /// Write `script` to the file; `forced` when it replaces a hand-written hook.
    Install { script: String, forced: bool },
    /// A hand-written hook is in the way and `force` was not given.
    Skip,
    /// Delete a githops script whose hook is no longer configured.
    Remove,
}

/// The mathematical value of a [`HookAction`].
pub enum ActionView {
    Keep,
    Install { script: Seq<char>, forced: bool },
    Skip,
    Remove,
}

impl View for HookAction {
    type V = ActionView;

    open spec fn view(&self) -> ActionView {
        match self {
            HookAction::Keep => ActionView::Keep,
            HookAction::Install { script, forced } => ActionView::Install { script: script@, forced: *forced },
            HookAction::Skip => ActionView::Skip,
            HookAction::Remove => ActionView::Remove,
        }
    }
}

/// The action for hook `name` configured as `h`, whose file currently holds
/// `existing` (`None`: no file).
pub open spec fn hook_decision(
    h: Option<HookView>,
    defs: Seq<(Seq<char>, DefView)>,
    name: Seq<char>,
    existing: Option<Seq<char>>,
    force: bool,
) -> ActionView {
    if hook_configured(h, defs) {
        let script = hook_script(name, active_count(resolve_all(h.unwrap().commands, defs)));
        match existing {
            Some(c) => if contains(c, GITHOPS_MARKER@) {
                ActionView::Install { script, forced: false }
            } else if force {
                ActionView::Install { script, forced: true }
            } else {
                ActionView::Skip
            },
            None => ActionView::Install { script, forced: false },
        }
    } else {
        match existing {
            Some(c) => if contains(c, GITHOPS_MARKER@) {
                ActionView::Remove
            } else {
                ActionView::Keep
            },
            None => ActionView::Keep,
        }
    }
}

/// The actions of a sync, one per hook of [`hook_table`], in that order.
pub open spec fn sync_actions(
    hooks: Seq<Option<HookView>>,
    defs: Seq<(Seq<char>, DefView)>,
    existing: Seq<Option<Seq<char>>>,
    force: bool,
) -> Seq<ActionView> {
    Seq::new(
        hook_table().len(),
        |i: int| hook_decision(hooks_get(hooks, hook_table()[i].0), defs, hook_table()[i].0, existing[i], force),
    )
}

/// What the hook files hold after `acts` were carried out on `existing`.
pub open spec fn after_sync(existing: Seq<Option<Seq<char>>>, acts: Seq<ActionView>) -> Seq<Option<Seq<char>>> {
    Seq::new(
        existing.len(),
        |i: int| match acts[i] {
            ActionView::Install { script, .. } => Some(script),
            ActionView::Remove => None,
            _ => existing[i],
        },
    )
}

/// How many of `acts` install a script.
pub open spec fn count_installs(acts: Seq<ActionView>) -> nat
    decreases acts.len(),
{
    if acts.len() == 0 {
        0
    } else {
        count_installs(acts.drop_last()) + if acts.last() is Install { 1nat } else { 0nat }
    }
}

/// How many of `acts` skip a hand-written hook.
pub open spec fn count_skips(acts: Seq<ActionView>) -> nat
    decreases acts.len(),
{
    if acts.len() == 0 {
        0
    } else {
        count_skips(acts.drop_last()) + if acts.last() is Skip { 1nat } else { 0nat }
    }
}

/// The outcome of planning a sync.
#[derive(Debug)]
pub struct SyncPlan {
    /// One action per hook of [`hook_table`], in that order.
    pub actions: Vec<HookAction>,
    /// How many scripts get written.
    pub installed: usize,
    /// How many hand-written hooks are left alone for want of `force`.
    pub skipped: usize,
}

/// The actions of a [`SyncPlan`] as values.
pub open spec fn plan_actions(p: SyncPlan) -> Seq<ActionView> {
    p.actions@.map_values(|a: HookAction| a@)
}

/// Plans a sync of the hooks directory with `config`. `existing[i]` is the
/// content of the file of hook `i` of [`hook_table`] (`None` when there is no
/// such file). Pre-existing hooks without the githops marker are only
/// overwritten when `force` is set.
pub fn plan_sync(config: &Config, existing: &[Option<String>], force: bool) -> (p: SyncPlan)
    requires
        existing@.len() == hook_table().len(),
    ensures
        plan_actions(p) == sync_actions(
            config.hooks@,
            config.definitions@,
            existing@.map_values(|e: Option<String>| opt_str_view(e)),
            force,
        ),
        p.installed == count_installs(plan_actions(p)),
        p.skipped == count_skips(plan_actions(p)),
{
    let ghost ev = existing@.map_values(|e: Option<String>| opt_str_view(e));
    let ghost target = sync_actions(config.hooks@, config.definitions@, ev, force);
    let hooks = all_hooks();
    let mut actions: Vec<HookAction> = Vec::new();
    let mut installed: usize = 0;
    let mut skipped: usize = 0;
    let mut i: usize = 0;
    while i < hooks.len()
        invariant
            hooks@.len() == hook_table().len(),
            forall|k: int| 0 <= k < hooks@.len() ==> crate::hooks::info_view(#[trigger] hooks@[k]) == hook_table()[k],
            existing@.len() == hook_table().len(),
            ev == existing@.map_values(|e: Option<String>| opt_str_view(e)),
            target == sync_actions(config.hooks@, config.definitions@, ev, force),
            i <= hooks.len(),
            actions@.len() == i,
            actions@.map_values(|a: HookAction| a@) == target.take(i as int),
            installed == count_installs(target.take(i as int)),
            skipped == count_skips(target.take(i as int)),
            installed <= i,
            skipped <= i,
        decreases hooks.len() - i,
    {
        let name = hooks[i].name;
        assert(crate::hooks::info_view(hooks@[i as int]) == hook_table()[i as int]);
        let ghost h = hooks_get(config.hooks@, name@);
        let cfg = config.hooks.get(name);
        let mut count: usize = 0;
        let configured = match cfg {
            Some(c) => {
                let resolved = c.resolved_commands(&config.definitions);
                count = count_active(&resolved);
                c.enabled && count > 0
            },
            None => false,
        };
        assert(configured == hook_configured(h, config.definitions@));
        let marked = match &existing[i] {
            Some(c) => str_contains(c.as_str(), GITHOPS_MARKER),
            None => false,
        };
        assert(ev[i as int] == opt_str_view(existing@[i as int]));
        let action = if configured {
            match &existing[i] {
                Some(_) => {
                    if marked {
                        HookAction::Install { script: build_hook_script(name, count), forced: false }
                    } else if force {
                        HookAction::Install { script: build_hook_script(name, count), forced: true }
                    } else {
                        HookAction::Skip
                    }
                },
                None => HookAction::Install { script: build_hook_script(name, count), forced: false },
            }
        } else {
            if marked {
                HookAction::Remove
            } else {
                HookAction::Keep
            }
        };
        assert(action@ == target[i as int]);
        let ghost before = actions@.map_values(|a: HookAction| a@);
        proof {
            assert(target.take(i + 1).drop_last() =~= target.take(i as int));
            assert(target.take(i + 1).last() == action@);
        }
        match action {
            HookAction::Install { .. } => {
                installed = installed + 1;
            },
            HookAction::Skip => {
                skipped = skipped + 1;
            },
            _ => {},
        }
        actions.push(action);
        assert(actions@.map_values(|a: HookAction| a@) =~= target.take(i + 1));
        i = i + 1;
    }
    assert(target.take(i as int) =~= target);
    SyncPlan { actions, installed, skipped }
}

/// Syncing is idempotent: once the files hold what a sync produced (the
/// plan's installs written, its removals done), planning and applying a
/// second sync with the same configuration and flag leaves every hook file
/// with the same content (or still absent).
pub proof fn law_sync_idempotent(
    hooks: Seq<Option<HookView>>,
    defs: Seq<(Seq<char>, DefView)>,
    existing: Seq<Option<Seq<char>>>,
    force: bool,
)
    requires
        existing.len() == hook_table().len(),
    ensures
        ({
            let once = after_sync(existing, sync_actions(hooks, defs, existing, force));
            after_sync(once, sync_actions(hooks, defs, once, force)) == once
        }),
{
    let first = sync_actions(hooks, defs, existing, force);
    let once = after_sync(existing, first);
    let second = sync_actions(hooks, defs, once, force);
    assert forall|i: int| 0 <= i < once.len() implies #[trigger] after_sync(once, second)[i] == once[i] by {
        let name = hook_table()[i].0;
        let h = hooks_get(hooks, name);
        if hook_configured(h, defs) {
            lemma_script_has_marker(name, active_count(resolve_all(h.unwrap().commands, defs)));
        }
    }
    assert(after_sync(once, second) =~= once);
}

/// A hook file without the githops marker is never touched unless `force`
/// is given; a githops script whose hook is not configured is removed.
pub proof fn law_sync_respects_unmanaged(
    hooks: Seq<Option<HookView>>,
    defs: Seq<(Seq<char>, DefView)>,
    existing: Seq<Option<Seq<char>>>,
    i: int,
)
    requires
        existing.len() == hook_table().len(),
        0 <= i < existing.len(),
    ensures
        ({
            let after = after_sync(existing, sync_actions(hooks, defs, existing, false));
            &&& (existing[i] matches Some(c) && !contains(c, GITHOPS_MARKER@)) ==> after[i] == existing[i]
            &&& (existing[i] matches Some(c) && contains(c, GITHOPS_MARKER@)
                && !hook_configured(hooks_get(hooks, hook_table()[i].0), defs)) ==> after[i] is None
        }),
{
}

/// The message the graph UI shows after a sync.
pub open spec fn sync_message(installed: nat, skipped: nat) -> Seq<char> {
    "Synced "@ + decimal(installed) + " hook(s)"@ + if skipped > 0 {
        " ("@ + decimal(skipped) + " skipped)"@
    } else {
        Seq::empty()
    }
}

/// The message the graph UI shows after a sync: how many hooks were
/// installed, and how many skipped when there were any.
pub fn sync_summary(installed: usize, skipped: usize) -> (s: String)
    ensures
        s@ == sync_message(installed as nat, skipped as nat),
{
    let mut s = String::new();
    push_str(&mut s, "Synced ");
    push_decimal(&mut s, installed as u64);
    push_str(&mut s, " hook(s)");
    if skipped > 0 {
        push_str(&mut s, " (");
        push_decimal(&mut s, skipped as u64);
        push_str(&mut s, " skipped)");
    }
    assert(s@ =~= sync_message(installed as nat, skipped as nat));
    s
}

/// For each hook of [`hook_table`], whether `githops destroy` removes its
/// file: there is one (`existing[i]`) and githops manages it.
pub fn managed_files(existing: &[Option<String>]) -> (r: Vec<bool>)
    ensures
        r@.len() == existing@.len(),
        forall|i: int|
            0 <= i < r@.len() ==> #[trigger] r@[i] == (existing@[i] is Some && contains(
                existing@[i].unwrap()@,
                GITHOPS_MARKER@,
            )),
{
    let mut r: Vec<bool> = Vec::new();
    let mut i: usize = 0;
    while i < existing.len()
        invariant
            i <= existing.len(),
            r@.len() == i,
            forall|k: int|
                0 <= k < i ==> #[trigger] r@[k] == (existing@[k] is Some && contains(
                    existing@[k].unwrap()@,
                    GITHOPS_MARKER@,
                )),
        decreases existing.len() - i,
    {
        let m = match &existing[i] {
            Some(c) => str_contains(c.as_str(), GITHOPS_MARKER),
            None => false,
        };
        r.push(m);
        i = i + 1;
    }
    r
}

/// The hooks of [`hook_table`] that `config` sets, in that order (what
/// shell completion offers for `githops check`).
pub fn configured_hook_names(config: &Config) -> (r: Vec<String>)
    ensures
        r@.map_values(|s: String| s@) == configured_names(config.hooks@, hook_table().len() as nat),
{
    let hooks = all_hooks();
    let mut out: Vec<String> = Vec::new();
    let mut i: usize = 0;
    while i < hooks.len()
        invariant
            hooks@.len() == hook_table().len(),
            forall|k: int| 0 <= k < hooks@.len() ==> crate::hooks::info_view(#[trigger] hooks@[k]) == hook_table()[k],
            i <= hooks.len(),
            out@.map_values(|s: String| s@) == configured_names(config.hooks@, i as nat),
        decreases hooks.len() - i,
    {
        assert(crate::hooks::info_view(hooks@[i as int]) == hook_table()[i as int]);
        if config.hooks.get(hooks[i].name).is_some() {
            let ghost before = out@.map_values(|s: String| s@);
            out.push(crate::text::string_of(hooks[i].name));
            assert(out@.map_values(|s: String| s@) =~= before.push(hook_table()[i as int].0));
        }
        i = i + 1;
    }
    out
}

/// The names among the first `n` hooks of [`hook_table`] that `hooks` sets.
pub open spec fn configured_names(hooks: Seq<Option<HookView>>, n: nat) -> Seq<Seq<char>>
    decreases n,
{
    if n == 0 {
        Seq::empty()
    } else {
        let prev = configured_names(hooks, (n - 1) as nat);
        if hooks_get(hooks, hook_table()[n - 1].0) is Some {
            prev.push(hook_table()[n - 1].0)
        } else {
            prev
        }
    }
}

/// When no hand-written hook is in the way, a sync leaves exactly the
/// configured hooks installed, each with its script, and no other file.
pub proof fn law_sync_installs_configured(
    hooks: Seq<Option<HookView>>,
    defs: Seq<(Seq<char>, DefView)>,
    existing: Seq<Option<Seq<char>>>,
    force: bool,
    i: int,
)
    requires
        existing.len() == hook_table().len(),
        0 <= i < existing.len(),
        forall|k: int| 0 <= k < existing.len() ==> (#[trigger] existing[k] matches Some(c) ==> contains(c, GITHOPS_MARKER@)),
    ensures
        ({
            let after = after_sync(existing, sync_actions(hooks, defs, existing, force));
            let h = hooks_get(hooks, hook_table()[i].0);
            after[i] == if hook_configured(h, defs) {
                Some(hook_script(hook_table()[i].0, active_count(resolve_all(h.unwrap().commands, defs))))
            } else {
                None::<Seq<char>>
            }
        }),
{
    assert(existing[i] matches Some(c) ==> contains(c, GITHOPS_MARKER@));
}

/// The commands of `cmds` that run outside test mode.
pub open spec fn non_test_commands(cmds: Seq<CommandView>) -> Seq<CommandView> {
    cmds.filter(|c: CommandView| !c.test)
}

proof fn lemma_active_count_filter(cmds: Seq<CommandView>)
    ensures
        active_count(cmds) == non_test_commands(cmds).len(),
    decreases cmds.len(),
{
    reveal_with_fuel(Seq::filter, 1);
    if cmds.len() > 0 {
        lemma_active_count_filter(cmds.drop_last());
    }
}

/// A sync installs a hook exactly when the hook is enabled, resolving its
/// entries against the configuration's definitions leaves at least one
/// command that runs outside test mode, and no hand-written hook is in the
/// way unless `force` is given; the script it installs announces that number
/// of commands.
pub proof fn law_sync_installs_enabled_hooks_with_commands(
    hooks: Seq<Option<HookView>>,
    defs: Seq<(Seq<char>, DefView)>,
    existing: Seq<Option<Seq<char>>>,
    force: bool,
    i: int,
)
    requires
        existing.len() == hook_table().len(),
        0 <= i < existing.len(),
    ensures
        ({
            let name = hook_table()[i].0;
            let act = sync_actions(hooks, defs, existing, force)[i];
            match hooks_get(hooks, name) {
                Some(c) => {
                    let n = non_test_commands(resolve_all(c.commands, defs)).len();
                    let free = match existing[i] {
                        Some(f) => contains(f, GITHOPS_MARKER@) || force,
                        None => true,
                    };
                    &&& (act is Install <==> c.enabled && n > 0 && free)
                    &&& (act matches ActionView::Install { script, .. } ==> script == hook_script(name, n))
                },
                None => !(act is Install),
            }
        }),
{
    match hooks_get(hooks, hook_table()[i].0) {
        Some(c) => {
            lemma_active_count_filter(resolve_all(c.commands, defs));
        },
        None => {},
    }
}

} // verus!
