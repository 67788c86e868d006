//! The starter configuration `githops init` writes.
use vstd::prelude::*;
use crate::config::{hooks_put, Command, CommandEntry, CommandView, Config, EntryView, HookConfig, HookView};
use crate::migrate::no_hooks;
use crate::namemap::NameMap;
use crate::text::string_of;

verus! {

/// A command with nothing but a name and a script.
pub open spec fn plain_command(name: Seq<char>, run: Seq<char>) -> CommandView {
    CommandView { name, run, depends: Seq::empty(), env: Seq::empty(), test: false, cache: None }
}

/// An enabled, sequential hook running `cmds`.
pub open spec fn plain_hook(cmds: Seq<EntryView>) -> HookView {
    HookView { enabled: true, parallel: false, commands: cmds }
}

/// The hooks of the starter configuration: a formatter and a linter before
/// each commit, a commit message check, and the tests before each push.
pub open spec fn example_hooks() -> Seq<Option<HookView>> {
    let pre_commit = plain_hook(
        seq![
            EntryView::Inline(plain_command("fmt"@, "echo \"Run your formatter here, e.g. cargo fmt --check\""@)),
            EntryView::Inline(plain_command("lint"@, "echo \"Run your linter here, e.g. cargo clippy\""@)),
        ],
    );
    let commit_msg = plain_hook(
        seq![EntryView::Inline(plain_command("validate"@, "echo \"Validate commit message in $1\""@))],
    );
    let pre_push = plain_hook(
        seq![EntryView::Inline(plain_command("test"@, "echo \"Run your test suite here, e.g. cargo test\""@))],
    );
    hooks_put(
        hooks_put(hooks_put(no_hooks(), "pre-commit"@, Some(pre_commit)), "commit-msg"@, Some(commit_msg)),
        "pre-push"@,
        Some(pre_push),
    )
}

fn plain(name: &str, run: &str) -> (e: CommandEntry)
    ensures
        e@ == EntryView::Inline(plain_command(name@, run@)),
{
    let c = Command {
        name: string_of(name),
        run: string_of(run),
        depends: Vec::new(),
        env: NameMap::new(),
        test: false,
        cache: None,
    };
    assert(crate::config::strs_view(c.depends@) =~= Seq::<Seq<char>>::empty());
    CommandEntry::Inline(c)
}

/// The starter configuration written by `githops init`.
pub fn example_config() -> (c: Config)
    ensures
        crate::migrate::bare_config(c, example_hooks()),
{
    let mut config = Config::default();
    assert(config.hooks@ =~= no_hooks());
    let mut pre_commit: Vec<CommandEntry> = Vec::new();
    pre_commit.push(plain("fmt", "echo \"Run your formatter here, e.g. cargo fmt --check\""));
    pre_commit.push(plain("lint", "echo \"Run your linter here, e.g. cargo clippy\""));
    let mut commit_msg: Vec<CommandEntry> = Vec::new();
    commit_msg.push(plain("validate", "echo \"Validate commit message in $1\""));
    let mut pre_push: Vec<CommandEntry> = Vec::new();
    pre_push.push(plain("test", "echo \"Run your test suite here, e.g. cargo test\""));
    assert(crate::config::entries_view(pre_commit@) =~= seq![
        EntryView::Inline(plain_command("fmt"@, "echo \"Run your formatter here, e.g. cargo fmt --check\""@)),
        EntryView::Inline(plain_command("lint"@, "echo \"Run your linter here, e.g. cargo clippy\""@)),
    ]);
    assert(crate::config::entries_view(commit_msg@) =~= seq![
        EntryView::Inline(plain_command("validate"@, "echo \"Validate commit message in $1\""@)),
    ]);
    assert(crate::config::entries_view(pre_push@) =~= seq![
        EntryView::Inline(plain_command("test"@, "echo \"Run your test suite here, e.g. cargo test\""@)),
    ]);
    config.hooks.set("pre-commit", HookConfig { enabled: true, parallel: false, commands: pre_commit });
    config.hooks.set("commit-msg", HookConfig { enabled: true, parallel: false, commands: commit_msg });
    config.hooks.set("pre-push", HookConfig { enabled: true, parallel: false, commands: pre_push });
    config
}

} // verus!
