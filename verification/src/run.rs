//! Deciding what running a hook executes: which commands, after which
//! checks.
use vstd::prelude::*;
use crate::check::{validate_depends_pub, DependsError};
use crate::config::{
    commands_view, hooks_get, resolve_with_includes, Command, CommandView, Config, IncludeError,
};
use crate::graph::{deps_valid, first_dep_issue};
use crate::hooks::{find_hook, hook_table, table_position};
use crate::text::{push_str, string_of};

verus! {

/// Why a hook cannot be run.
#[derive(Debug)]
pub enum RunError {
    /// The name is not a git hook that githops knows.
    UnknownHook(String),
    /// An `$include` entry cannot be resolved.
    Include(IncludeError),
    /// A command depends on a missing command or on itself.
    Depends(DependsError),
}

impl RunError {
    /// The message reported to the user.
    pub fn message(&self) -> (s: String)
        ensures
            s@ == match self {
                RunError::UnknownHook(n) => "Unknown hook: '"@ + n@ + "'. See `githops graph` for all supported hooks."@,
                RunError::Include(e) => crate::config::include_error_message(e@),
                RunError::Depends(e) => crate::check::depends_message(e@),
            },
    {
        match self {
            RunError::UnknownHook(n) => {
                let mut s = string_of("Unknown hook: '");
                push_str(&mut s, n.as_str());
                push_str(&mut s, "'. See `githops graph` for all supported hooks.");
                s
            },
            RunError::Include(e) => e.message(),
            RunError::Depends(e) => e.message(),
        }
    }
}

/// The commands of `cs` that are not test-only, in order.
pub open spec fn non_test(cs: Seq<CommandView>) -> Seq<CommandView>
    decreases cs.len(),
{
    if cs.len() == 0 {
        Seq::empty()
    } else {
        let prev = non_test(cs.drop_last());
        if cs.last().test {
            prev
        } else {
            prev.push(cs.last())
        }
    }
}

fn drop_test_commands(cmds: Vec<Command>) -> (r: Vec<Command>)
    ensures
        commands_view(r@) == non_test(commands_view(cmds@)),
{
    let ghost cv = commands_view(cmds@);
    let mut rest = cmds;
    let mut out: Vec<Command> = Vec::new();
    let ghost n = rest@.len();
    let ghost mut d: int = 0;
    while rest.len() > 0
        invariant
            cv.len() == n,
            0 <= d <= n,
            rest@.len() == n - d,
            forall|k: int| 0 <= k < rest@.len() ==> #[trigger] rest@[k]@ == cv[d + k],
            commands_view(out@) == non_test(cv.take(d)),
        decreases rest.len(),
    {
        let ghost old_rest = rest@;
        assert(old_rest[0]@ == cv[d]);
        let c = rest.remove(0);
        assert forall|k: int| 0 <= k < rest@.len() implies #[trigger] rest@[k]@ == cv[d + 1 + k] by {
            assert(rest@[k] == old_rest[k + 1]);
        }
        assert(cv.take(d + 1).drop_last() =~= cv.take(d));
        if !c.test {
            let ghost before = commands_view(out@);
            out.push(c);
            assert(commands_view(out@) =~= before.push(cv[d]));
        }
        proof {
            d = d + 1;
        }
    }
    assert(cv.take(d) =~= cv);
    out
}

/// The commands a run of hook `hook_name` executes, after the checks the run
/// makes: the name must be a git hook githops knows; a hook that is not
/// configured, is disabled or has no commands runs nothing (`None`); its
/// `$include` entries are resolved from `contents` (the file content of each
/// include entry, or why it could not be read); test-only commands are left out; the dependencies of the
/// rest must name other commands of the hook.
pub fn prepare_hook_run(hook_name: &str, config: &Config, contents: &[Result<String, String>]) -> (r: Result<
    Option<Vec<Command>>,
    RunError,
>)
    requires
        contents@.len() == config.includes@.len(),
    ensures
        table_position(hook_table(), hook_name@) < 0 ==> (r matches Err(RunError::UnknownHook(n)) && n@ == hook_name@),
        table_position(hook_table(), hook_name@) >= 0 ==> match hooks_get(config.hooks@, hook_name@) {
            None => r matches Ok(None),
            Some(h) => match resolve_with_includes(h.commands, config.definitions@, config.includes@, contents@) {
                Err(e) => r matches Err(RunError::Include(x)) && x@ == e,
                Ok(cs) => if !h.enabled || cs.len() == 0 {
                    r matches Ok(None)
                } else if deps_valid(non_test(cs)) {
                    r matches Ok(Some(v)) && commands_view(v@) == non_test(cs)
                } else {
                    r matches Err(RunError::Depends(x)) && first_dep_issue(non_test(cs), x@)
                },
            },
        },
{
    if find_hook(hook_name).is_none() {
        return Err(RunError::UnknownHook(string_of(hook_name)));
    }
    let hook = match config.hooks.get(hook_name) {
        Some(h) => h,
        None => {
            return Ok(None);
        },
    };
    let commands = match hook.resolved_commands_with_includes(&config.definitions, config.includes.as_slice(), contents) {
        Ok(c) => c,
        Err(e) => {
            return Err(RunError::Include(e));
        },
    };
    if !hook.enabled || commands.len() == 0 {
        return Ok(None);
    }
    let active = drop_test_commands(commands);
    match validate_depends_pub(active.as_slice()) {
        Ok(()) => Ok(Some(active)),
        Err(e) => Err(RunError::Depends(e)),
    }
}

/// Whether a wave runs its commands concurrently: the hook asks for it and
/// the wave has more than one command.
pub fn wave_in_parallel(parallel: bool, wave_len: usize) -> (b: bool)
    ensures
        b == (parallel && wave_len > 1),
{
    parallel && wave_len > 1
}

} // verus!
