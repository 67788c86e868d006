//! Shell completion scripts: where they are installed, how the shell's rc
//! file loads them, and how a generated script learns the configured hook
//! names.
use vstd::prelude::*;
use crate::text::{lossy_utf8, utf8_lossy, 
    chars_of, contains, join, join_strings, lines_of, lines_string, occurs_at, occurs_at_chars, push_str,
    str_contains, str_eq, string_from_chars, string_of, trim, trim_string,
};

verus! {

/// The shells completion scripts can be generated for.
#[derive(Debug, Clone, Copy, PartialEq, Eq, Structural)]
pub enum Shell {
    Bash,
    Elvish,
    Fish,
    PowerShell,
    Zsh,
}

/// The name of each shell, as the command line spells it.
pub open spec fn shell_name_of(s: Shell) -> Seq<char> {
    match s {
        Shell::Bash => "bash"@,
        Shell::Elvish => "elvish"@,
        Shell::Fish => "fish"@,
        Shell::PowerShell => "powershell"@,
        Shell::Zsh => "zsh"@,
    }
}

impl Shell {
    /// The shell's name, as the command line spells it.
    pub fn name(self) -> (s: &'static str)
        ensures
            s@ == shell_name_of(self),
    {
        match self {
            Shell::Bash => "bash",
            Shell::Elvish => "elvish",
            Shell::Fish => "fish",
            Shell::PowerShell => "powershell",
            Shell::Zsh => "zsh",
        }
    }
}

/// Where each shell's completion script is installed, relative to the home
/// directory.
pub open spec fn completion_rel_path_of(s: Shell) -> Seq<char> {
    match s {
        Shell::Bash => ".local/share/bash-completion/completions/githops"@,
        Shell::Zsh => ".zfunc/_githops"@,
        Shell::Fish => ".config/fish/completions/githops.fish"@,
        Shell::Elvish => ".config/elvish/lib/completions/githops.elv"@,
        Shell::PowerShell => "Documents/PowerShell/Completions/githops.ps1"@,
    }
}

/// Where the completion script of `shell` is installed, relative to the
/// home directory.
pub fn completion_rel_path(shell: Shell) -> (p: &'static str)
    ensures
        p@ == completion_rel_path_of(shell),
{
    match shell {
        Shell::Bash => ".local/share/bash-completion/completions/githops",
        Shell::Zsh => ".zfunc/_githops",
        Shell::Fish => ".config/fish/completions/githops.fish",
        Shell::Elvish => ".config/elvish/lib/completions/githops.elv",
        Shell::PowerShell => "Documents/PowerShell/Completions/githops.ps1",
    }
}

/// The rc file of `shell` that loads completions, relative to the home
/// directory; only bash and zsh have one.
pub fn rc_rel_path(shell: Shell) -> (p: Option<&'static str>)
    ensures
        match shell {
            Shell::Bash => p matches Some(x) && x@ == ".bashrc"@,
            Shell::Zsh => p matches Some(x) && x@ == ".zshrc"@,
            _ => p is None,
        },
{
    match shell {
        Shell::Bash => Some(".bashrc"),
        Shell::Zsh => Some(".zshrc"),
        _ => None,
    }
}

/// The line that opens the block githops adds to an rc file.
pub const RC_MARKER: &'static str = "# githops completions";

/// The block appended to the rc file of `shell` so that completions load,
/// `completion_path` being where the script is installed.
pub open spec fn rc_snippet_of(shell: Shell, completion_path: Seq<char>) -> Option<Seq<char>> {
    match shell {
        Shell::Bash => Some(RC_MARKER@ + "\nsource "@ + completion_path + "\n"@),
        Shell::Zsh => Some(RC_MARKER@ + "\nfpath=(~/.zfunc $fpath)\nautoload -Uz compinit && compinit\n"@),
        _ => None,
    }
}

/// Lines to append to the shell rc so completions are loaded automatically.
pub fn rc_snippet(shell: Shell, completion_path: &str) -> (r: Option<String>)
    ensures
        match rc_snippet_of(shell, completion_path@) {
            Some(s) => r matches Some(x) && x@ == s,
            None => r is None,
        },
{
    match shell {
        Shell::Bash => {
            let mut s = string_of(RC_MARKER);
            push_str(&mut s, "\nsource ");
            push_str(&mut s, completion_path);
            push_str(&mut s, "\n");
            Some(s)
        },
        Shell::Zsh => {
            let mut s = string_of(RC_MARKER);
            push_str(&mut s, "\nfpath=(~/.zfunc $fpath)\nautoload -Uz compinit && compinit\n");
            Some(s)
        },
        _ => None,
    }
}

/// What patching an rc file holding `existing` appends: nothing when the
/// marker is already there, else a blank line, the snippet and a newline.
pub fn rc_addition(existing: &str, snippet: &str) -> (r: Option<String>)
    ensures
        contains(existing@, RC_MARKER@) ==> r is None,
        !contains(existing@, RC_MARKER@) ==> (r matches Some(x) && x@ == "\n"@ + snippet@ + "\n"@),
{
    if str_contains(existing, RC_MARKER) {
        return None;
    }
    let mut s = string_of("\n");
    push_str(&mut s, snippet);
    push_str(&mut s, "\n");
    Some(s)
}

/// The lines kept when the githops block is taken out: from a line that is
/// the marker (up to surrounding blanks) up to and including the next blank
/// line, lines are dropped. `skip` is whether a block is open.
pub open spec fn kept_lines(lines: Seq<Seq<char>>, skip: bool) -> Seq<Seq<char>>
    decreases lines.len(),
{
    if lines.len() == 0 {
        Seq::empty()
    } else {
        let l = lines[0];
        let s1 = skip || trim(l) == trim(RC_MARKER@);
        if s1 && trim(l).len() == 0 {
            kept_lines(lines.drop_first(), false)
        } else if s1 {
            kept_lines(lines.drop_first(), true)
        } else {
            seq![l] + kept_lines(lines.drop_first(), false)
        }
    }
}

/// The rc file text with the githops block taken out, or `None` when it has
/// no such block.
pub open spec fn unpatched_rc(content: Seq<char>) -> Option<Seq<char>> {
    if contains(content, RC_MARKER@) {
        Some(join(kept_lines(lines_of(content), false), "\n"@) + "\n"@)
    } else {
        None
    }
}

/// Takes the block that starts with the marker line out of an rc file's
/// text; `None` when there is nothing to take out.
pub fn unpatch_rc_text(content: &str) -> (r: Option<String>)
    ensures
        match unpatched_rc(content@) {
            Some(s) => r matches Some(x) && x@ == s,
            None => r is None,
        },
{
    if !str_contains(content, RC_MARKER) {
        return None;
    }
    let lines = lines_string(content);
    let ghost lv = lines@.map_values(|p: String| p@);
    let marker = trim_string(RC_MARKER);
    let mut kept: Vec<String> = Vec::new();
    let mut skip = false;
    let mut i: usize = 0;
    assert(lv.skip(0) =~= lv);
    assert(Seq::<Seq<char>>::empty() + kept_lines(lv, false) =~= kept_lines(lv, false));
    while i < lines.len()
        invariant
            lv == lines@.map_values(|p: String| p@),
            marker@ == trim(RC_MARKER@),
            i <= lines.len(),
            kept@.map_values(|p: String| p@) + kept_lines(lv.skip(i as int), skip) == kept_lines(lv, false),
        decreases lines.len() - i,
    {
        let t = trim_string(lines[i].as_str());
        assert(lv.skip(i as int)[0] == lines@[i as int]@);
        assert(lv.skip(i as int).drop_first() =~= lv.skip(i + 1));
        if str_eq(t.as_str(), marker.as_str()) {
            skip = true;
        }
        let ghost before = kept@.map_values(|p: String| p@);
        if skip && t.unicode_len() == 0 {
            skip = false;
        } else if !skip {
            kept.push(lines[i].clone());
            assert(kept@.map_values(|p: String| p@) =~= before.push(lv[i as int]));
            assert(before + (seq![lv[i as int]] + kept_lines(lv.skip(i + 1), false)) =~= before.push(lv[i as int])
                + kept_lines(lv.skip(i + 1), false));
        }
        i = i + 1;
    }
    assert(lv.skip(i as int).len() == 0);
    assert(kept@.map_values(|p: String| p@) + Seq::<Seq<char>>::empty() =~= kept@.map_values(|p: String| p@));
    let mut out = join_strings(&kept, "\n");
    push_str(&mut out, "\n");
    Some(out)
}

/// The shell named by the last component of `$SHELL`.
pub open spec fn shell_named(name: Seq<char>) -> Option<Shell> {
    if name == "bash"@ {
        Some(Shell::Bash)
    } else if name == "zsh"@ {
        Some(Shell::Zsh)
    } else if name == "fish"@ {
        Some(Shell::Fish)
    } else if name == "elvish"@ {
        Some(Shell::Elvish)
    } else {
        None
    }
}

/// The shell whose completions can be installed automatically, from the
/// file name of `$SHELL`; the error message for any other shell.
pub fn shell_from_name(name: &str) -> (r: Result<Shell, String>)
    ensures
        match shell_named(name@) {
            Some(s) => r == Ok::<Shell, String>(s),
            None => r matches Err(m) && m@ == "Unsupported shell '"@ + name@
                + "'. Use `githops completions print <shell>` for manual installation."@,
        },
{
    if str_eq(name, "bash") {
        Ok(Shell::Bash)
    } else if str_eq(name, "zsh") {
        Ok(Shell::Zsh)
    } else if str_eq(name, "fish") {
        Ok(Shell::Fish)
    } else if str_eq(name, "elvish") {
        Ok(Shell::Elvish)
    } else {
        let mut m = string_of("Unsupported shell '");
        push_str(&mut m, name);
        push_str(&mut m, "'. Use `githops completions print <shell>` for manual installation.");
        Err(m)
    }
}

// ---------------------------------------------------------------------------
// Patching generated scripts
// ---------------------------------------------------------------------------

/// The first position at or after `from` where `p` occurs in `s`, or -1.
pub open spec fn find_from(s: Seq<char>, p: Seq<char>, from: int) -> int
    decreases s.len() + 1 - from,
{
    if from < 0 || from + p.len() > s.len() {
        -1
    } else if occurs_at(s, p, from) {
        from
    } else {
        find_from(s, p, from + 1)
    }
}

proof fn lemma_find_from(s: Seq<char>, p: Seq<char>, from: int)
    ensures
        find_from(s, p, from) == -1 || (from <= find_from(s, p, from) && occurs_at(s, p, find_from(s, p, from))),
    decreases s.len() + 1 - from,
{
    if !(from < 0 || from + p.len() > s.len()) && !occurs_at(s, p, from) {
        lemma_find_from(s, p, from + 1);
    }
}

fn find_chars(s: &Vec<char>, p: &Vec<char>, from: usize) -> (r: Option<usize>)
    ensures
        match r {
            Some(i) => find_from(s@, p@, from as int) == i,
            None => find_from(s@, p@, from as int) == -1,
        },
    decreases s@.len() + 1 - from,
{
    if from > s.len() || p.len() > s.len() - from {
        return None;
    }
    if p.len() == 0 {
        assert(s@.subrange(from as int, from as int) =~= p@);
    }
    if occurs_at_chars(s, p, from) {
        Some(from)
    } else {
        find_chars(s, p, from + 1)
    }
}

/// The bash lines that complete `githops check <hook>` with the configured
/// hook names.
pub open spec fn bash_hook_completion() -> Seq<char> {
    "\n# Dynamic hook completion for `githops check <hook>`\n__githops_check_hook() {\n    local cur=\"${COMP_WORDS[COMP_CWORD]}\"\n    if [[ \"${COMP_WORDS[1]}\" == \"check\" && \"${COMP_CWORD}\" -eq 2 ]]; then\n        local IFS=$'\\n'\n        COMPREPLY=($(compgen -W \"$(githops _list-hooks 2>/dev/null)\" -- \"${cur}\"))\n        return 0\n    fi\n    _githops \"$@\"\n}\ncomplete -F __githops_check_hook githops\n"@
}

/// The zsh function that lists the configured hook names.
pub open spec fn zsh_hook_completion() -> Seq<char> {
    "\n# Dynamic hook completion for `githops check <hook>`\n__githops_hook_names() {\n  local -a hooks\n  hooks=(${(f)\"$(githops _list-hooks 2>/dev/null)\"})\n  (( ${#hooks[@]} )) && _describe 'git hook' hooks\n}\n"@
}

/// The fish lines that complete `githops check <hook>` with the configured
/// hook names.
pub open spec fn fish_hook_completion() -> Seq<char> {
    "\n# Dynamic hook completion for 'githops check <hook>'\ncomplete -c githops -n \"__fish_seen_subcommand_from check\" -e\ncomplete -c githops -n \"__fish_seen_subcommand_from check\" -f -a \"(githops _list-hooks 2>/dev/null)\"\n"@
}

/// A zsh script whose static list of hook names (the `':hook ... )'` spec)
/// is replaced by the function that lists the configured ones.
pub open spec fn zsh_dynamic_hooks(script: Seq<char>) -> Seq<char> {
    let start = find_from(script, "':hook"@, 0);
    if start < 0 {
        script
    } else {
        let rel = find_from(script, ")'"@, start + 1);
        if rel < 0 {
            script
        } else {
            script.subrange(0, start) + "':hook:__githops_hook_names'"@ + script.subrange(rel + 2, script.len() as int)
        }
    }
}

/// A generated completion script with dynamic hook-name completion for
/// `githops check <hook>`.
pub open spec fn patched_completion(shell: Shell, script: Seq<char>) -> Seq<char> {
    match shell {
        Shell::Bash => script + bash_hook_completion(),
        Shell::Zsh => zsh_dynamic_hooks(script) + zsh_hook_completion(),
        Shell::Fish => script + fish_hook_completion(),
        _ => script,
    }
}

/// Patches a generated completion script, given as the bytes the generator
/// wrote (read as UTF-8, invalid sequences replaced by U+FFFD), so that
/// `githops check <hook>` completes the hook names `githops _list-hooks`
/// prints.
pub fn patch_completion(shell: Shell, buf: &[u8]) -> (r: String)
    ensures
        r@ == patched_completion(shell, lossy_utf8(buf@)),
{
    let script = utf8_lossy(buf);
    patch_script(shell, script.as_str())
}

/// Patches the completion script text `script`.
fn patch_script(shell: Shell, script: &str) -> (r: String)
    ensures
        r@ == patched_completion(shell, script@),
{
    match shell {
        Shell::Bash => {
            let mut s = string_of(script);
            push_str(
                &mut s,
                "\n# Dynamic hook completion for `githops check <hook>`\n__githops_check_hook() {\n    local cur=\"${COMP_WORDS[COMP_CWORD]}\"\n    if [[ \"${COMP_WORDS[1]}\" == \"check\" && \"${COMP_CWORD}\" -eq 2 ]]; then\n        local IFS=$'\\n'\n        COMPREPLY=($(compgen -W \"$(githops _list-hooks 2>/dev/null)\" -- \"${cur}\"))\n        return 0\n    fi\n    _githops \"$@\"\n}\ncomplete -F __githops_check_hook githops\n",
            );
            s
        },
        Shell::Zsh => {
            let sv = chars_of(script);
            let open = chars_of("':hook");
            let close = chars_of(")'");
            proof {
                reveal_strlit("':hook");
                reveal_strlit(")'");
                lemma_find_from(sv@, open@, 0);
            }
            let mut s = match find_chars(&sv, &open, 0) {
                Some(start) => match {
                    assert(open@.len() == 6);
                    assert(start + 6 <= sv@.len());
                    let n = sv.len();
                    assert(n == sv@.len());
                    find_chars(&sv, &close, start + 1)
                } {
                    Some(rel) => {
                        proof {
                            lemma_find_from(sv@, close@, start + 1);
                        }
                        let mut t = string_from_chars(&sv, 0, start);
                        push_str(&mut t, "':hook:__githops_hook_names'");
                        assert(close@.len() == 2);
                        let n = sv.len();
                        assert(rel + 2 <= n);
                        let tail = string_from_chars(&sv, rel + 2, n);
                        push_str(&mut t, tail.as_str());
                        t
                    },
                    None => string_of(script),
                },
                None => string_of(script),
            };
            push_str(
                &mut s,
                "\n# Dynamic hook completion for `githops check <hook>`\n__githops_hook_names() {\n  local -a hooks\n  hooks=(${(f)\"$(githops _list-hooks 2>/dev/null)\"})\n  (( ${#hooks[@]} )) && _describe 'git hook' hooks\n}\n",
            );
            s
        },
        Shell::Fish => {
            let mut s = string_of(script);
            push_str(
                &mut s,
                "\n# Dynamic hook completion for 'githops check <hook>'\ncomplete -c githops -n \"__fish_seen_subcommand_from check\" -e\ncomplete -c githops -n \"__fish_seen_subcommand_from check\" -f -a \"(githops _list-hooks 2>/dev/null)\"\n",
            );
            s
        },
        _ => string_of(script),
    }
}

} // verus!
