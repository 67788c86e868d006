use vstd::prelude::*;
use crate::text::str_eq;

verus! {

/// Family of git hooks, used to group them in listings.
#[derive(Debug, Clone, Copy, PartialEq, Eq, Structural)]
pub enum HookCategory {
    Commit,
    Merge,
    Rebase,
    Push,
    Receive,
    Email,
    Misc,
}

/// Display label of each category.
pub open spec fn category_label(c: HookCategory) -> Seq<char> {
    match c {
        HookCategory::Commit => "Commit"@,
        HookCategory::Merge => "Merge"@,
        HookCategory::Rebase => "Rebase"@,
        HookCategory::Push => "Push"@,
        HookCategory::Receive => "Receive (server-side)"@,
        HookCategory::Email => "Email / Patch"@,
        HookCategory::Misc => "Misc"@,
    }
}

impl HookCategory {
    pub fn label(self) -> (s: &'static str)
        ensures
            s@ == category_label(self),
    {
        match self {
            HookCategory::Commit => "Commit",
            HookCategory::Merge => "Merge",
            HookCategory::Rebase => "Rebase",
            HookCategory::Push => "Push",
            HookCategory::Receive => "Receive (server-side)",
            HookCategory::Email => "Email / Patch",
            HookCategory::Misc => "Misc",
        }
    }
}


/// A git hook that githops knows: its name, what it does, and its family.
#[derive(Debug, Clone, Copy)]
pub struct HookInfo {
    pub name: &'static str,
    pub description: &'static str,
    pub category: HookCategory,
}

/// The hook as plain values: name, description, category.
pub open spec fn info_view(h: HookInfo) -> (Seq<char>, Seq<char>, HookCategory) {
    (h.name@, h.description@, h.category)
}

/// Every git hook githops can manage, grouped by family, in listing order.
pub open spec fn hook_table() -> Seq<(Seq<char>, Seq<char>, HookCategory)> {
    seq![
        ("pre-commit"@, "Runs before commit message editor; abort with non-zero exit."@, HookCategory::Commit),
        ("prepare-commit-msg"@, "Runs after default message is prepared, before editor starts."@, HookCategory::Commit),
        ("commit-msg"@, "Validates/normalises the commit message. Receives message file path as $1."@, HookCategory::Commit),
        ("post-commit"@, "Notification hook after a commit is made. Cannot affect outcome."@, HookCategory::Commit),
        ("pre-merge-commit"@, "Runs after merge completes, before merge commit is created."@, HookCategory::Merge),
        ("post-merge"@, "Notification hook after git-merge / git-pull. Cannot affect outcome."@, HookCategory::Merge),
        ("pre-rebase"@, "Runs before git-rebase; abort with non-zero exit."@, HookCategory::Rebase),
        ("post-rewrite"@, "Runs after commits are rewritten (amend, rebase)."@, HookCategory::Rebase),
        ("pre-push"@, "Runs before git-push; abort with non-zero exit."@, HookCategory::Push),
        ("push-to-checkout"@, "Overrides default behaviour when pushing to a checked-out branch."@, HookCategory::Push),
        ("pre-receive"@, "Server-side: runs once before updating refs. Abort with non-zero exit."@, HookCategory::Receive),
        ("update"@, "Server-side: runs once per ref being updated."@, HookCategory::Receive),
        ("proc-receive"@, "Server-side: handles commands matched by receive.procReceiveRefs."@, HookCategory::Receive),
        ("post-receive"@, "Server-side: notification after all refs are updated."@, HookCategory::Receive),
        ("post-update"@, "Server-side: notification after all refs are updated (receives ref names)."@, HookCategory::Receive),
        ("applypatch-msg"@, "Validates/normalises commit message from applied patch."@, HookCategory::Email),
        ("pre-applypatch"@, "Runs after patch is applied but before committing."@, HookCategory::Email),
        ("post-applypatch"@, "Notification after patch is applied and committed."@, HookCategory::Email),
        ("sendemail-validate"@, "Validates patch emails before git-send-email sends them."@, HookCategory::Email),
        ("post-checkout"@, "Runs after git-checkout or git-switch; receives old HEAD, new HEAD, branch flag."@, HookCategory::Misc),
        ("reference-transaction"@, "Runs on every reference transaction (prepared/committed/aborted)."@, HookCategory::Misc),
        ("pre-auto-gc"@, "Runs before git gc --auto; abort with non-zero exit."@, HookCategory::Misc),
        ("fsmonitor-watchman"@, "Used with core.fsmonitor for filesystem change monitoring."@, HookCategory::Misc),
        ("post-index-change"@, "Runs after the index is written."@, HookCategory::Misc),
        ("p4-changelist"@, "git-p4 submit: validates/normalises changelist message."@, HookCategory::Misc),
        ("p4-prepare-changelist"@, "git-p4 submit: runs before changelist editor starts."@, HookCategory::Misc),
        ("p4-post-changelist"@, "git-p4 submit: notification after successful submit."@, HookCategory::Misc),
        ("p4-pre-submit"@, "git-p4 submit: runs before submission; abort with non-zero exit."@, HookCategory::Misc),
    ]
}

/// The position of the first hook of [`hook_table`] named `name`, or -1.
pub open spec fn table_position(t: Seq<(Seq<char>, Seq<char>, HookCategory)>, name: Seq<char>) -> int
    decreases t.len(),
{
    if t.len() == 0 {
        -1
    } else if t[0].0 == name {
        0
    } else {
        let p = table_position(t.drop_first(), name);
        if p < 0 { -1 } else { p + 1 }
    }
}

proof fn lemma_table_position(t: Seq<(Seq<char>, Seq<char>, HookCategory)>, name: Seq<char>)
    ensures
        -1 <= table_position(t, name) < t.len(),
        table_position(t, name) >= 0 ==> t[table_position(t, name)].0 == name,
        forall|j: int| 0 <= j < t.len() && (table_position(t, name) < 0 || j < table_position(t, name)) ==> t[j].0 != name,
    decreases t.len(),
{
    if t.len() > 0 && t[0].0 != name {
        lemma_table_position(t.drop_first(), name);
        assert forall|j: int| 0 < j < t.len() implies t[j] == t.drop_first()[j - 1] by {}
    }
}

/// All hooks of [`hook_table`], in that order.
pub fn all_hooks() -> (v: Vec<HookInfo>)
    ensures
        v@.len() == hook_table().len(),
        forall|i: int| 0 <= i < v@.len() ==> info_view(#[trigger] v@[i]) == hook_table()[i],
{
    let mut v: Vec<HookInfo> = Vec::new();
    v.push(HookInfo {
        name: "pre-commit",
        description: "Runs before commit message editor; abort with non-zero exit.",
        category: HookCategory::Commit,
    });
    v.push(HookInfo {
        name: "prepare-commit-msg",
        description: "Runs after default message is prepared, before editor starts.",
        category: HookCategory::Commit,
    });
    v.push(HookInfo {
        name: "commit-msg",
        description: "Validates/normalises the commit message. Receives message file path as $1.",
        category: HookCategory::Commit,
    });
    v.push(HookInfo {
        name: "post-commit",
        description: "Notification hook after a commit is made. Cannot affect outcome.",
        category: HookCategory::Commit,
    });
    v.push(HookInfo {
        name: "pre-merge-commit",
        description: "Runs after merge completes, before merge commit is created.",
        category: HookCategory::Merge,
    });
    v.push(HookInfo {
        name: "post-merge",
        description: "Notification hook after git-merge / git-pull. Cannot affect outcome.",
        category: HookCategory::Merge,
    });
    v.push(HookInfo {
        name: "pre-rebase",
        description: "Runs before git-rebase; abort with non-zero exit.",
        category: HookCategory::Rebase,
    });
    v.push(HookInfo {
        name: "post-rewrite",
        description: "Runs after commits are rewritten (amend, rebase).",
        category: HookCategory::Rebase,
    });
    v.push(HookInfo {
        name: "pre-push",
        description: "Runs before git-push; abort with non-zero exit.",
        category: HookCategory::Push,
    });
    v.push(HookInfo {
        name: "push-to-checkout",
        description: "Overrides default behaviour when pushing to a checked-out branch.",
        category: HookCategory::Push,
    });
    v.push(HookInfo {
        name: "pre-receive",
        description: "Server-side: runs once before updating refs. Abort with non-zero exit.",
        category: HookCategory::Receive,
    });
    v.push(HookInfo {
        name: "update",
        description: "Server-side: runs once per ref being updated.",
        category: HookCategory::Receive,
    });
    v.push(HookInfo {
        name: "proc-receive",
        description: "Server-side: handles commands matched by receive.procReceiveRefs.",
        category: HookCategory::Receive,
    });
    v.push(HookInfo {
        name: "post-receive",
        description: "Server-side: notification after all refs are updated.",
        category: HookCategory::Receive,
    });
    v.push(HookInfo {
        name: "post-update",
        description: "Server-side: notification after all refs are updated (receives ref names).",
        category: HookCategory::Receive,
    });
    v.push(HookInfo {
        name: "applypatch-msg",
        description: "Validates/normalises commit message from applied patch.",
        category: HookCategory::Email,
    });
    v.push(HookInfo {
        name: "pre-applypatch",
        description: "Runs after patch is applied but before committing.",
        category: HookCategory::Email,
    });
    v.push(HookInfo {
        name: "post-applypatch",
        description: "Notification after patch is applied and committed.",
        category: HookCategory::Email,
    });
    v.push(HookInfo {
        name: "sendemail-validate",
        description: "Validates patch emails before git-send-email sends them.",
        category: HookCategory::Email,
    });
    v.push(HookInfo {
        name: "post-checkout",
        description: "Runs after git-checkout or git-switch; receives old HEAD, new HEAD, branch flag.",
        category: HookCategory::Misc,
    });
    v.push(HookInfo {
        name: "reference-transaction",
        description: "Runs on every reference transaction (prepared/committed/aborted).",
        category: HookCategory::Misc,
    });
    v.push(HookInfo {
        name: "pre-auto-gc",
        description: "Runs before git gc --auto; abort with non-zero exit.",
        category: HookCategory::Misc,
    });
    v.push(HookInfo {
        name: "fsmonitor-watchman",
        description: "Used with core.fsmonitor for filesystem change monitoring.",
        category: HookCategory::Misc,
    });
    v.push(HookInfo {
        name: "post-index-change",
        description: "Runs after the index is written.",
        category: HookCategory::Misc,
    });
    v.push(HookInfo {
        name: "p4-changelist",
        description: "git-p4 submit: validates/normalises changelist message.",
        category: HookCategory::Misc,
    });
    v.push(HookInfo {
        name: "p4-prepare-changelist",
        description: "git-p4 submit: runs before changelist editor starts.",
        category: HookCategory::Misc,
    });
    v.push(HookInfo {
        name: "p4-post-changelist",
        description: "git-p4 submit: notification after successful submit.",
        category: HookCategory::Misc,
    });
    v.push(HookInfo {
        name: "p4-pre-submit",
        description: "git-p4 submit: runs before submission; abort with non-zero exit.",
        category: HookCategory::Misc,
    });
    assert(v@.map_values(|h: HookInfo| info_view(h)) =~= hook_table());
    assert forall|i: int| 0 <= i < v@.len() implies info_view(#[trigger] v@[i]) == hook_table()[i] by {
        assert(v@.map_values(|h: HookInfo| info_view(h))[i] == info_view(v@[i]));
    }
    v
}

/// The hook named `name`, if githops knows it.
pub fn find_hook(name: &str) -> (r: Option<HookInfo>)
    ensures
        match r {
            Some(h) => table_position(hook_table(), name@) >= 0 && info_view(h) == hook_table()[table_position(hook_table(), name@)],
            None => table_position(hook_table(), name@) < 0,
        },
{
    let hooks = all_hooks();
    proof {
        lemma_table_position(hook_table(), name@);
    }
    let mut i: usize = 0;
    while i < hooks.len()
        invariant
            i <= hooks.len(),
            hooks@.len() == hook_table().len(),
            forall|k: int| 0 <= k < hooks@.len() ==> info_view(#[trigger] hooks@[k]) == hook_table()[k],
            forall|k: int| 0 <= k < i ==> hook_table()[k].0 != name@,
        decreases hooks.len() - i,
    {
        assert(info_view(hooks@[i as int]) == hook_table()[i as int]);
        if str_eq(hooks[i].name, name) {
            let ghost p = table_position(hook_table(), name@);
            proof {
                lemma_table_position(hook_table(), name@);
            }
            assert(hook_table()[i as int].0 == name@);
            proof {
                if p >= 0 && p < i {
                    assert(hook_table()[p].0 != name@);
                }
            }
            assert(p == i);
            return Some(hooks[i]);
        }
        i = i + 1;
    }
    None
}

} // verus!
