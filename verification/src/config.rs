//! The configuration model of `githops.yaml`: hooks, commands, reusable
//! definitions and includes of external script files.
use vstd::prelude::*;

use crate::namemap::{Duplicate, NameMap, lookup};
use crate::text::{str_eq, string_of, push_str, push_char, split_by, split_chars};
use crate::document::{DocNode, DocView, nav, navigate, json_document, toml_document, parse_json_document, parse_toml_document};
use crate::yaml::{YamlNode, YamlView, yaml_value, yaml_path_text, tags_named, parse_yaml_value, yaml_text_at};

verus! {

/// Name of the configuration file.
pub const CONFIG_FILE: &'static str = "githops.yaml";

/// Location of the JSON schema file, relative to the repository root.
pub const SCHEMA_FILE: &'static str = ".githops/githops.schema.json";

/// Cache directory used when `cache.dir` is not set.
pub const DEFAULT_CACHE_DIR: &'static str = ".githops/cache";

// ---------------------------------------------------------------------------
// String lists
// ---------------------------------------------------------------------------

/// The character sequences of a list of strings.
pub open spec fn strs_view(v: Seq<String>) -> Seq<Seq<char>> {
    v.map_values(|s: String| s@)
}

impl Duplicate for Vec<String> {
    fn duplicate(&self) -> (r: Vec<String>) {
        let r = self.clone();
        assert(r@ =~= self@);
        r
    }
}

/// Copies an optional string.
pub fn dup_opt_string(s: &Option<String>) -> (r: Option<String>)
    ensures
        r == *s,
{
    match s {
        Some(x) => Some(x.clone()),
        None => None,
    }
}

/// The view of an optional string.
pub open spec fn opt_str_view(s: Option<String>) -> Option<Seq<char>> {
    match s {
        Some(x) => Some(x@),
        None => None,
    }
}

// ---------------------------------------------------------------------------
// Includes
// ---------------------------------------------------------------------------

/// Supported formats for included external config files.
#[derive(Debug, Clone, Copy, PartialEq, Eq, Structural)]
pub enum IncludeType {
    /// JSON file (e.g. `package.json`)
    Json,
    /// TOML file (e.g. `Cargo.toml`)
    Toml,
    /// YAML file (e.g. `scripts.yaml`)
    Yaml,
}

/// The format assumed when a remote or git include names none.
pub fn default_yaml_type() -> (t: IncludeType)
    ensures
        t == IncludeType::Yaml,
{
    IncludeType::Yaml
}

/// An external file of the repository to import scripts from.
#[derive(Debug)]
pub struct LocalInclude {
    /// Path to the file, relative to the repository root.
    pub path: String,
    /// File format.
    pub file_type: IncludeType,
    /// Identifier used to reference this include in hook commands (`$include: <ref>`).
    pub ref_name: String,
}

/// A remote file fetched via HTTP/HTTPS.
#[derive(Debug)]
pub struct RemoteInclude {
    /// Full URL of the file to fetch.
    pub url: String,
    /// File format.
    pub file_type: IncludeType,
    /// Identifier used to reference this include in hook commands.
    pub ref_name: String,
}

/// A file sourced from a remote Git repository at a specific revision.
#[derive(Debug)]
pub struct GitInclude {
    /// URL of the git repository.
    pub url: String,
    /// Git revision to check out: branch name, tag, or full commit SHA.
    pub rev: String,
    /// Path of the file within the repository.
    pub file: String,
    /// File format.
    pub file_type: IncludeType,
    /// Identifier used to reference this include in hook commands.
    pub ref_name: String,
}

/// An entry of the `include` list.
#[derive(Debug)]
pub enum IncludeEntry {
    /// A local file relative to the repository root.
    Local(LocalInclude),
    /// A remote file fetched via HTTP/HTTPS.
    Remote(RemoteInclude),
    /// A file sourced from a remote Git repository.
    Git(GitInclude),
}

/// The identifier of an include entry.
pub open spec fn include_ref_name(e: IncludeEntry) -> Seq<char> {
    match e {
        IncludeEntry::Local(l) => l.ref_name@,
        IncludeEntry::Remote(r) => r.ref_name@,
        IncludeEntry::Git(g) => g.ref_name@,
    }
}

/// The location an include entry names: path, URL, or file in the repository.
pub open spec fn include_path(e: IncludeEntry) -> Seq<char> {
    match e {
        IncludeEntry::Local(l) => l.path@,
        IncludeEntry::Remote(r) => r.url@,
        IncludeEntry::Git(g) => g.file@,
    }
}

/// The format of an include entry.
pub open spec fn include_type(e: IncludeEntry) -> IncludeType {
    match e {
        IncludeEntry::Local(l) => l.file_type,
        IncludeEntry::Remote(r) => r.file_type,
        IncludeEntry::Git(g) => g.file_type,
    }
}

impl IncludeEntry {
    /// The identifier used by `$include:` to name this entry.
    pub fn ref_name(&self) -> (s: &str)
        ensures
            s@ == include_ref_name(*self),
    {
        match self {
            IncludeEntry::Local(l) => l.ref_name.as_str(),
            IncludeEntry::Remote(r) => r.ref_name.as_str(),
            IncludeEntry::Git(g) => g.ref_name.as_str(),
        }
    }

    /// The path, URL or repository file this entry reads.
    pub fn path(&self) -> (s: &str)
        ensures
            s@ == include_path(*self),
    {
        match self {
            IncludeEntry::Local(l) => l.path.as_str(),
            IncludeEntry::Remote(r) => r.url.as_str(),
            IncludeEntry::Git(g) => g.file.as_str(),
        }
    }

    /// The format of the included file.
    pub fn file_type(&self) -> (t: &IncludeType)
        ensures
            *t == include_type(*self),
    {
        match self {
            IncludeEntry::Local(l) => &l.file_type,
            IncludeEntry::Remote(r) => &r.file_type,
            IncludeEntry::Git(g) => &g.file_type,
        }
    }
}

// ---------------------------------------------------------------------------
// Cache settings
// ---------------------------------------------------------------------------

/// Global cache settings.
#[derive(Debug)]
pub struct GlobalCache {
    /// Enable caching. Commands without a `cache` block are always executed.
    pub enabled: bool,
    /// Override the cache directory (default: `.githops/cache`).
    pub dir: Option<String>,
}

/// The cache directory a configuration selects.
pub open spec fn cache_dir_of(dir: Option<String>) -> Seq<char> {
    match dir {
        Some(d) => d@,
        None => DEFAULT_CACHE_DIR@,
    }
}

impl GlobalCache {
    /// Settings with caching off and no directory override.
    pub fn default() -> (c: GlobalCache)
        ensures
            !c.enabled,
            c.dir is None,
    {
        GlobalCache { enabled: false, dir: None }
    }

    /// Neither enabled nor given a directory (then omitted when saved).
    pub fn is_unconfigured(&self) -> (b: bool)
        ensures
            b == (!self.enabled && self.dir is None),
    {
        !self.enabled && self.dir.is_none()
    }

    /// The cache directory: `dir`, or `.githops/cache` when unset.
    pub fn cache_dir(&self) -> (p: String)
        ensures
            p@ == cache_dir_of(self.dir),
    {
        match &self.dir {
            Some(d) => d.clone(),
            None => string_of(DEFAULT_CACHE_DIR),
        }
    }
}

/// Per-command cache configuration.
#[derive(Debug)]
pub struct CommandCache {
    /// File glob patterns treated as inputs.
    pub inputs: Vec<String>,
    /// Extra strings mixed into the cache key.
    pub key: Vec<String>,
}

/// The mathematical value of a command cache block.
pub struct CacheView {
    pub inputs: Seq<Seq<char>>,
    pub key: Seq<Seq<char>>,
}

impl View for CommandCache {
    type V = CacheView;

    open spec fn view(&self) -> CacheView {
        CacheView { inputs: strs_view(self.inputs@), key: strs_view(self.key@) }
    }
}

impl Duplicate for CommandCache {
    fn duplicate(&self) -> (r: CommandCache) {
        CommandCache { inputs: self.inputs.duplicate(), key: self.key.duplicate() }
    }
}

/// The view of an optional cache block.
pub open spec fn opt_cache_view(c: Option<CommandCache>) -> Option<CacheView> {
    match c {
        Some(x) => Some(x@),
        None => None,
    }
}

// ---------------------------------------------------------------------------
// Commands
// ---------------------------------------------------------------------------

/// A concrete command of a hook.
#[derive(Debug)]
pub struct Command {
    /// Human-readable label shown in output.
    pub name: String,
    /// Shell command to execute.
    pub run: String,
    /// Names of commands of the same hook that must succeed first.
    pub depends: Vec<String>,
    /// Additional environment variables.
    pub env: NameMap<String>,
    /// Test-only command: not run during normal hooks.
    pub test: bool,
    /// Cache configuration for this command.
    pub cache: Option<CommandCache>,
}

/// The mathematical value of a command.
pub struct CommandView {
    pub name: Seq<char>,
    pub run: Seq<char>,
    pub depends: Seq<Seq<char>>,
    pub env: Seq<(Seq<char>, Seq<char>)>,
    pub test: bool,
    pub cache: Option<CacheView>,
}

impl View for Command {
    type V = CommandView;

    open spec fn view(&self) -> CommandView {
        CommandView {
            name: self.name@,
            run: self.run@,
            depends: strs_view(self.depends@),
            env: self.env@,
            test: self.test,
            cache: opt_cache_view(self.cache),
        }
    }
}

impl Duplicate for Command {
    fn duplicate(&self) -> (r: Command) {
        let cache = match &self.cache {
            Some(c) => Some(c.duplicate()),
            None => None,
        };
        Command {
            name: self.name.clone(),
            run: self.run.clone(),
            depends: self.depends.duplicate(),
            env: self.env.duplicate(),
            test: self.test,
            cache,
        }
    }
}

/// The views of a list of commands.
pub open spec fn commands_view(v: Seq<Command>) -> Seq<CommandView> {
    v.map_values(|c: Command| c@)
}

/// Copies a list of commands.
pub fn dup_commands(v: &Vec<Command>) -> (r: Vec<Command>)
    ensures
        commands_view(r@) == commands_view(v@),
{
    let mut r: Vec<Command> = Vec::new();
    let mut i: usize = 0;
    while i < v.len()
        invariant
            i <= v.len(),
            r.len() == i,
            forall|j: int| 0 <= j < i ==> (#[trigger] r@[j])@ == v@[j]@,
        decreases v.len() - i,
    {
        r.push(v[i].duplicate());
        i = i + 1;
    }
    assert(commands_view(r@) =~= commands_view(v@));
    r
}

/// A reference to a named definition (`$ref: name`), with optional overrides.
#[derive(Debug)]
pub struct RefEntry {
    /// Name of the definition to reference.
    pub target: String,
    /// Extra arguments appended to the definition's `run` command.
    pub args: Option<String>,
    /// Override of the display name for this use.
    pub name: Option<String>,
}

/// The mathematical value of a `$ref` entry.
pub struct RefView {
    pub target: Seq<char>,
    pub args: Option<Seq<char>>,
    pub name: Option<Seq<char>>,
}

impl View for RefEntry {
    type V = RefView;

    open spec fn view(&self) -> RefView {
        RefView { target: self.target@, args: opt_str_view(self.args), name: opt_str_view(self.name) }
    }
}

impl Duplicate for RefEntry {
    fn duplicate(&self) -> (r: RefEntry) {
        RefEntry {
            target: self.target.clone(),
            args: dup_opt_string(&self.args),
            name: dup_opt_string(&self.name),
        }
    }
}

/// A reference to a value in an included external file (`$include: ref`).
#[derive(Debug)]
pub struct IncludeRef {
    /// Name of the include to reference.
    pub include_ref: String,
    /// Dot-notation path to the value in the file (e.g. `scripts.lint`).
    pub run: String,
    /// Extra arguments appended to the resolved command string.
    pub args: Option<String>,
    /// Environment variables set for this command invocation.
    pub env: NameMap<String>,
    /// Optional display name. Defaults to the last segment of `run`.
    pub name: Option<String>,
}

/// The mathematical value of an `$include` entry.
pub struct IncludeRefView {
    pub include_ref: Seq<char>,
    pub run: Seq<char>,
    pub args: Option<Seq<char>>,
    pub env: Seq<(Seq<char>, Seq<char>)>,
    pub name: Option<Seq<char>>,
}

impl View for IncludeRef {
    type V = IncludeRefView;

    open spec fn view(&self) -> IncludeRefView {
        IncludeRefView {
            include_ref: self.include_ref@,
            run: self.run@,
            args: opt_str_view(self.args),
            env: self.env@,
            name: opt_str_view(self.name),
        }
    }
}

impl Duplicate for IncludeRef {
    fn duplicate(&self) -> (r: IncludeRef) {
        IncludeRef {
            include_ref: self.include_ref.clone(),
            run: self.run.clone(),
            args: dup_opt_string(&self.args),
            env: self.env.duplicate(),
            name: dup_opt_string(&self.name),
        }
    }
}

/// An entry of a hook's command list.
#[derive(Debug)]
pub enum CommandEntry {
    /// A reference to a value in an included external file.
    Include(IncludeRef),
    /// A reference to a named definition.
    Ref(RefEntry),
    /// An inline command definition.
    Inline(Command),
}

/// The mathematical value of a command-list entry.
pub enum EntryView {
    Include(IncludeRefView),
    Ref(RefView),
    Inline(CommandView),
}

impl View for CommandEntry {
    type V = EntryView;

    open spec fn view(&self) -> EntryView {
        match self {
            CommandEntry::Include(i) => EntryView::Include(i@),
            CommandEntry::Ref(r) => EntryView::Ref(r@),
            CommandEntry::Inline(c) => EntryView::Inline(c@),
        }
    }
}

impl Duplicate for CommandEntry {
    fn duplicate(&self) -> (r: CommandEntry) {
        match self {
            CommandEntry::Include(i) => CommandEntry::Include(i.duplicate()),
            CommandEntry::Ref(x) => CommandEntry::Ref(x.duplicate()),
            CommandEntry::Inline(c) => CommandEntry::Inline(c.duplicate()),
        }
    }
}

impl CommandEntry {
    /// An inline entry holding `cmd`.
    pub fn from(cmd: Command) -> (e: CommandEntry)
        ensures
            e@ == EntryView::Inline(cmd@),
    {
        CommandEntry::Inline(cmd)
    }
}

/// The views of a command list.
pub open spec fn entries_view(v: Seq<CommandEntry>) -> Seq<EntryView> {
    v.map_values(|e: CommandEntry| e@)
}

/// Copies a command list.
pub fn dup_entries(v: &Vec<CommandEntry>) -> (r: Vec<CommandEntry>)
    ensures
        entries_view(r@) == entries_view(v@),
{
    let mut r: Vec<CommandEntry> = Vec::new();
    let mut i: usize = 0;
    while i < v.len()
        invariant
            i <= v.len(),
            r.len() == i,
            forall|j: int| 0 <= j < i ==> (#[trigger] r@[j])@ == v@[j]@,
        decreases v.len() - i,
    {
        r.push(v[i].duplicate());
        i = i + 1;
    }
    assert(entries_view(r@) =~= entries_view(v@));
    r
}

/// A reusable definition: a single command or a list of commands.
#[derive(Debug)]
pub enum DefinitionEntry {
    /// A list of commands that will be inlined when referenced.
    List(Vec<Command>),
    /// A single command.
    Single(Command),
}

/// The mathematical value of a definition.
pub enum DefView {
    List(Seq<CommandView>),
    Single(CommandView),
}

impl View for DefinitionEntry {
    type V = DefView;

    open spec fn view(&self) -> DefView {
        match self {
            DefinitionEntry::List(v) => DefView::List(commands_view(v@)),
            DefinitionEntry::Single(c) => DefView::Single(c@),
        }
    }
}

impl Duplicate for DefinitionEntry {
    fn duplicate(&self) -> (r: DefinitionEntry) {
        match self {
            DefinitionEntry::List(v) => DefinitionEntry::List(dup_commands(v)),
            DefinitionEntry::Single(c) => DefinitionEntry::Single(c.duplicate()),
        }
    }
}

/// Configuration of one hook.
#[derive(Debug)]
pub struct HookConfig {
    /// Whether this hook is active.
    pub enabled: bool,
    /// Run commands concurrently within each dependency wave.
    pub parallel: bool,
    /// Commands to run when this hook fires.
    pub commands: Vec<CommandEntry>,
}

/// The mathematical value of a hook configuration.
pub struct HookView {
    pub enabled: bool,
    pub parallel: bool,
    pub commands: Seq<EntryView>,
}

impl View for HookConfig {
    type V = HookView;

    open spec fn view(&self) -> HookView {
        HookView {
            enabled: self.enabled,
            parallel: self.parallel,
            commands: entries_view(self.commands@),
        }
    }
}

impl Duplicate for HookConfig {
    fn duplicate(&self) -> (r: HookConfig) {
        HookConfig {
            enabled: self.enabled,
            parallel: self.parallel,
            commands: dup_entries(&self.commands),
        }
    }
}

/// The value of `enabled` when a hook does not set it.
pub fn default_true() -> (b: bool)
    ensures
        b,
{
    true
}

/// The schema version written when none is given.
pub fn default_version() -> (s: String)
    ensures
        s@ == "1"@,
{
    string_of("1")
}


// ---------------------------------------------------------------------------
// Hooks
// ---------------------------------------------------------------------------

/// The git hook names a configuration can set, in the order of the slots of
/// [`Hooks`].
pub open spec fn hook_names() -> Seq<Seq<char>> {
    seq![
        "applypatch-msg"@,
        "pre-applypatch"@,
        "post-applypatch"@,
        "pre-commit"@,
        "pre-merge-commit"@,
        "prepare-commit-msg"@,
        "commit-msg"@,
        "post-commit"@,
        "pre-rebase"@,
        "post-checkout"@,
        "post-merge"@,
        "pre-push"@,
        "pre-receive"@,
        "update"@,
        "proc-receive"@,
        "post-receive"@,
        "post-update"@,
        "reference-transaction"@,
        "push-to-checkout"@,
        "pre-auto-gc"@,
        "post-rewrite"@,
        "sendemail-validate"@,
        "fsmonitor-watchman"@,
        "p4-changelist"@,
        "p4-prepare-changelist"@,
        "p4-post-changelist"@,
        "p4-pre-submit"@,
        "post-index-change"@,
    ]
}

/// The slot of hook `name`, or -1 for a name that is not a git hook.
pub open spec fn hook_slot(name: Seq<char>) -> int {
    first_index(hook_names(), name)
}

/// Index of the first element of `s` equal to `x`, or -1.
pub open spec fn first_index(s: Seq<Seq<char>>, x: Seq<char>) -> int
    decreases s.len(),
{
    if s.len() == 0 {
        -1
    } else if s[0] == x {
        0
    } else {
        let r = first_index(s.drop_first(), x);
        if r < 0 { -1 } else { r + 1 }
    }
}

pub proof fn lemma_first_index(s: Seq<Seq<char>>, x: Seq<char>)
    ensures
        -1 <= first_index(s, x) < s.len(),
        first_index(s, x) >= 0 ==> s[first_index(s, x)] == x,
        first_index(s, x) == -1 <==> !s.contains(x),
    decreases s.len(),
{
    if s.len() > 0 {
        lemma_first_index(s.drop_first(), x);
        if s[0] != x {
            if s.contains(x) {
                let i = choose|i: int| 0 <= i < s.len() && #[trigger] s[i] == x;
                assert(s.drop_first()[i - 1] == x);
            }
            if first_index(s.drop_first(), x) >= 0 {
                assert(s.drop_first()[first_index(s.drop_first(), x)] == x);
            }
        }
    }
}

pub proof fn lemma_first_index_at(s: Seq<Seq<char>>, x: Seq<char>, i: int)
    requires
        0 <= i < s.len(),
        s[i] == x,
        forall|j: int| 0 <= j < i ==> s[j] != x,
    ensures
        first_index(s, x) == i,
    decreases i,
{
    if i > 0 {
        lemma_first_index_at(s.drop_first(), x, i - 1);
    }
}

/// The view of an optional hook configuration.
pub open spec fn opt_hook_view(h: Option<HookConfig>) -> Option<HookView> {
    match h {
        Some(x) => Some(x@),
        None => None,
    }
}

/// All supported git hooks. Configure any hook by setting its slot.
#[derive(Debug)]
pub struct Hooks {
    pub applypatch_msg: Option<HookConfig>,
    pub pre_applypatch: Option<HookConfig>,
    pub post_applypatch: Option<HookConfig>,
    pub pre_commit: Option<HookConfig>,
    pub pre_merge_commit: Option<HookConfig>,
    pub prepare_commit_msg: Option<HookConfig>,
    pub commit_msg: Option<HookConfig>,
    pub post_commit: Option<HookConfig>,
    pub pre_rebase: Option<HookConfig>,
    pub post_checkout: Option<HookConfig>,
    pub post_merge: Option<HookConfig>,
    pub pre_push: Option<HookConfig>,
    pub pre_receive: Option<HookConfig>,
    pub update: Option<HookConfig>,
    pub proc_receive: Option<HookConfig>,
    pub post_receive: Option<HookConfig>,
    pub post_update: Option<HookConfig>,
    pub reference_transaction: Option<HookConfig>,
    pub push_to_checkout: Option<HookConfig>,
    pub pre_auto_gc: Option<HookConfig>,
    pub post_rewrite: Option<HookConfig>,
    pub sendemail_validate: Option<HookConfig>,
    pub fsmonitor_watchman: Option<HookConfig>,
    pub p4_changelist: Option<HookConfig>,
    pub p4_prepare_changelist: Option<HookConfig>,
    pub p4_post_changelist: Option<HookConfig>,
    pub p4_pre_submit: Option<HookConfig>,
    pub post_index_change: Option<HookConfig>,
}

impl View for Hooks {
    type V = Seq<Option<HookView>>;

    open spec fn view(&self) -> Seq<Option<HookView>> {
        seq![
            opt_hook_view(self.applypatch_msg),
            opt_hook_view(self.pre_applypatch),
            opt_hook_view(self.post_applypatch),
            opt_hook_view(self.pre_commit),
            opt_hook_view(self.pre_merge_commit),
            opt_hook_view(self.prepare_commit_msg),
            opt_hook_view(self.commit_msg),
            opt_hook_view(self.post_commit),
            opt_hook_view(self.pre_rebase),
            opt_hook_view(self.post_checkout),
            opt_hook_view(self.post_merge),
            opt_hook_view(self.pre_push),
            opt_hook_view(self.pre_receive),
            opt_hook_view(self.update),
            opt_hook_view(self.proc_receive),
            opt_hook_view(self.post_receive),
            opt_hook_view(self.post_update),
            opt_hook_view(self.reference_transaction),
            opt_hook_view(self.push_to_checkout),
            opt_hook_view(self.pre_auto_gc),
            opt_hook_view(self.post_rewrite),
            opt_hook_view(self.sendemail_validate),
            opt_hook_view(self.fsmonitor_watchman),
            opt_hook_view(self.p4_changelist),
            opt_hook_view(self.p4_prepare_changelist),
            opt_hook_view(self.p4_post_changelist),
            opt_hook_view(self.p4_pre_submit),
            opt_hook_view(self.post_index_change),
        ]
    }
}

/// The configuration of hook `name` in the slots `h`.
pub open spec fn hooks_get(h: Seq<Option<HookView>>, name: Seq<char>) -> Option<HookView> {
    let s = hook_slot(name);
    if 0 <= s < h.len() {
        h[s]
    } else {
        None
    }
}

/// The slots after setting hook `name` to `v`; unknown names change nothing.
pub open spec fn hooks_put(h: Seq<Option<HookView>>, name: Seq<char>, v: Option<HookView>) -> Seq<Option<HookView>> {
    let s = hook_slot(name);
    if 0 <= s < h.len() {
        h.update(s, v)
    } else {
        h
    }
}

/// The slot of `name` among the git hook names.
pub fn hook_slot_index(name: &str) -> (r: Option<usize>)
    ensures
        match r {
            Some(i) => hook_slot(name@) == i && i < 28,
            None => hook_slot(name@) == -1,
        },
{
    let names: Vec<&str> = vec![
        "applypatch-msg",
        "pre-applypatch",
        "post-applypatch",
        "pre-commit",
        "pre-merge-commit",
        "prepare-commit-msg",
        "commit-msg",
        "post-commit",
        "pre-rebase",
        "post-checkout",
        "post-merge",
        "pre-push",
        "pre-receive",
        "update",
        "proc-receive",
        "post-receive",
        "post-update",
        "reference-transaction",
        "push-to-checkout",
        "pre-auto-gc",
        "post-rewrite",
        "sendemail-validate",
        "fsmonitor-watchman",
        "p4-changelist",
        "p4-prepare-changelist",
        "p4-post-changelist",
        "p4-pre-submit",
        "post-index-change",
    ];
    let ghost nv = names@.map_values(|s: &str| s@);
    assert(nv =~= hook_names());
    proof {
        lemma_first_index(hook_names(), name@);
    }
    let mut i: usize = 0;
    while i < names.len()
        invariant
            nv == names@.map_values(|s: &str| s@),
            nv == hook_names(),
            i <= names.len(),
            names.len() == 28,
            forall|j: int| 0 <= j < i ==> nv[j] != name@,
        decreases names.len() - i,
    {
        if str_eq(names[i], name) {
            proof {
                lemma_first_index_at(nv, name@, i as int);
            }
            return Some(i);
        }
        i = i + 1;
    }
    None
}

impl Hooks {
    /// No hook configured.
    pub fn default() -> (h: Hooks)
        ensures
            forall|i: int| 0 <= i < 28 ==> #[trigger] h@[i] is None,
    {
        Hooks {
            applypatch_msg: None,
            pre_applypatch: None,
            post_applypatch: None,
            pre_commit: None,
            pre_merge_commit: None,
            prepare_commit_msg: None,
            commit_msg: None,
            post_commit: None,
            pre_rebase: None,
            post_checkout: None,
            post_merge: None,
            pre_push: None,
            pre_receive: None,
            update: None,
            proc_receive: None,
            post_receive: None,
            post_update: None,
            reference_transaction: None,
            push_to_checkout: None,
            pre_auto_gc: None,
            post_rewrite: None,
            sendemail_validate: None,
            fsmonitor_watchman: None,
            p4_changelist: None,
            p4_prepare_changelist: None,
            p4_post_changelist: None,
            p4_pre_submit: None,
            post_index_change: None,
        }
    }

    /// The configuration of hook `name` (e.g. "pre-commit").
    pub fn get(&self, name: &str) -> (r: Option<&HookConfig>)
        ensures
            match r {
                Some(h) => hooks_get(self@, name@) == Some(h@),
                None => hooks_get(self@, name@) is None,
            },
    {
        match hook_slot_index(name) {
            Some(0) => self.applypatch_msg.as_ref(),
            Some(1) => self.pre_applypatch.as_ref(),
            Some(2) => self.post_applypatch.as_ref(),
            Some(3) => self.pre_commit.as_ref(),
            Some(4) => self.pre_merge_commit.as_ref(),
            Some(5) => self.prepare_commit_msg.as_ref(),
            Some(6) => self.commit_msg.as_ref(),
            Some(7) => self.post_commit.as_ref(),
            Some(8) => self.pre_rebase.as_ref(),
            Some(9) => self.post_checkout.as_ref(),
            Some(10) => self.post_merge.as_ref(),
            Some(11) => self.pre_push.as_ref(),
            Some(12) => self.pre_receive.as_ref(),
            Some(13) => self.update.as_ref(),
            Some(14) => self.proc_receive.as_ref(),
            Some(15) => self.post_receive.as_ref(),
            Some(16) => self.post_update.as_ref(),
            Some(17) => self.reference_transaction.as_ref(),
            Some(18) => self.push_to_checkout.as_ref(),
            Some(19) => self.pre_auto_gc.as_ref(),
            Some(20) => self.post_rewrite.as_ref(),
            Some(21) => self.sendemail_validate.as_ref(),
            Some(22) => self.fsmonitor_watchman.as_ref(),
            Some(23) => self.p4_changelist.as_ref(),
            Some(24) => self.p4_prepare_changelist.as_ref(),
            Some(25) => self.p4_post_changelist.as_ref(),
            Some(26) => self.p4_pre_submit.as_ref(),
            Some(27) => self.post_index_change.as_ref(),
            _ => None,
        }
    }

    /// Sets the configuration of hook `name`; unknown names are ignored.
    #[verifier::rlimit(60)]
    pub fn set(&mut self, name: &str, cfg: HookConfig)
        ensures
            final(self)@ == hooks_put(old(self)@, name@, Some(cfg@)),
    {
        let ghost v = cfg@;
        match hook_slot_index(name) {
            Some(0) => { self.applypatch_msg = Some(cfg); },
            Some(1) => { self.pre_applypatch = Some(cfg); },
            Some(2) => { self.post_applypatch = Some(cfg); },
            Some(3) => { self.pre_commit = Some(cfg); },
            Some(4) => { self.pre_merge_commit = Some(cfg); },
            Some(5) => { self.prepare_commit_msg = Some(cfg); },
            Some(6) => { self.commit_msg = Some(cfg); },
            Some(7) => { self.post_commit = Some(cfg); },
            Some(8) => { self.pre_rebase = Some(cfg); },
            Some(9) => { self.post_checkout = Some(cfg); },
            Some(10) => { self.post_merge = Some(cfg); },
            Some(11) => { self.pre_push = Some(cfg); },
            Some(12) => { self.pre_receive = Some(cfg); },
            Some(13) => { self.update = Some(cfg); },
            Some(14) => { self.proc_receive = Some(cfg); },
            Some(15) => { self.post_receive = Some(cfg); },
            Some(16) => { self.post_update = Some(cfg); },
            Some(17) => { self.reference_transaction = Some(cfg); },
            Some(18) => { self.push_to_checkout = Some(cfg); },
            Some(19) => { self.pre_auto_gc = Some(cfg); },
            Some(20) => { self.post_rewrite = Some(cfg); },
            Some(21) => { self.sendemail_validate = Some(cfg); },
            Some(22) => { self.fsmonitor_watchman = Some(cfg); },
            Some(23) => { self.p4_changelist = Some(cfg); },
            Some(24) => { self.p4_prepare_changelist = Some(cfg); },
            Some(25) => { self.p4_post_changelist = Some(cfg); },
            Some(26) => { self.p4_pre_submit = Some(cfg); },
            Some(27) => { self.post_index_change = Some(cfg); },
            _ => {},
        }
        assert(self@ =~= hooks_put(old(self)@, name@, Some(v)));
    }

    /// Removes hook `name` from the configuration; unknown names are ignored.
    #[verifier::rlimit(60)]
    pub fn remove(&mut self, name: &str)
        ensures
            final(self)@ == hooks_put(old(self)@, name@, None),
    {
        match hook_slot_index(name) {
            Some(0) => { self.applypatch_msg = None; },
            Some(1) => { self.pre_applypatch = None; },
            Some(2) => { self.post_applypatch = None; },
            Some(3) => { self.pre_commit = None; },
            Some(4) => { self.pre_merge_commit = None; },
            Some(5) => { self.prepare_commit_msg = None; },
            Some(6) => { self.commit_msg = None; },
            Some(7) => { self.post_commit = None; },
            Some(8) => { self.pre_rebase = None; },
            Some(9) => { self.post_checkout = None; },
            Some(10) => { self.post_merge = None; },
            Some(11) => { self.pre_push = None; },
            Some(12) => { self.pre_receive = None; },
            Some(13) => { self.update = None; },
            Some(14) => { self.proc_receive = None; },
            Some(15) => { self.post_receive = None; },
            Some(16) => { self.post_update = None; },
            Some(17) => { self.reference_transaction = None; },
            Some(18) => { self.push_to_checkout = None; },
            Some(19) => { self.pre_auto_gc = None; },
            Some(20) => { self.post_rewrite = None; },
            Some(21) => { self.sendemail_validate = None; },
            Some(22) => { self.fsmonitor_watchman = None; },
            Some(23) => { self.p4_changelist = None; },
            Some(24) => { self.p4_prepare_changelist = None; },
            Some(25) => { self.p4_post_changelist = None; },
            Some(26) => { self.p4_pre_submit = None; },
            Some(27) => { self.post_index_change = None; },
            _ => {},
        }
        assert(self@ =~= hooks_put(old(self)@, name@, None));
    }
}

/// Reading a hook back after setting it gives what was set, for any git hook
/// name; setting or removing one hook leaves every other hook as it was, and
/// reading a removed hook gives nothing.
pub proof fn law_hooks_set_get(h: Seq<Option<HookView>>, name: Seq<char>, other: Seq<char>, v: Option<HookView>)
    requires
        h.len() == 28,
    ensures
        hook_names().contains(name) ==> hooks_get(hooks_put(h, name, v), name) == v,
        other != name ==> hooks_get(hooks_put(h, name, v), other) == hooks_get(h, other),
        !hook_names().contains(name) ==> hooks_put(h, name, v) == h,
{
    lemma_first_index(hook_names(), name);
    lemma_first_index(hook_names(), other);
    assert(hook_names().len() == 28);
}


// ---------------------------------------------------------------------------
// The whole configuration
// ---------------------------------------------------------------------------

/// The configuration held in `githops.yaml`.
#[derive(Debug)]
pub struct Config {
    /// Schema version.
    pub version: String,
    /// External file includes.
    pub includes: Vec<IncludeEntry>,
    /// Reusable command definitions, by name.
    pub definitions: NameMap<DefinitionEntry>,
    /// Hook definitions.
    pub hooks: Hooks,
    /// Smart caching settings.
    pub cache: GlobalCache,
}

impl Config {
    /// An empty configuration: no includes, definitions or hooks, caching off,
    /// and an empty version string.
    pub fn default() -> (c: Config)
        ensures
            c.version@.len() == 0,
            c.includes@.len() == 0,
            c.definitions@.len() == 0,
            forall|i: int| 0 <= i < 28 ==> #[trigger] c.hooks@[i] is None,
            !c.cache.enabled,
            c.cache.dir is None,
    {
        Config {
            version: String::new(),
            includes: Vec::new(),
            definitions: NameMap::new(),
            hooks: Hooks::default(),
            cache: GlobalCache::default(),
        }
    }
}

// ---------------------------------------------------------------------------
// Resolving a hook's commands
// ---------------------------------------------------------------------------

/// `base`, followed by a space and `args` when there are arguments.
pub open spec fn with_args(base: Seq<char>, args: Option<Seq<char>>) -> Seq<char> {
    match args {
        Some(a) => base + " "@ + a,
        None => base,
    }
}

/// A definition's command as a `$ref` uses it: `args` appended to its run
/// line, and its name replaced when the reference names one.
pub open spec fn apply_ref(c: CommandView, r: RefView) -> CommandView {
    CommandView {
        name: match r.name {
            Some(n) => n,
            None => c.name,
        },
        run: with_args(c.run, r.args),
        depends: c.depends,
        env: c.env,
        test: c.test,
        cache: c.cache,
    }
}

/// The commands one entry stands for: an inline command itself, a `$ref` the
/// referenced definition (a list inlined as it is, a single command with the
/// reference's overrides; nothing for an unknown name), an `$include` nothing.
pub open spec fn expand_entry(e: EntryView, defs: Seq<(Seq<char>, DefView)>) -> Seq<CommandView> {
    match e {
        EntryView::Inline(c) => seq![c],
        EntryView::Ref(r) => match lookup(defs, r.target) {
            Some(DefView::Single(c)) => seq![apply_ref(c, r)],
            Some(DefView::List(cs)) => cs,
            None => Seq::empty(),
        },
        EntryView::Include(_) => Seq::empty(),
    }
}

/// The commands of a list of entries, in order.
pub open spec fn resolve_all(es: Seq<EntryView>, defs: Seq<(Seq<char>, DefView)>) -> Seq<CommandView>
    decreases es.len(),
{
    if es.len() == 0 {
        Seq::empty()
    } else {
        resolve_all(es.drop_last(), defs) + expand_entry(es.last(), defs)
    }
}

/// Resolving two lists one after the other gives the two results one after
/// the other.
pub proof fn lemma_resolve_all_append(a: Seq<EntryView>, b: Seq<EntryView>, defs: Seq<(Seq<char>, DefView)>)
    ensures
        resolve_all(a + b, defs) == resolve_all(a, defs) + resolve_all(b, defs),
    decreases b.len(),
{
    if b.len() == 0 {
        assert(a + b =~= a);
        assert(resolve_all(a, defs) + resolve_all(b, defs) =~= resolve_all(a, defs));
    } else {
        lemma_resolve_all_append(a, b.drop_last(), defs);
        assert((a + b).drop_last() =~= a + b.drop_last());
        assert((a + b).last() == b.last());
        assert(resolve_all(a + b, defs) =~= resolve_all(a, defs) + resolve_all(b, defs));
    }
}

/// Resolving a hook's command list puts the commands of each entry in its
/// place, between those of the entries before and after it: an inline
/// command as it is; a `$ref` to a list definition the definition's commands
/// as one block in the definition's order; a `$ref` to a single definition
/// that command, renamed when the reference gives a name and with the
/// reference's arguments after a space; a `$ref` to an unknown name or an
/// `$include` nothing.
pub proof fn law_resolve_in_place(es: Seq<EntryView>, defs: Seq<(Seq<char>, DefView)>, m: int)
    requires
        0 <= m < es.len(),
    ensures
        ({
            let before = resolve_all(es.take(m), defs);
            let after = resolve_all(es.skip(m + 1), defs);
            let all = resolve_all(es, defs);
            match es[m] {
                EntryView::Inline(c) => all == before + seq![c] + after,
                EntryView::Ref(r) => match lookup(defs, r.target) {
                    Some(DefView::List(cs)) => all == before + cs + after && forall|j: int|
                        0 <= j < cs.len() ==> #[trigger] all[before.len() + j] == cs[j],
                    Some(DefView::Single(c)) => all == before + seq![
                        CommandView {
                            name: match r.name {
                                Some(n) => n,
                                None => c.name,
                            },
                            run: match r.args {
                                Some(a) => c.run + " "@ + a,
                                None => c.run,
                            },
                            depends: c.depends,
                            env: c.env,
                            test: c.test,
                            cache: c.cache,
                        },
                    ] + after,
                    None => all == before + after,
                },
                EntryView::Include(_) => all == before + after,
            }
        }),
{
    let e = es[m];
    assert(es =~= es.take(m) + seq![e] + es.skip(m + 1));
    lemma_resolve_all_append(es.take(m) + seq![e], es.skip(m + 1), defs);
    lemma_resolve_all_append(es.take(m), seq![e], defs);
    assert(seq![e].drop_last() =~= Seq::<EntryView>::empty());
    assert(seq![e].last() == e);
    assert(resolve_all(Seq::<EntryView>::empty(), defs) == Seq::<CommandView>::empty());
    assert(resolve_all(seq![e], defs) == resolve_all(seq![e].drop_last(), defs) + expand_entry(seq![e].last(), defs));
    assert(resolve_all(seq![e], defs) =~= expand_entry(e, defs));
    let before = resolve_all(es.take(m), defs);
    let after = resolve_all(es.skip(m + 1), defs);
    let all = resolve_all(es, defs);
    assert(all == before + expand_entry(e, defs) + after);
    match e {
        EntryView::Ref(r) => match lookup(defs, r.target) {
            Some(DefView::List(cs)) => {
                assert forall|j: int| 0 <= j < cs.len() implies #[trigger] all[before.len() + j] == cs[j] by {
                    assert((before + cs + after)[before.len() + j] == cs[j]);
                }
            },
            _ => {},
        },
        _ => {},
    }
}

/// Appends `a`, with a space before it, to `s`.
fn append_args(s: &mut String, a: &String)
    ensures
        final(s)@ == old(s)@ + " "@ + a@,
{
    push_str(s, " ");
    push_str(s, a.as_str());
}

/// Appends the commands of one entry to `out`.
fn expand_entry_into(e: &CommandEntry, definitions: &NameMap<DefinitionEntry>, out: &mut Vec<Command>)
    ensures
        commands_view(final(out)@) == commands_view(old(out)@) + expand_entry(e@, definitions@),
{
    let ghost start = commands_view(out@);
    match e {
        CommandEntry::Inline(cmd) => {
            out.push(cmd.duplicate());
            assert(commands_view(out@) =~= start + expand_entry(e@, definitions@));
        },
        CommandEntry::Ref(r) => {
            match definitions.get(r.target.as_str()) {
                Some(DefinitionEntry::Single(cmd)) => {
                    let mut c = cmd.duplicate();
                    match &r.args {
                        Some(a) => append_args(&mut c.run, a),
                        None => {},
                    }
                    match &r.name {
                        Some(n) => {
                            c.name = n.clone();
                        },
                        None => {},
                    }
                    out.push(c);
                    assert(commands_view(out@) =~= start + expand_entry(e@, definitions@));
                },
                Some(DefinitionEntry::List(cmds)) => {
                    let mut i: usize = 0;
                    while i < cmds.len()
                        invariant
                            i <= cmds.len(),
                            commands_view(out@) == start + commands_view(cmds@).take(i as int),
                        decreases cmds.len() - i,
                    {
                        let ghost before = commands_view(out@);
                        let d = cmds[i].duplicate();
                        out.push(d);
                        assert(commands_view(out@) =~= before.push(cmds@[i as int]@));
                        assert(commands_view(cmds@).take(i + 1) =~= commands_view(cmds@).take(i as int).push(
                            cmds@[i as int]@,
                        ));
                        assert(commands_view(out@) =~= start + commands_view(cmds@).take(i + 1));
                        i = i + 1;
                    }
                    assert(commands_view(cmds@).take(i as int) == commands_view(cmds@));
                },
                None => {
                    assert(commands_view(out@) =~= start + expand_entry(e@, definitions@));
                },
            }
        },
        CommandEntry::Include(_) => {
            assert(commands_view(out@) =~= start + expand_entry(e@, definitions@));
        },
    }
}

impl HookConfig {
    /// The concrete commands of this hook: `$ref` entries expanded from
    /// `definitions` (unknown names skipped), `$include` entries skipped.
    pub fn resolved_commands(&self, definitions: &NameMap<DefinitionEntry>) -> (r: Vec<Command>)
        ensures
            commands_view(r@) == resolve_all(self@.commands, definitions@),
    {
        let ghost es = self@.commands;
        let mut out: Vec<Command> = Vec::new();
        let mut i: usize = 0;
        while i < self.commands.len()
            invariant
                es == self@.commands,
                i <= self.commands.len(),
                commands_view(out@) == resolve_all(es.take(i as int), definitions@),
            decreases self.commands.len() - i,
        {
            expand_entry_into(&self.commands[i], definitions, &mut out);
            assert(es.take(i + 1).drop_last() == es.take(i as int));
            i = i + 1;
        }
        assert(es.take(i as int) == es);
        out
    }
}


// ---------------------------------------------------------------------------
// Resolving `$include` entries
// ---------------------------------------------------------------------------

/// Why an `$include` entry cannot be resolved.
#[derive(Debug)]
pub enum IncludeError {
    /// No entry of the `include:` list has this identifier.
    NotDefined { include_ref: String },
    /// The included file could not be read or parsed (the reason given).
    Load { message: String },
    /// The dot path names no value of the included file.
    PathNotFound { run: String, path: String },
}

/// The mathematical value of an include error.
pub enum IncludeErrorView {
    NotDefined { include_ref: Seq<char> },
    Load { message: Seq<char> },
    PathNotFound { run: Seq<char>, path: Seq<char> },
}

impl View for IncludeError {
    type V = IncludeErrorView;

    open spec fn view(&self) -> IncludeErrorView {
        match self {
            IncludeError::NotDefined { include_ref } => IncludeErrorView::NotDefined { include_ref: include_ref@ },
            IncludeError::Load { message } => IncludeErrorView::Load { message: message@ },
            IncludeError::PathNotFound { run, path } => IncludeErrorView::PathNotFound { run: run@, path: path@ },
        }
    }
}

/// The message reported for an include error.
pub open spec fn include_error_message(e: IncludeErrorView) -> Seq<char> {
    match e {
        IncludeErrorView::NotDefined { include_ref } => "Include '"@ + include_ref
            + "' not defined in the `include:` section."@,
        IncludeErrorView::Load { message } => message,
        IncludeErrorView::PathNotFound { run, path } => "Path '"@ + run + "' not found in '"@ + path + "'"@,
    }
}

impl IncludeError {
    /// The message reported to the user.
    pub fn message(&self) -> (s: String)
        ensures
            s@ == include_error_message(self@),
    {
        match self {
            IncludeError::NotDefined { include_ref } => {
                let mut s = string_of("Include '");
                push_str(&mut s, include_ref.as_str());
                push_str(&mut s, "' not defined in the `include:` section.");
                s
            },
            IncludeError::Load { message } => message.clone(),
            IncludeError::PathNotFound { run, path } => {
                let mut s = string_of("Path '");
                push_str(&mut s, run.as_str());
                push_str(&mut s, "' not found in '");
                push_str(&mut s, path.as_str());
                push_str(&mut s, "'");
                s
            },
        }
    }
}

/// Index of the first include entry with identifier `r`, or -1.
pub open spec fn include_index(includes: Seq<IncludeEntry>, r: Seq<char>) -> int
    decreases includes.len(),
{
    if includes.len() == 0 {
        -1
    } else if include_ref_name(includes[0]) == r {
        0
    } else {
        let k = include_index(includes.drop_first(), r);
        if k < 0 { -1 } else { k + 1 }
    }
}

proof fn lemma_include_index(includes: Seq<IncludeEntry>, r: Seq<char>)
    ensures
        -1 <= include_index(includes, r) < includes.len(),
        include_index(includes, r) >= 0 ==> include_ref_name(includes[include_index(includes, r)]) == r,
    decreases includes.len(),
{
    if includes.len() > 0 {
        lemma_include_index(includes.drop_first(), r);
    }
}

/// `base`, followed by a space and `args` when there are non-empty arguments.
pub open spec fn with_nonempty_args(base: Seq<char>, args: Option<Seq<char>>) -> Seq<char> {
    match args {
        Some(a) => if a.len() > 0 {
            base + " "@ + a
        } else {
            base
        },
        None => base,
    }
}

/// The name of a format as parse errors give it.
pub open spec fn type_label(t: IncludeType) -> Seq<char> {
    match t {
        IncludeType::Json => "JSON"@,
        IncludeType::Toml => "TOML"@,
        IncludeType::Yaml => "YAML"@,
    }
}

/// The parsed content of an included file.
#[derive(Debug)]
pub enum IncludeDoc {
    /// A JSON or TOML document.
    Tree(DocNode),
    /// A YAML document.
    Yaml(YamlNode),
}

/// The value of a parsed include.
pub enum IncludeDocView {
    Tree(DocView),
    Yaml(YamlView),
}

impl View for IncludeDoc {
    type V = IncludeDocView;

    open spec fn view(&self) -> IncludeDocView {
        match self {
            IncludeDoc::Tree(d) => IncludeDocView::Tree(d@),
            IncludeDoc::Yaml(n) => IncludeDocView::Yaml(n@),
        }
    }
}

/// What the file content `content` parses to as a file of format `t`, or
/// `None` where it does not parse.
pub open spec fn parsed_document(t: IncludeType, content: Seq<char>) -> Option<IncludeDocView> {
    match t {
        IncludeType::Json => match json_document(content) {
            Some(d) => Some(IncludeDocView::Tree(d)),
            None => None,
        },
        IncludeType::Toml => match toml_document(content) {
            Some(d) => Some(IncludeDocView::Tree(d)),
            None => None,
        },
        IncludeType::Yaml => match yaml_value(content) {
            Ok(v) => Some(IncludeDocView::Yaml(v)),
            Err(_) => None,
        },
    }
}

/// The message for content at `path` that does not parse as format `t`.
pub open spec fn parse_failure(t: IncludeType, path: Seq<char>) -> Seq<char> {
    "Failed to parse "@ + type_label(t) + " from '"@ + path + "'"@
}

/// A parsed include whose YAML tags all have names.
pub open spec fn include_doc_ok(d: IncludeDocView) -> bool {
    match d {
        IncludeDocView::Yaml(v) => tags_named(v),
        IncludeDocView::Tree(_) => true,
    }
}

/// The text at the dot-separated `run` path of a parsed include: for JSON or
/// TOML the node's text; for YAML a string or number as itself and any other
/// value as rendered and trimmed. `None` where a key is missing (or a YAML
/// value cannot be rendered).
pub open spec fn include_text(d: IncludeDocView, run: Seq<char>) -> Option<Seq<char>> {
    match d {
        IncludeDocView::Tree(doc) => match nav(doc, split_by(run, '.')) {
            Some(n) => Some(n.text),
            None => None,
        },
        IncludeDocView::Yaml(v) => yaml_path_text(v, run),
    }
}

/// Parses the content of the include file at `path` as a file of format
/// `file_type`.
pub fn load_include_document(content: &str, file_type: &IncludeType, path: &str) -> (r: Result<IncludeDoc, String>)
    ensures
        match parsed_document(*file_type, content@) {
            Some(d) => r matches Ok(x) && x@ == d && include_doc_ok(d),
            None => r matches Err(m) && m@ == parse_failure(*file_type, path@),
        },
{
    let parsed = match file_type {
        IncludeType::Json => match parse_json_document(content) {
            Some(d) => Some(IncludeDoc::Tree(d)),
            None => None,
        },
        IncludeType::Toml => match parse_toml_document(content) {
            Some(d) => Some(IncludeDoc::Tree(d)),
            None => None,
        },
        IncludeType::Yaml => match parse_yaml_value(content) {
            Ok(n) => Some(IncludeDoc::Yaml(n)),
            Err(_) => None,
        },
    };
    match parsed {
        Some(d) => Ok(d),
        None => {
            let mut m = string_of("Failed to parse ");
            match file_type {
                IncludeType::Json => push_str(&mut m, "JSON"),
                IncludeType::Toml => push_str(&mut m, "TOML"),
                IncludeType::Yaml => push_str(&mut m, "YAML"),
            }
            push_str(&mut m, " from '");
            push_str(&mut m, path);
            push_str(&mut m, "'");
            Err(m)
        },
    }
}

/// The text at the dot-separated path `run` of a parsed include.
pub fn include_doc_text(doc: &IncludeDoc, run: &str) -> (r: Option<String>)
    requires
        include_doc_ok(doc@),
    ensures
        match include_text(doc@, run@) {
            Some(t) => r matches Some(s) && s@ == t,
            None => r is None,
        },
{
    match doc {
        IncludeDoc::Tree(d) => match navigate(d, run) {
            Ok(t) => Some(t),
            Err(_) => None,
        },
        IncludeDoc::Yaml(n) => yaml_text_at(n, run),
    }
}

/// The command an `$include` entry stands for, given the content of each
/// include entry's file (or why it could not be read): the text at the dot
/// path `run` of the parsed file of the first include with the referenced
/// identifier, non-empty `args` appended; named `name`, or else after the
/// last segment of `run`.
pub open spec fn include_command(
    inc: IncludeRefView,
    includes: Seq<IncludeEntry>,
    contents: Seq<Result<String, String>>,
) -> Result<CommandView, IncludeErrorView> {
    let k = include_index(includes, inc.include_ref);
    if k < 0 {
        Err(IncludeErrorView::NotDefined { include_ref: inc.include_ref })
    } else {
        match contents[k] {
            Err(m) => Err(IncludeErrorView::Load { message: m@ }),
            Ok(c) => match parsed_document(include_type(includes[k]), c@) {
                None => Err(
                    IncludeErrorView::Load { message: parse_failure(include_type(includes[k]), include_path(includes[k])) },
                ),
                Some(doc) => match include_text(doc, inc.run) {
                    None => Err(IncludeErrorView::PathNotFound { run: inc.run, path: include_path(includes[k]) }),
                    Some(text) => Ok(
                        CommandView {
                            name: match inc.name {
                                Some(n) => n,
                                None => split_by(inc.run, '.').last(),
                            },
                            run: with_nonempty_args(text, inc.args),
                            depends: Seq::empty(),
                            env: inc.env,
                            test: false,
                            cache: None,
                        },
                    ),
                },
            },
        }
    }
}

/// The index of the include entry named `r`.
pub fn find_include(includes: &[IncludeEntry], r: &str) -> (k: Option<usize>)
    ensures
        match k {
            Some(i) => include_index(includes@, r@) == i,
            None => include_index(includes@, r@) == -1,
        },
{
    let mut i: usize = 0;
    assert(includes@.skip(0) == includes@);
    while i < includes.len()
        invariant
            i <= includes.len(),
            include_index(includes@, r@) == if include_index(includes@.skip(i as int), r@) < 0 {
                -1
            } else {
                include_index(includes@.skip(i as int), r@) + i
            },
        decreases includes.len() - i,
    {
        assert(includes@.skip(i as int).drop_first() == includes@.skip(i + 1));
        assert(includes@.skip(i as int)[0] == includes@[i as int]);
        if str_eq(includes[i].ref_name(), r) {
            return Some(i);
        }
        i = i + 1;
    }
    None
}

/// Resolves an `$include` entry against the include list; `contents[k]` is
/// the content of include `k`'s file (or why it could not be read).
pub fn resolve_include_entry(
    inc_ref: &IncludeRef,
    includes: &[IncludeEntry],
    contents: &[Result<String, String>],
) -> (r: Result<Command, IncludeError>)
    requires
        contents@.len() == includes@.len(),
    ensures
        match include_command(inc_ref@, includes@, contents@) {
            Ok(c) => r matches Ok(x) && x@ == c,
            Err(e) => r matches Err(x) && x@ == e,
        },
{
    proof {
        lemma_include_index(includes@, inc_ref.include_ref@);
    }
    let k = match find_include(includes, inc_ref.include_ref.as_str()) {
        Some(k) => k,
        None => {
            return Err(IncludeError::NotDefined { include_ref: inc_ref.include_ref.clone() });
        },
    };
    let content = match &contents[k] {
        Ok(c) => c,
        Err(m) => {
            return Err(IncludeError::Load { message: m.clone() });
        },
    };
    let doc = match load_include_document(content.as_str(), includes[k].file_type(), includes[k].path()) {
        Ok(d) => d,
        Err(m) => {
            return Err(IncludeError::Load { message: m });
        },
    };
    let base = match include_doc_text(&doc, inc_ref.run.as_str()) {
        Some(t) => t,
        None => {
            return Err(
                IncludeError::PathNotFound { run: inc_ref.run.clone(), path: string_of(includes[k].path()) },
            );
        },
    };
    let mut run = base;
    match &inc_ref.args {
        Some(a) => {
            if a.unicode_len() != 0 {
                append_args(&mut run, a);
            }
        },
        None => {},
    }
    let name = match &inc_ref.name {
        Some(n) => n.clone(),
        None => {
            let parts = split_chars(inc_ref.run.as_str(), '.');
            proof {
                crate::text::lemma_split_nonempty(inc_ref.run@, '.');
            }
            assert(parts@.map_values(|p: String| p@).last() == parts@[parts@.len() - 1]@);
            parts[parts.len() - 1].clone()
        },
    };
    let cmd = Command {
        name,
        run,
        depends: Vec::new(),
        env: inc_ref.env.duplicate(),
        test: false,
        cache: None,
    };
    assert(strs_view(cmd.depends@) =~= Seq::<Seq<char>>::empty());
    Ok(cmd)
}

/// The commands of a list of entries, `$include` entries resolved too; the
/// first entry that cannot be resolved gives the error.
pub open spec fn resolve_with_includes(
    es: Seq<EntryView>,
    defs: Seq<(Seq<char>, DefView)>,
    includes: Seq<IncludeEntry>,
    contents: Seq<Result<String, String>>,
) -> Result<Seq<CommandView>, IncludeErrorView>
    decreases es.len(),
{
    if es.len() == 0 {
        Ok(Seq::empty())
    } else {
        let head = match es[0] {
            EntryView::Include(inc) => match include_command(inc, includes, contents) {
                Ok(c) => Ok(seq![c]),
                Err(e) => Err(e),
            },
            _ => Ok(expand_entry(es[0], defs)),
        };
        match head {
            Err(e) => Err(e),
            Ok(h) => match resolve_with_includes(es.drop_first(), defs, includes, contents) {
                Ok(t) => Ok(h + t),
                Err(e) => Err(e),
            },
        }
    }
}

impl HookConfig {
    /// Like [`HookConfig::resolved_commands`], but `$include` entries are
    /// resolved too, from the file contents `contents` of the include list.
    pub fn resolved_commands_with_includes(
        &self,
        definitions: &NameMap<DefinitionEntry>,
        includes: &[IncludeEntry],
        contents: &[Result<String, String>],
    ) -> (r: Result<Vec<Command>, IncludeError>)
        requires
            contents@.len() == includes@.len(),
        ensures
            match resolve_with_includes(self@.commands, definitions@, includes@, contents@) {
                Ok(cs) => r matches Ok(v) && commands_view(v@) == cs,
                Err(e) => r matches Err(x) && x@ == e,
            },
    {
        let ghost es = self@.commands;
        let mut out: Vec<Command> = Vec::new();
        let mut i: usize = 0;
        assert(es.skip(0) == es);
        assert(commands_view(out@) + Seq::<CommandView>::empty() =~= commands_view(out@));
        while i < self.commands.len()
            invariant
                es == self@.commands,
                contents@.len() == includes@.len(),
                i <= self.commands.len(),
                resolve_with_includes(es, definitions@, includes@, contents@) == match resolve_with_includes(
                    es.skip(i as int),
                    definitions@,
                    includes@,
                    contents@,
                ) {
                    Ok(t) => Ok(commands_view(out@) + t),
                    Err(e) => Err(e),
                },
            decreases self.commands.len() - i,
        {
            let ghost rest = es.skip(i as int);
            assert(rest[0] == self.commands@[i as int]@);
            assert(rest.drop_first() == es.skip(i + 1));
            let ghost before = commands_view(out@);
            match &self.commands[i] {
                CommandEntry::Include(inc) => {
                    match resolve_include_entry(inc, includes, contents) {
                        Ok(c) => {
                            out.push(c);
                            assert(commands_view(out@) =~= before.push(c@));
                            proof {
                                match resolve_with_includes(es.skip(i + 1), definitions@, includes@, contents@) {
                                    Ok(t) => {
                                        assert(before + (seq![c@] + t) =~= commands_view(out@) + t);
                                    },
                                    Err(e) => {},
                                }
                            }
                        },
                        Err(e) => {
                            return Err(e);
                        },
                    }
                },
                other => {
                    expand_entry_into(other, definitions, &mut out);
                    proof {
                        match resolve_with_includes(es.skip(i + 1), definitions@, includes@, contents@) {
                            Ok(t) => {
                                assert(before + (expand_entry(rest[0], definitions@) + t) =~= commands_view(out@) + t);
                            },
                            Err(e) => {},
                        }
                    }
                },
            }
            i = i + 1;
        }
        assert(es.skip(i as int).len() == 0);
        assert(commands_view(out@) + Seq::<CommandView>::empty() =~= commands_view(out@));
        Ok(out)
    }
}

/// For each include entry, whether some `$include` entry of `cmds` resolves
/// to it: the includes whose files a run of this hook needs.
pub open spec fn include_needed(cmds: Seq<EntryView>, includes: Seq<IncludeEntry>, k: int) -> bool {
    exists|j: int| 0 <= j < cmds.len() && #[trigger] entry_uses_include(cmds[j], includes, k)
}

/// Whether `e` is an `$include` entry that resolves to include `k`.
pub open spec fn entry_uses_include(e: EntryView, includes: Seq<IncludeEntry>, k: int) -> bool {
    match e {
        EntryView::Include(inc) => include_index(includes, inc.include_ref) == k,
        _ => false,
    }
}

/// Marks the include entries whose files resolving this hook reads.
pub fn needed_includes(hook: &HookConfig, includes: &[IncludeEntry]) -> (r: Vec<bool>)
    ensures
        r@.len() == includes@.len(),
        forall|k: int| 0 <= k < includes@.len() ==> r@[k] == include_needed(hook@.commands, includes@, k),
{
    let mut r: Vec<bool> = Vec::new();
    let mut k: usize = 0;
    while k < includes.len()
        invariant
            k <= includes.len(),
            r.len() == k,
            forall|j: int| 0 <= j < k ==> !r@[j],
        decreases includes.len() - k,
    {
        r.push(false);
        k = k + 1;
    }
    let ghost cmds = hook@.commands;
    let mut j: usize = 0;
    while j < hook.commands.len()
        invariant
            cmds == hook@.commands,
            j <= hook.commands.len(),
            r@.len() == includes@.len(),
            forall|k: int| 0 <= k < includes@.len() ==> r@[k] == exists|j2: int| 0 <= j2 < j && #[trigger] entry_uses_include(cmds[j2], includes@, k),
        decreases hook.commands.len() - j,
    {
        let ghost prev = r@;
        match &hook.commands[j] {
            CommandEntry::Include(inc) => {
                proof {
                    lemma_include_index(includes@, inc.include_ref@);
                }
                match find_include(includes, inc.include_ref.as_str()) {
                    Some(k) => {
                        r.set(k, true);
                    },
                    None => {},
                }
                assert(cmds[j as int] == EntryView::Include(inc@));
            },
            _ => {
                assert(forall|k: int| !entry_uses_include(cmds[j as int], includes@, k));
            },
        }
        assert(forall|k: int| 0 <= k < includes@.len() ==> r@[k] == (prev[k] || entry_uses_include(cmds[j as int], includes@, k)));
        proof {
            assert forall|k: int| 0 <= k < includes@.len() implies r@[k] == exists|j2: int| 0 <= j2 < j + 1 && #[trigger] entry_uses_include(cmds[j2], includes@, k) by {
                if exists|j2: int| 0 <= j2 < j + 1 && #[trigger] entry_uses_include(cmds[j2], includes@, k) {
                    let j2 = choose|j2: int| 0 <= j2 < j + 1 && #[trigger] entry_uses_include(cmds[j2], includes@, k);
                    if j2 < j {
                        assert(prev[k]);
                    }
                }
                if prev[k] {
                    let j2 = choose|j2: int| 0 <= j2 < j && #[trigger] entry_uses_include(cmds[j2], includes@, k);
                    assert(0 <= j2 < j + 1);
                }
            }
        }
        j = j + 1;
    }
    r
}

} // verus!
verus! {

/// Hook `i` of [`hook_names`] differs from every hook before it.
proof fn lemma_hook_name_new(i: int)
    requires
        0 <= i < 28,
    ensures
        forall|j: int| 0 <= j < i ==> hook_names()[j] != hook_names()[i],
{
    reveal_strlit("applypatch-msg");
    reveal_strlit("pre-applypatch");
    reveal_strlit("post-applypatch");
    reveal_strlit("pre-commit");
    reveal_strlit("pre-merge-commit");
    reveal_strlit("prepare-commit-msg");
    reveal_strlit("commit-msg");
    reveal_strlit("post-commit");
    reveal_strlit("pre-rebase");
    reveal_strlit("post-checkout");
    reveal_strlit("post-merge");
    reveal_strlit("pre-push");
    reveal_strlit("pre-receive");
    reveal_strlit("update");
    reveal_strlit("proc-receive");
    reveal_strlit("post-receive");
    reveal_strlit("post-update");
    reveal_strlit("reference-transaction");
    reveal_strlit("push-to-checkout");
    reveal_strlit("pre-auto-gc");
    reveal_strlit("post-rewrite");
    reveal_strlit("sendemail-validate");
    reveal_strlit("fsmonitor-watchman");
    reveal_strlit("p4-changelist");
    reveal_strlit("p4-prepare-changelist");
    reveal_strlit("p4-post-changelist");
    reveal_strlit("p4-pre-submit");
    reveal_strlit("post-index-change");
    let n = hook_names();
    assert forall|j: int| 0 <= j < i implies n[j] != n[i] by {
        if i == 1 {
            if j == 0 {
                assert("applypatch-msg"@[0] != "pre-applypatch"@[0]);
            }
        } else if i == 2 {
            if j == 0 {
                assert("applypatch-msg"@.len() != "post-applypatch"@.len());
            } else if j == 1 {
                assert("pre-applypatch"@.len() != "post-applypatch"@.len());
            }
        } else if i == 3 {
            if j == 0 {
                assert("applypatch-msg"@.len() != "pre-commit"@.len());
            } else if j == 1 {
                assert("pre-applypatch"@.len() != "pre-commit"@.len());
            } else if j == 2 {
                assert("post-applypatch"@.len() != "pre-commit"@.len());
            }
        } else if i == 4 {
            if j == 0 {
                assert("applypatch-msg"@.len() != "pre-merge-commit"@.len());
            } else if j == 1 {
                assert("pre-applypatch"@.len() != "pre-merge-commit"@.len());
            } else if j == 2 {
                assert("post-applypatch"@.len() != "pre-merge-commit"@.len());
            } else if j == 3 {
                assert("pre-commit"@.len() != "pre-merge-commit"@.len());
            }
        } else if i == 5 {
            if j == 0 {
                assert("applypatch-msg"@.len() != "prepare-commit-msg"@.len());
            } else if j == 1 {
                assert("pre-applypatch"@.len() != "prepare-commit-msg"@.len());
            } else if j == 2 {
                assert("post-applypatch"@.len() != "prepare-commit-msg"@.len());
            } else if j == 3 {
                assert("pre-commit"@.len() != "prepare-commit-msg"@.len());
            } else if j == 4 {
                assert("pre-merge-commit"@.len() != "prepare-commit-msg"@.len());
            }
        } else if i == 6 {
            if j == 0 {
                assert("applypatch-msg"@.len() != "commit-msg"@.len());
            } else if j == 1 {
                assert("pre-applypatch"@.len() != "commit-msg"@.len());
            } else if j == 2 {
                assert("post-applypatch"@.len() != "commit-msg"@.len());
            } else if j == 3 {
                assert("pre-commit"@[0] != "commit-msg"@[0]);
            } else if j == 4 {
                assert("pre-merge-commit"@.len() != "commit-msg"@.len());
            } else if j == 5 {
                assert("prepare-commit-msg"@.len() != "commit-msg"@.len());
            }
        } else if i == 7 {
            if j == 0 {
                assert("applypatch-msg"@.len() != "post-commit"@.len());
            } else if j == 1 {
                assert("pre-applypatch"@.len() != "post-commit"@.len());
            } else if j == 2 {
                assert("post-applypatch"@.len() != "post-commit"@.len());
            } else if j == 3 {
                assert("pre-commit"@.len() != "post-commit"@.len());
            } else if j == 4 {
                assert("pre-merge-commit"@.len() != "post-commit"@.len());
            } else if j == 5 {
                assert("prepare-commit-msg"@.len() != "post-commit"@.len());
            } else if j == 6 {
                assert("commit-msg"@.len() != "post-commit"@.len());
            }
        } else if i == 8 {
            if j == 0 {
                assert("applypatch-msg"@.len() != "pre-rebase"@.len());
            } else if j == 1 {
                assert("pre-applypatch"@.len() != "pre-rebase"@.len());
            } else if j == 2 {
                assert("post-applypatch"@.len() != "pre-rebase"@.len());
            } else if j == 3 {
                assert("pre-commit"@[4] != "pre-rebase"@[4]);
            } else if j == 4 {
                assert("pre-merge-commit"@.len() != "pre-rebase"@.len());
            } else if j == 5 {
                assert("prepare-commit-msg"@.len() != "pre-rebase"@.len());
            } else if j == 6 {
                assert("commit-msg"@[0] != "pre-rebase"@[0]);
            } else if j == 7 {
                assert("post-commit"@.len() != "pre-rebase"@.len());
            }
        } else if i == 9 {
            if j == 0 {
                assert("applypatch-msg"@.len() != "post-checkout"@.len());
            } else if j == 1 {
                assert("pre-applypatch"@.len() != "post-checkout"@.len());
            } else if j == 2 {
                assert("post-applypatch"@.len() != "post-checkout"@.len());
            } else if j == 3 {
                assert("pre-commit"@.len() != "post-checkout"@.len());
            } else if j == 4 {
                assert("pre-merge-commit"@.len() != "post-checkout"@.len());
            } else if j == 5 {
                assert("prepare-commit-msg"@.len() != "post-checkout"@.len());
            } else if j == 6 {
                assert("commit-msg"@.len() != "post-checkout"@.len());
            } else if j == 7 {
                assert("post-commit"@.len() != "post-checkout"@.len());
            } else if j == 8 {
                assert("pre-rebase"@.len() != "post-checkout"@.len());
            }
        } else if i == 10 {
            if j == 0 {
                assert("applypatch-msg"@.len() != "post-merge"@.len());
            } else if j == 1 {
                assert("pre-applypatch"@.len() != "post-merge"@.len());
            } else if j == 2 {
                assert("post-applypatch"@.len() != "post-merge"@.len());
            } else if j == 3 {
                assert("pre-commit"@[1] != "post-merge"@[1]);
            } else if j == 4 {
                assert("pre-merge-commit"@.len() != "post-merge"@.len());
            } else if j == 5 {
                assert("prepare-commit-msg"@.len() != "post-merge"@.len());
            } else if j == 6 {
                assert("commit-msg"@[0] != "post-merge"@[0]);
            } else if j == 7 {
                assert("post-commit"@.len() != "post-merge"@.len());
            } else if j == 8 {
                assert("pre-rebase"@[1] != "post-merge"@[1]);
            } else if j == 9 {
                assert("post-checkout"@.len() != "post-merge"@.len());
            }
        } else if i == 11 {
            if j == 0 {
                assert("applypatch-msg"@.len() != "pre-push"@.len());
            } else if j == 1 {
                assert("pre-applypatch"@.len() != "pre-push"@.len());
            } else if j == 2 {
                assert("post-applypatch"@.len() != "pre-push"@.len());
            } else if j == 3 {
                assert("pre-commit"@.len() != "pre-push"@.len());
            } else if j == 4 {
                assert("pre-merge-commit"@.len() != "pre-push"@.len());
            } else if j == 5 {
                assert("prepare-commit-msg"@.len() != "pre-push"@.len());
            } else if j == 6 {
                assert("commit-msg"@.len() != "pre-push"@.len());
            } else if j == 7 {
                assert("post-commit"@.len() != "pre-push"@.len());
            } else if j == 8 {
                assert("pre-rebase"@.len() != "pre-push"@.len());
            } else if j == 9 {
                assert("post-checkout"@.len() != "pre-push"@.len());
            } else if j == 10 {
                assert("post-merge"@.len() != "pre-push"@.len());
            }
        } else if i == 12 {
            if j == 0 {
                assert("applypatch-msg"@.len() != "pre-receive"@.len());
            } else if j == 1 {
                assert("pre-applypatch"@.len() != "pre-receive"@.len());
            } else if j == 2 {
                assert("post-applypatch"@.len() != "pre-receive"@.len());
            } else if j == 3 {
                assert("pre-commit"@.len() != "pre-receive"@.len());
            } else if j == 4 {
                assert("pre-merge-commit"@.len() != "pre-receive"@.len());
            } else if j == 5 {
                assert("prepare-commit-msg"@.len() != "pre-receive"@.len());
            } else if j == 6 {
                assert("commit-msg"@.len() != "pre-receive"@.len());
            } else if j == 7 {
                assert("post-commit"@[1] != "pre-receive"@[1]);
            } else if j == 8 {
                assert("pre-rebase"@.len() != "pre-receive"@.len());
            } else if j == 9 {
                assert("post-checkout"@.len() != "pre-receive"@.len());
            } else if j == 10 {
                assert("post-merge"@.len() != "pre-receive"@.len());
            } else if j == 11 {
                assert("pre-push"@.len() != "pre-receive"@.len());
            }
        } else if i == 13 {
            if j == 0 {
                assert("applypatch-msg"@.len() != "update"@.len());
            } else if j == 1 {
                assert("pre-applypatch"@.len() != "update"@.len());
            } else if j == 2 {
                assert("post-applypatch"@.len() != "update"@.len());
            } else if j == 3 {
                assert("pre-commit"@.len() != "update"@.len());
            } else if j == 4 {
                assert("pre-merge-commit"@.len() != "update"@.len());
            } else if j == 5 {
                assert("prepare-commit-msg"@.len() != "update"@.len());
            } else if j == 6 {
                assert("commit-msg"@.len() != "update"@.len());
            } else if j == 7 {
                assert("post-commit"@.len() != "update"@.len());
            } else if j == 8 {
                assert("pre-rebase"@.len() != "update"@.len());
            } else if j == 9 {
                assert("post-checkout"@.len() != "update"@.len());
            } else if j == 10 {
                assert("post-merge"@.len() != "update"@.len());
            } else if j == 11 {
                assert("pre-push"@.len() != "update"@.len());
            } else if j == 12 {
                assert("pre-receive"@.len() != "update"@.len());
            }
        } else if i == 14 {
            if j == 0 {
                assert("applypatch-msg"@.len() != "proc-receive"@.len());
            } else if j == 1 {
                assert("pre-applypatch"@.len() != "proc-receive"@.len());
            } else if j == 2 {
                assert("post-applypatch"@.len() != "proc-receive"@.len());
            } else if j == 3 {
                assert("pre-commit"@.len() != "proc-receive"@.len());
            } else if j == 4 {
                assert("pre-merge-commit"@.len() != "proc-receive"@.len());
            } else if j == 5 {
                assert("prepare-commit-msg"@.len() != "proc-receive"@.len());
            } else if j == 6 {
                assert("commit-msg"@.len() != "proc-receive"@.len());
            } else if j == 7 {
                assert("post-commit"@.len() != "proc-receive"@.len());
            } else if j == 8 {
                assert("pre-rebase"@.len() != "proc-receive"@.len());
            } else if j == 9 {
                assert("post-checkout"@.len() != "proc-receive"@.len());
            } else if j == 10 {
                assert("post-merge"@.len() != "proc-receive"@.len());
            } else if j == 11 {
                assert("pre-push"@.len() != "proc-receive"@.len());
            } else if j == 12 {
                assert("pre-receive"@.len() != "proc-receive"@.len());
            } else if j == 13 {
                assert("update"@.len() != "proc-receive"@.len());
            }
        } else if i == 15 {
            if j == 0 {
                assert("applypatch-msg"@.len() != "post-receive"@.len());
            } else if j == 1 {
                assert("pre-applypatch"@.len() != "post-receive"@.len());
            } else if j == 2 {
                assert("post-applypatch"@.len() != "post-receive"@.len());
            } else if j == 3 {
                assert("pre-commit"@.len() != "post-receive"@.len());
            } else if j == 4 {
                assert("pre-merge-commit"@.len() != "post-receive"@.len());
            } else if j == 5 {
                assert("prepare-commit-msg"@.len() != "post-receive"@.len());
            } else if j == 6 {
                assert("commit-msg"@.len() != "post-receive"@.len());
            } else if j == 7 {
                assert("post-commit"@.len() != "post-receive"@.len());
            } else if j == 8 {
                assert("pre-rebase"@.len() != "post-receive"@.len());
            } else if j == 9 {
                assert("post-checkout"@.len() != "post-receive"@.len());
            } else if j == 10 {
                assert("post-merge"@.len() != "post-receive"@.len());
            } else if j == 11 {
                assert("pre-push"@.len() != "post-receive"@.len());
            } else if j == 12 {
                assert("pre-receive"@.len() != "post-receive"@.len());
            } else if j == 13 {
                assert("update"@.len() != "post-receive"@.len());
            } else if j == 14 {
                assert("proc-receive"@[1] != "post-receive"@[1]);
            }
        } else if i == 16 {
            if j == 0 {
                assert("applypatch-msg"@.len() != "post-update"@.len());
            } else if j == 1 {
                assert("pre-applypatch"@.len() != "post-update"@.len());
            } else if j == 2 {
                assert("post-applypatch"@.len() != "post-update"@.len());
            } else if j == 3 {
                assert("pre-commit"@.len() != "post-update"@.len());
            } else if j == 4 {
                assert("pre-merge-commit"@.len() != "post-update"@.len());
            } else if j == 5 {
                assert("prepare-commit-msg"@.len() != "post-update"@.len());
            } else if j == 6 {
                assert("commit-msg"@.len() != "post-update"@.len());
            } else if j == 7 {
                assert("post-commit"@[5] != "post-update"@[5]);
            } else if j == 8 {
                assert("pre-rebase"@.len() != "post-update"@.len());
            } else if j == 9 {
                assert("post-checkout"@.len() != "post-update"@.len());
            } else if j == 10 {
                assert("post-merge"@.len() != "post-update"@.len());
            } else if j == 11 {
                assert("pre-push"@.len() != "post-update"@.len());
            } else if j == 12 {
                assert("pre-receive"@[1] != "post-update"@[1]);
            } else if j == 13 {
                assert("update"@.len() != "post-update"@.len());
            } else if j == 14 {
                assert("proc-receive"@.len() != "post-update"@.len());
            } else if j == 15 {
                assert("post-receive"@.len() != "post-update"@.len());
            }
        } else if i == 17 {
            if j == 0 {
                assert("applypatch-msg"@.len() != "reference-transaction"@.len());
            } else if j == 1 {
                assert("pre-applypatch"@.len() != "reference-transaction"@.len());
            } else if j == 2 {
                assert("post-applypatch"@.len() != "reference-transaction"@.len());
            } else if j == 3 {
                assert("pre-commit"@.len() != "reference-transaction"@.len());
            } else if j == 4 {
                assert("pre-merge-commit"@.len() != "reference-transaction"@.len());
            } else if j == 5 {
                assert("prepare-commit-msg"@.len() != "reference-transaction"@.len());
            } else if j == 6 {
                assert("commit-msg"@.len() != "reference-transaction"@.len());
            } else if j == 7 {
                assert("post-commit"@.len() != "reference-transaction"@.len());
            } else if j == 8 {
                assert("pre-rebase"@.len() != "reference-transaction"@.len());
            } else if j == 9 {
                assert("post-checkout"@.len() != "reference-transaction"@.len());
            } else if j == 10 {
                assert("post-merge"@.len() != "reference-transaction"@.len());
            } else if j == 11 {
                assert("pre-push"@.len() != "reference-transaction"@.len());
            } else if j == 12 {
                assert("pre-receive"@.len() != "reference-transaction"@.len());
            } else if j == 13 {
                assert("update"@.len() != "reference-transaction"@.len());
            } else if j == 14 {
                assert("proc-receive"@.len() != "reference-transaction"@.len());
            } else if j == 15 {
                assert("post-receive"@.len() != "reference-transaction"@.len());
            } else if j == 16 {
                assert("post-update"@.len() != "reference-transaction"@.len());
            }
        } else if i == 18 {
            if j == 0 {
                assert("applypatch-msg"@.len() != "push-to-checkout"@.len());
            } else if j == 1 {
                assert("pre-applypatch"@.len() != "push-to-checkout"@.len());
            } else if j == 2 {
                assert("post-applypatch"@.len() != "push-to-checkout"@.len());
            } else if j == 3 {
                assert("pre-commit"@.len() != "push-to-checkout"@.len());
            } else if j == 4 {
                assert("pre-merge-commit"@[1] != "push-to-checkout"@[1]);
            } else if j == 5 {
                assert("prepare-commit-msg"@.len() != "push-to-checkout"@.len());
            } else if j == 6 {
                assert("commit-msg"@.len() != "push-to-checkout"@.len());
            } else if j == 7 {
                assert("post-commit"@.len() != "push-to-checkout"@.len());
            } else if j == 8 {
                assert("pre-rebase"@.len() != "push-to-checkout"@.len());
            } else if j == 9 {
                assert("post-checkout"@.len() != "push-to-checkout"@.len());
            } else if j == 10 {
                assert("post-merge"@.len() != "push-to-checkout"@.len());
            } else if j == 11 {
                assert("pre-push"@.len() != "push-to-checkout"@.len());
            } else if j == 12 {
                assert("pre-receive"@.len() != "push-to-checkout"@.len());
            } else if j == 13 {
                assert("update"@.len() != "push-to-checkout"@.len());
            } else if j == 14 {
                assert("proc-receive"@.len() != "push-to-checkout"@.len());
            } else if j == 15 {
                assert("post-receive"@.len() != "push-to-checkout"@.len());
            } else if j == 16 {
                assert("post-update"@.len() != "push-to-checkout"@.len());
            } else if j == 17 {
                assert("reference-transaction"@.len() != "push-to-checkout"@.len());
            }
        } else if i == 19 {
            if j == 0 {
                assert("applypatch-msg"@.len() != "pre-auto-gc"@.len());
            } else if j == 1 {
                assert("pre-applypatch"@.len() != "pre-auto-gc"@.len());
            } else if j == 2 {
                assert("post-applypatch"@.len() != "pre-auto-gc"@.len());
            } else if j == 3 {
                assert("pre-commit"@.len() != "pre-auto-gc"@.len());
            } else if j == 4 {
                assert("pre-merge-commit"@.len() != "pre-auto-gc"@.len());
            } else if j == 5 {
                assert("prepare-commit-msg"@.len() != "pre-auto-gc"@.len());
            } else if j == 6 {
                assert("commit-msg"@.len() != "pre-auto-gc"@.len());
            } else if j == 7 {
                assert("post-commit"@[1] != "pre-auto-gc"@[1]);
            } else if j == 8 {
                assert("pre-rebase"@.len() != "pre-auto-gc"@.len());
            } else if j == 9 {
                assert("post-checkout"@.len() != "pre-auto-gc"@.len());
            } else if j == 10 {
                assert("post-merge"@.len() != "pre-auto-gc"@.len());
            } else if j == 11 {
                assert("pre-push"@.len() != "pre-auto-gc"@.len());
            } else if j == 12 {
                assert("pre-receive"@[4] != "pre-auto-gc"@[4]);
            } else if j == 13 {
                assert("update"@.len() != "pre-auto-gc"@.len());
            } else if j == 14 {
                assert("proc-receive"@.len() != "pre-auto-gc"@.len());
            } else if j == 15 {
                assert("post-receive"@.len() != "pre-auto-gc"@.len());
            } else if j == 16 {
                assert("post-update"@[1] != "pre-auto-gc"@[1]);
            } else if j == 17 {
                assert("reference-transaction"@.len() != "pre-auto-gc"@.len());
            } else if j == 18 {
                assert("push-to-checkout"@.len() != "pre-auto-gc"@.len());
            }
        } else if i == 20 {
            if j == 0 {
                assert("applypatch-msg"@.len() != "post-rewrite"@.len());
            } else if j == 1 {
                assert("pre-applypatch"@.len() != "post-rewrite"@.len());
            } else if j == 2 {
                assert("post-applypatch"@.len() != "post-rewrite"@.len());
            } else if j == 3 {
                assert("pre-commit"@.len() != "post-rewrite"@.len());
            } else if j == 4 {
                assert("pre-merge-commit"@.len() != "post-rewrite"@.len());
            } else if j == 5 {
                assert("prepare-commit-msg"@.len() != "post-rewrite"@.len());
            } else if j == 6 {
                assert("commit-msg"@.len() != "post-rewrite"@.len());
            } else if j == 7 {
                assert("post-commit"@.len() != "post-rewrite"@.len());
            } else if j == 8 {
                assert("pre-rebase"@.len() != "post-rewrite"@.len());
            } else if j == 9 {
                assert("post-checkout"@.len() != "post-rewrite"@.len());
            } else if j == 10 {
                assert("post-merge"@.len() != "post-rewrite"@.len());
            } else if j == 11 {
                assert("pre-push"@.len() != "post-rewrite"@.len());
            } else if j == 12 {
                assert("pre-receive"@.len() != "post-rewrite"@.len());
            } else if j == 13 {
                assert("update"@.len() != "post-rewrite"@.len());
            } else if j == 14 {
                assert("proc-receive"@[1] != "post-rewrite"@[1]);
            } else if j == 15 {
                assert("post-receive"@[7] != "post-rewrite"@[7]);
            } else if j == 16 {
                assert("post-update"@.len() != "post-rewrite"@.len());
            } else if j == 17 {
                assert("reference-transaction"@.len() != "post-rewrite"@.len());
            } else if j == 18 {
                assert("push-to-checkout"@.len() != "post-rewrite"@.len());
            } else if j == 19 {
                assert("pre-auto-gc"@.len() != "post-rewrite"@.len());
            }
        } else if i == 21 {
            if j == 0 {
                assert("applypatch-msg"@.len() != "sendemail-validate"@.len());
            } else if j == 1 {
                assert("pre-applypatch"@.len() != "sendemail-validate"@.len());
            } else if j == 2 {
                assert("post-applypatch"@.len() != "sendemail-validate"@.len());
            } else if j == 3 {
                assert("pre-commit"@.len() != "sendemail-validate"@.len());
            } else if j == 4 {
                assert("pre-merge-commit"@.len() != "sendemail-validate"@.len());
            } else if j == 5 {
                assert("prepare-commit-msg"@[0] != "sendemail-validate"@[0]);
            } else if j == 6 {
                assert("commit-msg"@.len() != "sendemail-validate"@.len());
            } else if j == 7 {
                assert("post-commit"@.len() != "sendemail-validate"@.len());
            } else if j == 8 {
                assert("pre-rebase"@.len() != "sendemail-validate"@.len());
            } else if j == 9 {
                assert("post-checkout"@.len() != "sendemail-validate"@.len());
            } else if j == 10 {
                assert("post-merge"@.len() != "sendemail-validate"@.len());
            } else if j == 11 {
                assert("pre-push"@.len() != "sendemail-validate"@.len());
            } else if j == 12 {
                assert("pre-receive"@.len() != "sendemail-validate"@.len());
            } else if j == 13 {
                assert("update"@.len() != "sendemail-validate"@.len());
            } else if j == 14 {
                assert("proc-receive"@.len() != "sendemail-validate"@.len());
            } else if j == 15 {
                assert("post-receive"@.len() != "sendemail-validate"@.len());
            } else if j == 16 {
                assert("post-update"@.len() != "sendemail-validate"@.len());
            } else if j == 17 {
                assert("reference-transaction"@.len() != "sendemail-validate"@.len());
            } else if j == 18 {
                assert("push-to-checkout"@.len() != "sendemail-validate"@.len());
            } else if j == 19 {
                assert("pre-auto-gc"@.len() != "sendemail-validate"@.len());
            } else if j == 20 {
                assert("post-rewrite"@.len() != "sendemail-validate"@.len());
            }
        } else if i == 22 {
            if j == 0 {
                assert("applypatch-msg"@.len() != "fsmonitor-watchman"@.len());
            } else if j == 1 {
                assert("pre-applypatch"@.len() != "fsmonitor-watchman"@.len());
            } else if j == 2 {
                assert("post-applypatch"@.len() != "fsmonitor-watchman"@.len());
            } else if j == 3 {
                assert("pre-commit"@.len() != "fsmonitor-watchman"@.len());
            } else if j == 4 {
                assert("pre-merge-commit"@.len() != "fsmonitor-watchman"@.len());
            } else if j == 5 {
                assert("prepare-commit-msg"@[0] != "fsmonitor-watchman"@[0]);
            } else if j == 6 {
                assert("commit-msg"@.len() != "fsmonitor-watchman"@.len());
            } else if j == 7 {
                assert("post-commit"@.len() != "fsmonitor-watchman"@.len());
            } else if j == 8 {
                assert("pre-rebase"@.len() != "fsmonitor-watchman"@.len());
            } else if j == 9 {
                assert("post-checkout"@.len() != "fsmonitor-watchman"@.len());
            } else if j == 10 {
                assert("post-merge"@.len() != "fsmonitor-watchman"@.len());
            } else if j == 11 {
                assert("pre-push"@.len() != "fsmonitor-watchman"@.len());
            } else if j == 12 {
                assert("pre-receive"@.len() != "fsmonitor-watchman"@.len());
            } else if j == 13 {
                assert("update"@.len() != "fsmonitor-watchman"@.len());
            } else if j == 14 {
                assert("proc-receive"@.len() != "fsmonitor-watchman"@.len());
            } else if j == 15 {
                assert("post-receive"@.len() != "fsmonitor-watchman"@.len());
            } else if j == 16 {
                assert("post-update"@.len() != "fsmonitor-watchman"@.len());
            } else if j == 17 {
                assert("reference-transaction"@.len() != "fsmonitor-watchman"@.len());
            } else if j == 18 {
                assert("push-to-checkout"@.len() != "fsmonitor-watchman"@.len());
            } else if j == 19 {
                assert("pre-auto-gc"@.len() != "fsmonitor-watchman"@.len());
            } else if j == 20 {
                assert("post-rewrite"@.len() != "fsmonitor-watchman"@.len());
            } else if j == 21 {
                assert("sendemail-validate"@[0] != "fsmonitor-watchman"@[0]);
            }
        } else if i == 23 {
            if j == 0 {
                assert("applypatch-msg"@.len() != "p4-changelist"@.len());
            } else if j == 1 {
                assert("pre-applypatch"@.len() != "p4-changelist"@.len());
            } else if j == 2 {
                assert("post-applypatch"@.len() != "p4-changelist"@.len());
            } else if j == 3 {
                assert("pre-commit"@.len() != "p4-changelist"@.len());
            } else if j == 4 {
                assert("pre-merge-commit"@.len() != "p4-changelist"@.len());
            } else if j == 5 {
                assert("prepare-commit-msg"@.len() != "p4-changelist"@.len());
            } else if j == 6 {
                assert("commit-msg"@.len() != "p4-changelist"@.len());
            } else if j == 7 {
                assert("post-commit"@.len() != "p4-changelist"@.len());
            } else if j == 8 {
                assert("pre-rebase"@.len() != "p4-changelist"@.len());
            } else if j == 9 {
                assert("post-checkout"@[1] != "p4-changelist"@[1]);
            } else if j == 10 {
                assert("post-merge"@.len() != "p4-changelist"@.len());
            } else if j == 11 {
                assert("pre-push"@.len() != "p4-changelist"@.len());
            } else if j == 12 {
                assert("pre-receive"@.len() != "p4-changelist"@.len());
            } else if j == 13 {
                assert("update"@.len() != "p4-changelist"@.len());
            } else if j == 14 {
                assert("proc-receive"@.len() != "p4-changelist"@.len());
            } else if j == 15 {
                assert("post-receive"@.len() != "p4-changelist"@.len());
            } else if j == 16 {
                assert("post-update"@.len() != "p4-changelist"@.len());
            } else if j == 17 {
                assert("reference-transaction"@.len() != "p4-changelist"@.len());
            } else if j == 18 {
                assert("push-to-checkout"@.len() != "p4-changelist"@.len());
            } else if j == 19 {
                assert("pre-auto-gc"@.len() != "p4-changelist"@.len());
            } else if j == 20 {
                assert("post-rewrite"@.len() != "p4-changelist"@.len());
            } else if j == 21 {
                assert("sendemail-validate"@.len() != "p4-changelist"@.len());
            } else if j == 22 {
                assert("fsmonitor-watchman"@.len() != "p4-changelist"@.len());
            }
        } else if i == 24 {
            if j == 0 {
                assert("applypatch-msg"@.len() != "p4-prepare-changelist"@.len());
            } else if j == 1 {
                assert("pre-applypatch"@.len() != "p4-prepare-changelist"@.len());
            } else if j == 2 {
                assert("post-applypatch"@.len() != "p4-prepare-changelist"@.len());
            } else if j == 3 {
                assert("pre-commit"@.len() != "p4-prepare-changelist"@.len());
            } else if j == 4 {
                assert("pre-merge-commit"@.len() != "p4-prepare-changelist"@.len());
            } else if j == 5 {
                assert("prepare-commit-msg"@.len() != "p4-prepare-changelist"@.len());
            } else if j == 6 {
                assert("commit-msg"@.len() != "p4-prepare-changelist"@.len());
            } else if j == 7 {
                assert("post-commit"@.len() != "p4-prepare-changelist"@.len());
            } else if j == 8 {
                assert("pre-rebase"@.len() != "p4-prepare-changelist"@.len());
            } else if j == 9 {
                assert("post-checkout"@.len() != "p4-prepare-changelist"@.len());
            } else if j == 10 {
                assert("post-merge"@.len() != "p4-prepare-changelist"@.len());
            } else if j == 11 {
                assert("pre-push"@.len() != "p4-prepare-changelist"@.len());
            } else if j == 12 {
                assert("pre-receive"@.len() != "p4-prepare-changelist"@.len());
            } else if j == 13 {
                assert("update"@.len() != "p4-prepare-changelist"@.len());
            } else if j == 14 {
                assert("proc-receive"@.len() != "p4-prepare-changelist"@.len());
            } else if j == 15 {
                assert("post-receive"@.len() != "p4-prepare-changelist"@.len());
            } else if j == 16 {
                assert("post-update"@.len() != "p4-prepare-changelist"@.len());
            } else if j == 17 {
                assert("reference-transaction"@[0] != "p4-prepare-changelist"@[0]);
            } else if j == 18 {
                assert("push-to-checkout"@.len() != "p4-prepare-changelist"@.len());
            } else if j == 19 {
                assert("pre-auto-gc"@.len() != "p4-prepare-changelist"@.len());
            } else if j == 20 {
                assert("post-rewrite"@.len() != "p4-prepare-changelist"@.len());
            } else if j == 21 {
                assert("sendemail-validate"@.len() != "p4-prepare-changelist"@.len());
            } else if j == 22 {
                assert("fsmonitor-watchman"@.len() != "p4-prepare-changelist"@.len());
            } else if j == 23 {
                assert("p4-changelist"@.len() != "p4-prepare-changelist"@.len());
            }
        } else if i == 25 {
            if j == 0 {
                assert("applypatch-msg"@.len() != "p4-post-changelist"@.len());
            } else if j == 1 {
                assert("pre-applypatch"@.len() != "p4-post-changelist"@.len());
            } else if j == 2 {
                assert("post-applypatch"@.len() != "p4-post-changelist"@.len());
            } else if j == 3 {
                assert("pre-commit"@.len() != "p4-post-changelist"@.len());
            } else if j == 4 {
                assert("pre-merge-commit"@.len() != "p4-post-changelist"@.len());
            } else if j == 5 {
                assert("prepare-commit-msg"@[1] != "p4-post-changelist"@[1]);
            } else if j == 6 {
                assert("commit-msg"@.len() != "p4-post-changelist"@.len());
            } else if j == 7 {
                assert("post-commit"@.len() != "p4-post-changelist"@.len());
            } else if j == 8 {
                assert("pre-rebase"@.len() != "p4-post-changelist"@.len());
            } else if j == 9 {
                assert("post-checkout"@.len() != "p4-post-changelist"@.len());
            } else if j == 10 {
                assert("post-merge"@.len() != "p4-post-changelist"@.len());
            } else if j == 11 {
                assert("pre-push"@.len() != "p4-post-changelist"@.len());
            } else if j == 12 {
                assert("pre-receive"@.len() != "p4-post-changelist"@.len());
            } else if j == 13 {
                assert("update"@.len() != "p4-post-changelist"@.len());
            } else if j == 14 {
                assert("proc-receive"@.len() != "p4-post-changelist"@.len());
            } else if j == 15 {
                assert("post-receive"@.len() != "p4-post-changelist"@.len());
            } else if j == 16 {
                assert("post-update"@.len() != "p4-post-changelist"@.len());
            } else if j == 17 {
                assert("reference-transaction"@.len() != "p4-post-changelist"@.len());
            } else if j == 18 {
                assert("push-to-checkout"@.len() != "p4-post-changelist"@.len());
            } else if j == 19 {
                assert("pre-auto-gc"@.len() != "p4-post-changelist"@.len());
            } else if j == 20 {
                assert("post-rewrite"@.len() != "p4-post-changelist"@.len());
            } else if j == 21 {
                assert("sendemail-validate"@[0] != "p4-post-changelist"@[0]);
            } else if j == 22 {
                assert("fsmonitor-watchman"@[0] != "p4-post-changelist"@[0]);
            } else if j == 23 {
                assert("p4-changelist"@.len() != "p4-post-changelist"@.len());
            } else if j == 24 {
                assert("p4-prepare-changelist"@.len() != "p4-post-changelist"@.len());
            }
        } else if i == 26 {
            if j == 0 {
                assert("applypatch-msg"@.len() != "p4-pre-submit"@.len());
            } else if j == 1 {
                assert("pre-applypatch"@.len() != "p4-pre-submit"@.len());
            } else if j == 2 {
                assert("post-applypatch"@.len() != "p4-pre-submit"@.len());
            } else if j == 3 {
                assert("pre-commit"@.len() != "p4-pre-submit"@.len());
            } else if j == 4 {
                assert("pre-merge-commit"@.len() != "p4-pre-submit"@.len());
            } else if j == 5 {
                assert("prepare-commit-msg"@.len() != "p4-pre-submit"@.len());
            } else if j == 6 {
                assert("commit-msg"@.len() != "p4-pre-submit"@.len());
            } else if j == 7 {
                assert("post-commit"@.len() != "p4-pre-submit"@.len());
            } else if j == 8 {
                assert("pre-rebase"@.len() != "p4-pre-submit"@.len());
            } else if j == 9 {
                assert("post-checkout"@[1] != "p4-pre-submit"@[1]);
            } else if j == 10 {
                assert("post-merge"@.len() != "p4-pre-submit"@.len());
            } else if j == 11 {
                assert("pre-push"@.len() != "p4-pre-submit"@.len());
            } else if j == 12 {
                assert("pre-receive"@.len() != "p4-pre-submit"@.len());
            } else if j == 13 {
                assert("update"@.len() != "p4-pre-submit"@.len());
            } else if j == 14 {
                assert("proc-receive"@.len() != "p4-pre-submit"@.len());
            } else if j == 15 {
                assert("post-receive"@.len() != "p4-pre-submit"@.len());
            } else if j == 16 {
                assert("post-update"@.len() != "p4-pre-submit"@.len());
            } else if j == 17 {
                assert("reference-transaction"@.len() != "p4-pre-submit"@.len());
            } else if j == 18 {
                assert("push-to-checkout"@.len() != "p4-pre-submit"@.len());
            } else if j == 19 {
                assert("pre-auto-gc"@.len() != "p4-pre-submit"@.len());
            } else if j == 20 {
                assert("post-rewrite"@.len() != "p4-pre-submit"@.len());
            } else if j == 21 {
                assert("sendemail-validate"@.len() != "p4-pre-submit"@.len());
            } else if j == 22 {
                assert("fsmonitor-watchman"@.len() != "p4-pre-submit"@.len());
            } else if j == 23 {
                assert("p4-changelist"@[3] != "p4-pre-submit"@[3]);
            } else if j == 24 {
                assert("p4-prepare-changelist"@.len() != "p4-pre-submit"@.len());
            } else if j == 25 {
                assert("p4-post-changelist"@.len() != "p4-pre-submit"@.len());
            }
        } else if i == 27 {
            if j == 0 {
                assert("applypatch-msg"@.len() != "post-index-change"@.len());
            } else if j == 1 {
                assert("pre-applypatch"@.len() != "post-index-change"@.len());
            } else if j == 2 {
                assert("post-applypatch"@.len() != "post-index-change"@.len());
            } else if j == 3 {
                assert("pre-commit"@.len() != "post-index-change"@.len());
            } else if j == 4 {
                assert("pre-merge-commit"@.len() != "post-index-change"@.len());
            } else if j == 5 {
                assert("prepare-commit-msg"@.len() != "post-index-change"@.len());
            } else if j == 6 {
                assert("commit-msg"@.len() != "post-index-change"@.len());
            } else if j == 7 {
                assert("post-commit"@.len() != "post-index-change"@.len());
            } else if j == 8 {
                assert("pre-rebase"@.len() != "post-index-change"@.len());
            } else if j == 9 {
                assert("post-checkout"@.len() != "post-index-change"@.len());
            } else if j == 10 {
                assert("post-merge"@.len() != "post-index-change"@.len());
            } else if j == 11 {
                assert("pre-push"@.len() != "post-index-change"@.len());
            } else if j == 12 {
                assert("pre-receive"@.len() != "post-index-change"@.len());
            } else if j == 13 {
                assert("update"@.len() != "post-index-change"@.len());
            } else if j == 14 {
                assert("proc-receive"@.len() != "post-index-change"@.len());
            } else if j == 15 {
                assert("post-receive"@.len() != "post-index-change"@.len());
            } else if j == 16 {
                assert("post-update"@.len() != "post-index-change"@.len());
            } else if j == 17 {
                assert("reference-transaction"@.len() != "post-index-change"@.len());
            } else if j == 18 {
                assert("push-to-checkout"@.len() != "post-index-change"@.len());
            } else if j == 19 {
                assert("pre-auto-gc"@.len() != "post-index-change"@.len());
            } else if j == 20 {
                assert("post-rewrite"@.len() != "post-index-change"@.len());
            } else if j == 21 {
                assert("sendemail-validate"@.len() != "post-index-change"@.len());
            } else if j == 22 {
                assert("fsmonitor-watchman"@.len() != "post-index-change"@.len());
            } else if j == 23 {
                assert("p4-changelist"@.len() != "post-index-change"@.len());
            } else if j == 24 {
                assert("p4-prepare-changelist"@.len() != "post-index-change"@.len());
            } else if j == 25 {
                assert("p4-post-changelist"@.len() != "post-index-change"@.len());
            } else if j == 26 {
                assert("p4-pre-submit"@.len() != "post-index-change"@.len());
            }
        }
    }
}

/// The git hook names are pairwise distinct, so each names its own slot.
pub proof fn lemma_hook_slots()
    ensures
        forall|i: int| 0 <= i < 28 ==> #[trigger] hook_slot(hook_names()[i]) == i,
{
    assert forall|i: int| 0 <= i < 28 implies #[trigger] hook_slot(hook_names()[i]) == i by {
        lemma_hook_name_new(i);
        lemma_first_index_at(hook_names(), hook_names()[i], i);
    }
}

/// The name of the hook in slot `i`.
pub fn hook_name_at(i: usize) -> (s: &'static str)
    requires
        i < 28,
    ensures
        s@ == hook_names()[i as int],
        hook_slot(s@) == i,
{
    proof {
        lemma_hook_slots();
    }
    match i {
        0 => "applypatch-msg",
        1 => "pre-applypatch",
        2 => "post-applypatch",
        3 => "pre-commit",
        4 => "pre-merge-commit",
        5 => "prepare-commit-msg",
        6 => "commit-msg",
        7 => "post-commit",
        8 => "pre-rebase",
        9 => "post-checkout",
        10 => "post-merge",
        11 => "pre-push",
        12 => "pre-receive",
        13 => "update",
        14 => "proc-receive",
        15 => "post-receive",
        16 => "post-update",
        17 => "reference-transaction",
        18 => "push-to-checkout",
        19 => "pre-auto-gc",
        20 => "post-rewrite",
        21 => "sendemail-validate",
        22 => "fsmonitor-watchman",
        23 => "p4-changelist",
        24 => "p4-prepare-changelist",
        25 => "p4-post-changelist",
        26 => "p4-pre-submit",
        _ => "post-index-change",
    }
}

// ---------------------------------------------------------------------------
// The text of githops.yaml
// ---------------------------------------------------------------------------

/// The first line of a configuration file: it points editors at the schema.
pub open spec fn schema_header() -> Seq<char> {
    "# yaml-language-server: $schema="@ + SCHEMA_FILE@
}

/// The first line of `text`, or `""`.
pub open spec fn first_line(text: Seq<char>) -> Seq<char> {
    if crate::text::lines_of(text).len() > 0 {
        crate::text::lines_of(text)[0]
    } else {
        Seq::empty()
    }
}

/// The text saved for the serialised configuration `body`: a new file gets
/// the schema header; an existing file keeps its first line when that is a
/// `yaml-language-server` directive, and is otherwise replaced by `body`.
pub open spec fn saved_text(body: Seq<char>, existing: Option<Seq<char>>) -> Seq<char> {
    match existing {
        None => schema_header() + "\n"@ + body,
        Some(e) => if crate::text::starts_with(first_line(e), "# yaml-language-server:"@) {
            first_line(e) + "\n"@ + body
        } else {
            body
        },
    }
}

/// The text written when saving the configuration serialised as
/// `yaml_body`, over a file holding `existing` (`None`: no file yet).
pub fn config_file_text(yaml_body: &str, existing: Option<&str>) -> (s: String)
    ensures
        s@ == saved_text(yaml_body@, match existing {
            Some(e) => Some(e@),
            None => None,
        }),
{
    proof {
        reveal_strlit("");
    }
    match existing {
        None => {
            let mut s = string_of("# yaml-language-server: $schema=");
            push_str(&mut s, SCHEMA_FILE);
            push_str(&mut s, "\n");
            push_str(&mut s, yaml_body);
            s
        },
        Some(e) => {
            let lines = crate::text::lines_string(e);
            let first = if lines.len() > 0 {
                lines[0].clone()
            } else {
                String::new()
            };
            assert(first@ == first_line(e@));
            if crate::text::str_starts_with(first.as_str(), "# yaml-language-server:") {
                let mut s = first;
                push_str(&mut s, "\n");
                push_str(&mut s, yaml_body);
                s
            } else {
                string_of(yaml_body)
            }
        },
    }
}

// ---------------------------------------------------------------------------
// Resolving with and without includes
// ---------------------------------------------------------------------------

proof fn lemma_resolve_all_first(es: Seq<EntryView>, defs: Seq<(Seq<char>, DefView)>)
    requires
        es.len() > 0,
    ensures
        resolve_all(es, defs) == expand_entry(es[0], defs) + resolve_all(es.drop_first(), defs),
    decreases es.len(),
{
    if es.len() == 1 {
        assert(es.drop_first() =~= Seq::<EntryView>::empty());
        assert(es.drop_last() =~= Seq::<EntryView>::empty());
        assert(resolve_all(es, defs) =~= expand_entry(es[0], defs) + resolve_all(es.drop_first(), defs));
    } else {
        lemma_resolve_all_first(es.drop_last(), defs);
        assert(es.drop_last().drop_first() =~= es.drop_first().drop_last());
        assert(es.drop_first().last() == es.last());
        assert(es.drop_last()[0] == es[0]);
        assert(resolve_all(es, defs) =~= expand_entry(es[0], defs) + resolve_all(es.drop_first(), defs));
    }
}

/// Whether no entry of `es` is an `$include`.
pub open spec fn no_includes(es: Seq<EntryView>) -> bool {
    forall|i: int| 0 <= i < es.len() ==> !(es[i] is Include)
}

/// Resolving with includes adds only the `$include` entries: a command list
/// without any resolves to the same commands either way, whatever the
/// include list and its documents.
pub proof fn law_includes_only_add(
    es: Seq<EntryView>,
    defs: Seq<(Seq<char>, DefView)>,
    includes: Seq<IncludeEntry>,
    contents: Seq<Result<String, String>>,
)
    requires
        no_includes(es),
    ensures
        resolve_with_includes(es, defs, includes, contents) == Ok::<Seq<CommandView>, IncludeErrorView>(resolve_all(es, defs)),
    decreases es.len(),
{
    if es.len() == 0 {
        assert(resolve_all(es, defs) =~= Seq::<CommandView>::empty());
    } else {
        assert(no_includes(es.drop_first())) by {
            assert forall|i: int| 0 <= i < es.drop_first().len() implies !(es.drop_first()[i] is Include) by {
                assert(es.drop_first()[i] == es[i + 1]);
            }
        }
        law_includes_only_add(es.drop_first(), defs, includes, contents);
        lemma_resolve_all_first(es, defs);
        assert(!(es[0] is Include));
    }
}

} // verus!
