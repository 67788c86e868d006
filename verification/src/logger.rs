//! Structured log lines: which entries are shown and how a line is laid
//! out from a template with the tokens `$t` (time), `$k` (kind), `$l`
//! (layer) and `$m` (message).
use vstd::prelude::*;
use crate::text::{push_str, push_zero_padded, replace_all, replace_string, string_of, zero_padded};

verus! {

/// Default log template used when no other is given.
pub const DEFAULT_VERBOSE_TEMPLATE: &'static str = "[$t] [$k] ($l) $m";

/// Severity / kind of a log entry.
#[derive(Debug, Clone, Copy, PartialEq, Eq, Structural)]
pub enum LogKind {
    Info,
    Verbose,
    Error,
    Trace,
}

/// Subsystem that produced the log entry.
#[derive(Debug, Clone, Copy, PartialEq, Eq, Structural)]
pub enum LogLayer {
    /// JSON-schema generation and validation.
    SchemaValidation,
    /// YAML config loading and include resolution.
    YamlResolve,
    /// Hook command execution.
    YamlExec,
}

/// The label of each kind.
pub open spec fn kind_label(k: LogKind) -> Seq<char> {
    match k {
        LogKind::Info => "INFO"@,
        LogKind::Verbose => "VERBOSE"@,
        LogKind::Error => "ERROR"@,
        LogKind::Trace => "TRACE"@,
    }
}

/// The label of each layer.
pub open spec fn layer_label(l: LogLayer) -> Seq<char> {
    match l {
        LogLayer::SchemaValidation => "schema validation"@,
        LogLayer::YamlResolve => "yaml resolve"@,
        LogLayer::YamlExec => "yaml exec"@,
    }
}

impl LogKind {
    /// The label shown for this kind.
    pub fn label(self) -> (s: &'static str)
        ensures
            s@ == kind_label(self),
    {
        match self {
            LogKind::Info => "INFO",
            LogKind::Verbose => "VERBOSE",
            LogKind::Error => "ERROR",
            LogKind::Trace => "TRACE",
        }
    }
}

impl LogLayer {
    /// The label shown for this layer.
    pub fn label(self) -> (s: &'static str)
        ensures
            s@ == layer_label(self),
    {
        match self {
            LogLayer::SchemaValidation => "schema validation",
            LogLayer::YamlResolve => "yaml resolve",
            LogLayer::YamlExec => "yaml exec",
        }
    }
}

/// The logger's settings.
#[derive(Debug)]
pub struct Logger {
    /// Show every kind; otherwise only `INFO` and `ERROR` entries.
    pub verbose: bool,
    /// Template of a line; default `"[$t] [$k] ($l) $m"`.
    pub template: String,
}

/// Whether an entry of kind `k` is shown.
pub open spec fn shown(verbose: bool, k: LogKind) -> bool {
    verbose || k == LogKind::Info || k == LogKind::Error
}

/// The line of an entry: the template with `$t`, `$k`, `$l` and `$m`
/// replaced, in that order, by the time, kind, layer and message.
pub open spec fn log_line(template: Seq<char>, time: Seq<char>, k: LogKind, l: LogLayer, msg: Seq<char>) -> Seq<char> {
    replace_all(
        replace_all(replace_all(replace_all(template, "$t"@, time), "$k"@, kind_label(k)), "$l"@, layer_label(l)),
        "$m"@,
        msg,
    )
}

impl Logger {
    /// Whether entries of kind `kind` are shown.
    pub fn emits(&self, kind: LogKind) -> (b: bool)
        ensures
            b == shown(self.verbose, kind),
    {
        self.verbose || kind == LogKind::Info || kind == LogKind::Error
    }

    /// The line for an entry at wall-clock `time`, or `None` when entries of
    /// its kind are not shown.
    pub fn line(&self, kind: LogKind, layer: LogLayer, msg: &str, time: &str) -> (r: Option<String>)
        ensures
            shown(self.verbose, kind) ==> (r matches Some(s) && s@ == log_line(
                self.template@,
                time@,
                kind,
                layer,
                msg@,
            )),
            !shown(self.verbose, kind) ==> r is None,
    {
        if !self.emits(kind) {
            return None;
        }
        proof {
            reveal_strlit("$t");
            reveal_strlit("$k");
            reveal_strlit("$l");
            reveal_strlit("$m");
        }
        let a = replace_string(self.template.as_str(), "$t", time);
        let b = replace_string(a.as_str(), "$k", kind.label());
        let c = replace_string(b.as_str(), "$l", layer.label());
        let d = replace_string(c.as_str(), "$m", msg);
        Some(d)
    }
}

/// Wall-clock time of day `HH:MM:SS.mmm` (UTC) for `secs` seconds and
/// `millis` milliseconds after the epoch.
pub open spec fn clock_text(secs: nat, millis: nat) -> Seq<char> {
    zero_padded((secs / 3600) % 24, 2) + ":"@ + zero_padded((secs / 60) % 60, 2) + ":"@ + zero_padded(secs % 60, 2)
        + "."@ + zero_padded(millis, 3)
}

/// Renders a time stamp `HH:MM:SS.mmm` for `total_secs` seconds and
/// `millis` milliseconds after the epoch.
pub fn time_of_day(total_secs: u64, millis: u32) -> (s: String)
    ensures
        s@ == clock_text(total_secs as nat, millis as nat),
{
    let mut s = String::new();
    push_zero_padded(&mut s, (total_secs / 3600) % 24, 2);
    push_str(&mut s, ":");
    push_zero_padded(&mut s, (total_secs / 60) % 60, 2);
    push_str(&mut s, ":");
    push_zero_padded(&mut s, total_secs % 60, 2);
    push_str(&mut s, ".");
    push_zero_padded(&mut s, millis as u64, 3);
    s
}

} // verus!
