//! The configuration the tool runs with, and the resolution of relative paths in it.

use vstd::prelude::*;

use crate::rules::StreamSelector;
use crate::text::{chars_of, opt_view, push_chars, push_str, string_from_chars, strings_view};

verus! {

pub struct Config {
    pub discord: DiscordConfig,
    pub monitor: MonitorConfig,
    pub run: Option<RunConfig>,
    pub attach: Option<AttachConfig>,
    pub rules: Vec<RuleConfig>,
}

pub struct DiscordConfig {
    pub webhook_url: String,
    pub bot_name: Option<String>,
}

pub struct MonitorConfig {
    pub name: String,
    pub notify_on_start: Option<bool>,
    pub notify_on_finish: Option<bool>,
    pub notify_on_fail: Option<bool>,
    pub include_last_output_in_fail_message: Option<bool>,
}

/// How the watched command is started. `cwd` is a path.
pub struct RunConfig {
    pub command: String,
    pub args: Vec<String>,
    pub cwd: Option<String>,
    pub pty: Option<bool>,
}

/// What a `RunConfig` holds, as plain values.
#[verifier::ext_equal]
pub struct RunConfigView {
    pub command: Seq<char>,
    pub args: Seq<Seq<char>>,
    pub cwd: Option<Seq<char>>,
    pub pty: Option<bool>,
}

impl View for RunConfig {
    type V = RunConfigView;

    open spec fn view(&self) -> RunConfigView {
        RunConfigView {
            command: self.command@,
            args: strings_view(self.args@),
            cwd: opt_view(self.cwd),
            pty: self.pty,
        }
    }
}

/// Where attach mode reads the output of a running process. `log_file` is a path.
pub struct AttachConfig {
    pub log_file: Option<String>,
    pub start_at_end: Option<bool>,
}

pub struct RuleConfig {
    pub name: String,
    pub pattern: Option<String>,
    pub patterns: Vec<String>,
    pub stream: StreamSelector,
    pub notify_template: Option<String>,
    pub cooldown_secs: Option<u64>,
    pub max_notifications: Option<u32>,
}

/// The stream a rule watches when the configuration names none.
pub fn default_stream() -> (s: StreamSelector)
    ensures
        s == StreamSelector::Both,
{
    StreamSelector::Both
}

/// An absolute path (on Unix: one that starts at the root).
pub open spec fn is_absolute_path(p: Seq<char>) -> bool {
    p.len() > 0 && p[0] == '/'
}

/// `base` joined with `p` as `Path::join` does on Unix: an absolute `p`
/// replaces `base`; otherwise a separator is put between them where
/// `base` is non-empty and does not already end with one.
pub open spec fn joined_path(base: Seq<char>, p: Seq<char>) -> Seq<char> {
    if is_absolute_path(p) {
        p
    } else if base.len() == 0 || base.last() == '/' {
        base + p
    } else {
        base + seq!['/'] + p
    }
}

/// What `std::path::Path::parent` gives for a path.
pub uninterp spec fn std_path_parent(path: Seq<char>) -> Option<Seq<char>>;

/// Calls `std::path::Path::parent` and takes the parent as a string
/// (a prefix of a valid string, so nothing is lost). Claimed: the result
/// is the named parent of `path`.
#[verifier::external_body]
fn path_parent(path: &str) -> (r: Option<String>)
    ensures
        opt_view(r) == std_path_parent(path@),
{
    match std::path::Path::new(path).parent() {
        Some(parent) => Some(parent.to_string_lossy().into_owned()),
        None => None,
    }
}

/// The directory that relative paths of a configuration file are taken
/// from: the file's parent, or `.` when it has none.
pub open spec fn config_dir(config_path: Seq<char>) -> Seq<char> {
    match std_path_parent(config_path) {
        Some(d) => d,
        None => "."@,
    }
}

/// The working directory of a run once a relative one is taken from the
/// configuration file's directory.
pub open spec fn resolved_cwd(cwd: Option<Seq<char>>, config_path: Seq<char>) -> Option<Seq<char>> {
    match cwd {
        Some(c) => if is_absolute_path(c) {
            Some(c)
        } else {
            Some(joined_path(config_dir(config_path), c))
        },
        None => None,
    }
}

/// `base` joined with `p` (see `joined_path`).
pub fn join_path(base: &str, p: &str) -> (out: String)
    ensures
        out@ == joined_path(base@, p@),
{
    let pc = chars_of(p);
    if pc.len() > 0 && pc[0] == '/' {
        return string_from_chars(&pc);
    }
    let mut out = chars_of(base);
    if out.len() > 0 && out[out.len() - 1] != '/' {
        out.push('/');
    }
    push_chars(&mut out, pc.as_slice());
    string_from_chars(&out)
}

/// Takes a relative `run.cwd` from the directory of the configuration
/// file at `config_path`; everything else stays as it was.
pub fn resolve_config_paths(config: &mut Config, config_path: &str)
    ensures
        final(config).discord == old(config).discord,
        final(config).monitor == old(config).monitor,
        final(config).attach == old(config).attach,
        final(config).rules == old(config).rules,
        final(config).run is Some <==> old(config).run is Some,
        old(config).run matches Some(r) ==> final(config).run matches Some(f) && f.command
            == r.command && f.args == r.args && f.pty == r.pty && opt_view(f.cwd) == resolved_cwd(
            opt_view(r.cwd),
            config_path@,
        ),
{
    match config.run.take() {
        None => {},
        Some(run) => {
            let RunConfig { command, args, cwd, pty } = run;
            let new_cwd = match cwd {
                None => None,
                Some(c) => {
                    let cc = chars_of(c.as_str());
                    if cc.len() > 0 && cc[0] == '/' {
                        Some(c)
                    } else {
                        let dir = match path_parent(config_path) {
                            Some(d) => d,
                            None => {
                                let mut dot: Vec<char> = Vec::new();
                                push_str(&mut dot, ".");
                                string_from_chars(&dot)
                            },
                        };
                        Some(join_path(dir.as_str(), c.as_str()))
                    }
                },
            };
            config.run = Some(RunConfig { command, args, cwd: new_cwd, pty });
        },
    }
}

} // verus!
