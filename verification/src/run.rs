//! Decisions of run and attach mode: the command to start, and the
//! lifecycle messages and outcome of a watched job.

use vstd::prelude::*;

use crate::config::{Config, MonitorConfig, RunConfig, RunConfigView};
use crate::formatting::{
    discord_message, duration_text, format_duration, lifecycle_message, push_truncated,
    render_command, rendered_command, truncated,
};
use crate::procfs::AttachSource;
use crate::text::{
    chars_of, clone_opt_string, clone_strings, join, join_char_vecs, opt_view, push_chars,
    push_signed_decimal, push_str, signed_decimal, string_from_chars, strings_view,
    char_vecs_view,
};

verus! {

#[verifier::external_type_specification]
#[verifier::external_body]
pub struct ExShellParseError(shell_words::ParseError);

/// The words that `shell_words::split` makes of a command line, or `None`
/// when it rejects it (an unmatched quote).
pub uninterp spec fn shell_split(command: Seq<char>) -> Option<Seq<Seq<char>>>;

/// Calls `shell_words::split`. Claimed: it succeeds exactly when the named
/// split is defined, and then returns those words.
#[verifier::external_body]
fn split_command_line(command: &str) -> (r: Result<Vec<String>, shell_words::ParseError>)
    ensures
        match r {
            Ok(words) => shell_split(command@) == Some(strings_view(words@)),
            Err(_) => shell_split(command@) is None,
        },
{
    shell_words::split(command)
}

/// Why a run could not start, or how it ended badly.
pub enum RunError {
    /// The configuration has no `[run]` section.
    MissingRunSection,
    /// The `--command` text has an unmatched quote.
    CommandParse(shell_words::ParseError),
    /// The `--command` text has no words.
    EmptyCommand,
    /// The job exited unsuccessfully.
    JobFailed { job: String },
}

/// The text of a run error.
pub open spec fn run_error_text(e: RunError) -> Seq<char> {
    match e {
        RunError::MissingRunSection => "missing [run] section in config"@,
        RunError::CommandParse(_) => "failed to parse --command; check quoting"@,
        RunError::EmptyCommand => "--command must not be empty"@,
        RunError::JobFailed { job } => "Nae^2 says: ["@ + job@ + "] job exited unsuccessfully"@,
    }
}

impl RunError {
    pub fn message(&self) -> (out: String)
        ensures
            out@ == run_error_text(*self),
    {
        let mut out: Vec<char> = Vec::new();
        match self {
            RunError::MissingRunSection => push_str(&mut out, "missing [run] section in config"),
            RunError::CommandParse(_) => push_str(
                &mut out,
                "failed to parse --command; check quoting",
            ),
            RunError::EmptyCommand => push_str(&mut out, "--command must not be empty"),
            RunError::JobFailed { job } => {
                push_str(&mut out, "Nae^2 says: [");
                push_str(&mut out, job.as_str());
                push_str(&mut out, "] job exited unsuccessfully");
            },
        }
        string_from_chars(&out)
    }
}

/// The context given to a failed run: the job and its command line.
pub open spec fn failed_command_text(job_name: Seq<char>, command_label: Seq<char>) -> Seq<char> {
    "Nae^2 says: ["@ + job_name + "] command `"@ + command_label + "` failed"@
}

pub fn failed_command_context(job_name: &str, command_label: &str) -> (out: String)
    ensures
        out@ == failed_command_text(job_name@, command_label@),
{
    let mut out: Vec<char> = Vec::new();
    push_str(&mut out, "Nae^2 says: [");
    push_str(&mut out, job_name);
    push_str(&mut out, "] command `");
    push_str(&mut out, command_label);
    push_str(&mut out, "` failed");
    string_from_chars(&out)
}

/// A copy of a run configuration.
pub fn copy_run_config(run: &RunConfig) -> (out: RunConfig)
    ensures
        out@ == run@,
{
    RunConfig {
        command: run.command.clone(),
        args: clone_strings(&run.args),
        cwd: clone_opt_string(&run.cwd),
        pty: run.pty,
    }
}

/// `run` with its program and arguments taken from the words of a
/// `--command` text: the first word is the program.
pub fn apply_command_words(run: RunConfig, words: Vec<String>) -> (r: Result<RunConfig, RunError>)
    ensures
        words@.len() == 0 ==> r matches Err(RunError::EmptyCommand),
        words@.len() > 0 ==> (r matches Ok(out) && out@ == (RunConfigView {
            command: words@[0]@,
            args: strings_view(words@.drop_first()),
            ..run@
        })),
{
    if words.len() == 0 {
        return Err(RunError::EmptyCommand);
    }
    let mut rest = words;
    let program = rest.remove(0);
    assert(strings_view(rest@) =~= strings_view(words@.drop_first()));
    let RunConfig { command: _, args: _, cwd, pty } = run;
    Ok(RunConfig { command: program, args: rest, cwd, pty })
}

/// What a run starts with: the command, whether it runs in a terminal, and
/// the message announcing it (when start notifications are on).
pub struct RunPlan {
    pub run: RunConfig,
    pub use_pty: bool,
    pub start_message: Option<String>,
}

/// The message that announces a run of `run`.
pub open spec fn started_message(monitor: MonitorConfig, run: RunConfigView) -> Seq<char> {
    lifecycle_message(
        "Started"@,
        monitor.name@,
        seq!["command: `"@ + rendered_command(run.command, run.args) + seq!['`']],
    )
}

/// The run configuration with the `--cwd` override applied.
pub open spec fn with_cwd(run: RunConfigView, cli_cwd: Option<Seq<char>>) -> RunConfigView {
    match cli_cwd {
        Some(c) => RunConfigView { cwd: Some(c), ..run },
        None => run,
    }
}

/// Whether a run uses a terminal: unless `--no-pty` is given, as the
/// configuration says, by default yes.
pub open spec fn uses_pty(no_pty: bool, run: RunConfigView) -> bool {
    !no_pty && match run.pty {
        Some(b) => b,
        None => true,
    }
}

/// The plan for a run, with the parts that follow from the run settings.
pub open spec fn plan_matches(plan: RunPlan, config: Config, no_pty: bool, run: RunConfigView) -> bool {
    &&& plan.run@ == run
    &&& plan.use_pty == uses_pty(no_pty, run)
    &&& opt_view(plan.start_message) == (if match config.monitor.notify_on_start {
        Some(b) => b,
        None => true,
    } {
        Some(started_message(config.monitor, run))
    } else {
        None
    })
}

/// Plans a run from the configuration and the command line overrides.
pub fn plan_run(config: &Config, no_pty: bool, cli_command: Option<String>, cli_cwd: Option<String>) -> (r:
    Result<RunPlan, RunError>)
    ensures
        config.run is None ==> r matches Err(RunError::MissingRunSection),
        r matches Ok(plan) ==> (no_pty ==> !plan.use_pty),
        r matches Ok(plan) ==> (!no_pty ==> plan.use_pty == match plan.run.pty {
            Some(b) => b,
            None => true,
        }),
        r matches Ok(plan) ==> (plan.start_message is Some <==> config.monitor.notify_on_start
            != Some(false)),
        config.run matches Some(run) ==> match cli_command {
            None => r matches Ok(plan) && plan_matches(plan, *config, no_pty, with_cwd(run@, opt_view(cli_cwd))),
            Some(c) => match shell_split(c@) {
                None => r matches Err(RunError::CommandParse(_)),
                Some(words) => if words.len() == 0 {
                    r matches Err(RunError::EmptyCommand)
                } else {
                    r matches Ok(plan) && plan_matches(
                        plan,
                        *config,
                        no_pty,
                        with_cwd(
                            RunConfigView { command: words[0], args: words.drop_first(), ..run@ },
                            opt_view(cli_cwd),
                        ),
                    )
                },
            },
        },
{
    let mut run = match &config.run {
        None => {
            return Err(RunError::MissingRunSection);
        },
        Some(run) => copy_run_config(run),
    };
    match cli_command {
        None => {},
        Some(c) => {
            let words = match split_command_line(c.as_str()) {
                Ok(words) => words,
                Err(e) => {
                    return Err(RunError::CommandParse(e));
                },
            };
            let ghost base = run@;
            proof {
                if words@.len() > 0 {
                    assert(strings_view(words@).drop_first() =~= strings_view(words@.drop_first()));
                }
            }
            run = match apply_command_words(run, words) {
                Ok(r) => r,
                Err(e) => {
                    return Err(e);
                },
            };
            assert(run@ =~= RunConfigView { command: words@[0]@, args: strings_view(words@.drop_first()), ..base });
        },
    }
    let ghost before_cwd = run@;
    match cli_cwd {
        None => {},
        Some(cwd) => {
            let RunConfig { command, args, cwd: _, pty } = run;
            run = RunConfig { command, args, cwd: Some(cwd), pty };
        },
    }
    assert(run@ =~= with_cwd(before_cwd, opt_view(cli_cwd)));
    let use_pty = if no_pty {
        false
    } else {
        match run.pty {
            Some(b) => b,
            None => true,
        }
    };
    let notify = match config.monitor.notify_on_start {
        Some(b) => b,
        None => true,
    };
    let start_message = if notify {
        let mut line: Vec<char> = Vec::new();
        push_str(&mut line, "command: `");
        let rendered = render_command(run.command.as_str(), run.args.as_slice());
        push_str(&mut line, rendered.as_str());
        line.push('`');
        assert(line@ =~= "command: `"@ + rendered_command(run@.command, run@.args) + seq!['`']);
        let line_text = string_from_chars(&line);
        let lines = vec![line_text];
        assert(strings_view(lines@) =~= seq![
            "command: `"@ + rendered_command(run@.command, run@.args) + seq!['`'],
        ]);
        Some(discord_message("Started", config.monitor.name.as_str(), lines.as_slice()))
    } else {
        None
    };
    Ok(RunPlan { run, use_pty, start_message })
}

// ---------------------------------------------------------------------------
// The end of a run
// ---------------------------------------------------------------------------

/// How a job ended: whether it succeeded, and its exit code when it has one.
#[derive(Clone, Copy, Debug)]
pub struct ExitSummary {
    pub success: bool,
    pub code: Option<i32>,
}

impl ExitSummary {
    /// The summary of a job run in a terminal, whose exit code is reported
    /// as a `u32` (and shown as the `i32` with the same bits).
    pub fn from_pty(success: bool, exit_code: u32) -> (s: Self)
        ensures
            s.success == success,
            s.code == Some(exit_code as i32),
    {
        ExitSummary { success, code: Some(exit_code as i32) }
    }
}

/// `Some(b)` or the default `true`.
pub open spec fn on_by_default(o: Option<bool>) -> bool {
    match o {
        Some(b) => b,
        None => true,
    }
}

/// The `duration: `...`` line of a message.
pub open spec fn duration_line(secs: nat) -> Seq<char> {
    "duration: `"@ + duration_text(secs) + seq!['`']
}

/// The last line of output to report: stderr's if there is one, else stdout's.
pub open spec fn last_output(last_stdout: Option<Seq<char>>, last_stderr: Option<Seq<char>>) -> Option<
    Seq<char>,
> {
    match last_stderr {
        Some(l) => Some(l),
        None => last_stdout,
    }
}

/// The `last output` suffix of a message, when it is on and there is output.
pub open spec fn last_output_suffix(
    monitor: MonitorConfig,
    last_stdout: Option<Seq<char>>,
    last_stderr: Option<Seq<char>>,
) -> Seq<char> {
    if on_by_default(monitor.include_last_output_in_fail_message) {
        match last_output(last_stdout, last_stderr) {
            Some(l) => "\nlast output: `"@ + truncated(l, 300) + seq!['`'],
            None => seq![],
        }
    } else {
        seq![]
    }
}

/// The exit code as shown in a failure message.
pub open spec fn exit_text(code: Option<i32>) -> Seq<char> {
    match code {
        Some(c) => signed_decimal(c as int),
        None => "terminated by signal"@,
    }
}

/// The message at the end of a run, if one is sent.
pub open spec fn finish_message(
    monitor: MonitorConfig,
    last_stdout: Option<Seq<char>>,
    last_stderr: Option<Seq<char>>,
    elapsed_secs: nat,
    exit: ExitSummary,
) -> Option<Seq<char>> {
    if exit.success {
        if on_by_default(monitor.notify_on_finish) {
            Some(lifecycle_message("Finished"@, monitor.name@, seq![duration_line(elapsed_secs)]))
        } else {
            None
        }
    } else if on_by_default(monitor.notify_on_fail) {
        Some(
            lifecycle_message(
                "Failed"@,
                monitor.name@,
                seq![duration_line(elapsed_secs), "exit: `"@ + exit_text(exit.code) + seq!['`']],
            ) + last_output_suffix(monitor, last_stdout, last_stderr),
        )
    } else {
        None
    }
}

/// What the end of a run sends, and how the run ends.
pub struct FinishOutcome {
    pub message: Option<String>,
    pub result: Result<(), RunError>,
}

fn push_last_output(
    out: &mut Vec<char>,
    monitor: &MonitorConfig,
    last_stdout: &Option<String>,
    last_stderr: &Option<String>,
)
    ensures
        final(out)@ == old(out)@ + last_output_suffix(*monitor, opt_view(*last_stdout), opt_view(*last_stderr)),
{
    let wanted = match monitor.include_last_output_in_fail_message {
        Some(b) => b,
        None => true,
    };
    if !wanted {
        assert(old(out)@ + Seq::<char>::empty() =~= old(out)@);
        return;
    }
    let line = match last_stderr {
        Some(l) => Some(l),
        None => match last_stdout {
            Some(l) => Some(l),
            None => None,
        },
    };
    match line {
        Some(l) => {
            let ghost start = out@;
            push_str(out, "\nlast output: `");
            let chars = chars_of(l.as_str());
            push_truncated(out, chars.as_slice(), 300);
            out.push('`');
            assert(out@ =~= start + ("\nlast output: `"@ + truncated(l@, 300) + seq!['`']));
        },
        None => {
            assert(old(out)@ + Seq::<char>::empty() =~= old(out)@);
        },
    }
}

/// The `duration: `...`` line for `secs` seconds.
fn duration_line_of(secs: u64) -> (out: String)
    ensures
        out@ == duration_line(secs as nat),
{
    let mut v: Vec<char> = Vec::new();
    push_str(&mut v, "duration: `");
    let d = format_duration(secs);
    push_str(&mut v, d.as_str());
    v.push('`');
    string_from_chars(&v)
}

/// Decides the end of a run: a successful job ends well, with a finish
/// message when those are on; a failed one ends with an error, with a
/// failure message (and the last output line, when that is on) when those
/// are on.
pub fn finish_run(
    monitor: &MonitorConfig,
    last_stdout: &Option<String>,
    last_stderr: &Option<String>,
    elapsed_secs: u64,
    exit: ExitSummary,
) -> (out: FinishOutcome)
    ensures
        opt_view(out.message) == finish_message(
            *monitor,
            opt_view(*last_stdout),
            opt_view(*last_stderr),
            elapsed_secs as nat,
            exit,
        ),
        exit.success ==> out.result is Ok,
        !exit.success ==> (out.result matches Err(RunError::JobFailed { job }) && job@
            == monitor.name@),
        exit.success ==> (out.message is Some <==> monitor.notify_on_finish != Some(false)),
        !exit.success ==> (out.message is Some <==> monitor.notify_on_fail != Some(false)),
{
    if exit.success {
        let notify = match monitor.notify_on_finish {
            Some(b) => b,
            None => true,
        };
        let message = if notify {
            let lines = vec![duration_line_of(elapsed_secs)];
            assert(strings_view(lines@) =~= seq![duration_line(elapsed_secs as nat)]);
            Some(discord_message("Finished", monitor.name.as_str(), lines.as_slice()))
        } else {
            None
        };
        return FinishOutcome { message, result: Ok(()) };
    }
    let notify = match monitor.notify_on_fail {
        Some(b) => b,
        None => true,
    };
    let message = if notify {
        let mut exit_line: Vec<char> = Vec::new();
        push_str(&mut exit_line, "exit: `");
        match exit.code {
            Some(c) => push_signed_decimal(&mut exit_line, c as i64),
            None => push_str(&mut exit_line, "terminated by signal"),
        }
        exit_line.push('`');
        assert(exit_line@ =~= "exit: `"@ + exit_text(exit.code) + seq!['`']);
        let duration = duration_line_of(elapsed_secs);
        let exit_text_line = string_from_chars(&exit_line);
        let lines = vec![duration, exit_text_line];
        assert(strings_view(lines@) =~= seq![
            duration_line(elapsed_secs as nat),
            "exit: `"@ + exit_text(exit.code) + seq!['`'],
        ]);
        let head = discord_message("Failed", monitor.name.as_str(), lines.as_slice());
        let mut all = chars_of(head.as_str());
        push_last_output(&mut all, monitor, last_stdout, last_stderr);
        Some(string_from_chars(&all))
    } else {
        None
    };
    FinishOutcome { message, result: Err(RunError::JobFailed { job: monitor.name.clone() }) }
}

// ---------------------------------------------------------------------------
// Attach mode
// ---------------------------------------------------------------------------

/// Where attach mode starts reading (at the end of the files, by default)
/// and the log file it follows: the one given on the command line, else the
/// configured one.
pub fn attach_options(config: &Config, log_file_override: Option<String>) -> (r: (bool, Option<String>))
    ensures
        r.0 == match config.attach {
            Some(a) => on_by_default(a.start_at_end),
            None => true,
        },
        opt_view(r.1) == match log_file_override {
            Some(p) => Some(p@),
            None => match config.attach {
                Some(a) => opt_view(a.log_file),
                None => None,
            },
        },
{
    let start_at_end = match &config.attach {
        Some(a) => match a.start_at_end {
            Some(b) => b,
            None => true,
        },
        None => true,
    };
    let log_file = match log_file_override {
        Some(p) => Some(p),
        None => match &config.attach {
            Some(a) => clone_opt_string(&a.log_file),
            None => None,
        },
    };
    (start_at_end, log_file)
}

/// How a followed source is named in messages: `stream=path`.
pub open spec fn source_text(s: AttachSource) -> Seq<char> {
    s.stream.label() + seq!['='] + s.path@
}

/// What the attach message says about the followed sources.
pub open spec fn attach_details(sources: Seq<AttachSource>) -> Seq<char> {
    if sources.len() == 0 {
        "regex tracking unavailable: no readable stdout/stderr file source detected"@
    } else {
        "tracking output from "@ + join(
            sources.map_values(|s: AttachSource| source_text(s)),
            seq![',', ' '],
        )
    }
}

/// The `pid: `...`` line of a message.
pub open spec fn pid_line(pid: i32) -> Seq<char> {
    "pid: `"@ + signed_decimal(pid as int) + seq!['`']
}

/// The message that announces attaching to a process.
pub open spec fn attached_message(
    monitor: MonitorConfig,
    pid: i32,
    label: Seq<char>,
    sources: Seq<AttachSource>,
) -> Seq<char> {
    lifecycle_message(
        "Attached"@,
        monitor.name@,
        seq![
            pid_line(pid),
            "process: `"@ + truncated(label, 120) + seq!['`'],
            attach_details(sources),
        ],
    )
}

fn pid_line_of(pid: i32) -> (out: String)
    ensures
        out@ == pid_line(pid),
{
    let mut v: Vec<char> = Vec::new();
    push_str(&mut v, "pid: `");
    push_signed_decimal(&mut v, pid as i64);
    v.push('`');
    string_from_chars(&v)
}

fn details_of(sources: &Vec<AttachSource>) -> (out: String)
    ensures
        out@ == attach_details(sources@),
{
    let mut v: Vec<char> = Vec::new();
    if sources.len() == 0 {
        push_str(&mut v, "regex tracking unavailable: no readable stdout/stderr file source detected");
        return string_from_chars(&v);
    }
    let ghost want = sources@.map_values(|s: AttachSource| source_text(s));
    let mut parts: Vec<Vec<char>> = Vec::new();
    let mut i: usize = 0;
    while i < sources.len()
        invariant
            i <= sources@.len(),
            want == sources@.map_values(|s: AttachSource| source_text(s)),
            char_vecs_view(parts@) == want.take(i as int),
        decreases sources@.len() - i,
    {
        let mut part: Vec<char> = Vec::new();
        push_str(&mut part, sources[i].stream.as_str());
        part.push('=');
        push_str(&mut part, sources[i].path.as_str());
        assert(part@ =~= source_text(sources@[i as int]));
        let ghost before = parts@;
        parts.push(part);
        assert(char_vecs_view(parts@) =~= char_vecs_view(before).push(want[i as int]));
        assert(want.take(i + 1) =~= want.take(i as int).push(want[i as int]));
        i = i + 1;
    }
    assert(want.take(i as int) =~= want);
    push_str(&mut v, "tracking output from ");
    let sep = vec![',', ' '];
    assert(sep@ =~= seq![',', ' ']);
    let joined = join_char_vecs(&parts, sep.as_slice());
    push_chars(&mut v, joined.as_slice());
    string_from_chars(&v)
}

/// The message sent on attaching, when start notifications are on.
pub fn attach_start_message(monitor: &MonitorConfig, pid: i32, label: &str, sources: &Vec<AttachSource>) -> (out:
    Option<String>)
    ensures
        opt_view(out) == if on_by_default(monitor.notify_on_start) {
            Some(attached_message(*monitor, pid, label@, sources@))
        } else {
            None
        },
        out is Some <==> monitor.notify_on_start != Some(false),
{
    let notify = match monitor.notify_on_start {
        Some(b) => b,
        None => true,
    };
    if !notify {
        return None;
    }
    let mut process: Vec<char> = Vec::new();
    push_str(&mut process, "process: `");
    let label_chars = chars_of(label);
    push_truncated(&mut process, label_chars.as_slice(), 120);
    process.push('`');
    assert(process@ =~= "process: `"@ + truncated(label@, 120) + seq!['`']);
    let l1 = pid_line_of(pid);
    let l2 = string_from_chars(&process);
    let l3 = details_of(sources);
    let lines = vec![l1, l2, l3];
    assert(strings_view(lines@) =~= seq![
        pid_line(pid),
        "process: `"@ + truncated(label@, 120) + seq!['`'],
        attach_details(sources@),
    ]);
    Some(discord_message("Attached", monitor.name.as_str(), lines.as_slice()))
}

/// The message at the end of an attached process, if one is sent: its pid
/// and how long it was watched, and the last output line when its output
/// links were gone and that is on.
pub open spec fn attach_finished_message(
    monitor: MonitorConfig,
    pid: i32,
    elapsed_secs: nat,
    sources_unavailable: bool,
    last_stdout: Option<Seq<char>>,
    last_stderr: Option<Seq<char>>,
) -> Option<Seq<char>> {
    if on_by_default(monitor.notify_on_finish) {
        Some(
            lifecycle_message("Finished"@, monitor.name@, seq![pid_line(pid), duration_line(elapsed_secs)])
                + if sources_unavailable {
                last_output_suffix(monitor, last_stdout, last_stderr)
            } else {
                seq![]
            },
        )
    } else {
        None
    }
}

pub fn attach_finish_message(
    monitor: &MonitorConfig,
    pid: i32,
    elapsed_secs: u64,
    sources_unavailable: bool,
    last_stdout: &Option<String>,
    last_stderr: &Option<String>,
) -> (out: Option<String>)
    ensures
        opt_view(out) == attach_finished_message(
            *monitor,
            pid,
            elapsed_secs as nat,
            sources_unavailable,
            opt_view(*last_stdout),
            opt_view(*last_stderr),
        ),
        out is Some <==> monitor.notify_on_finish != Some(false),
{
    let notify = match monitor.notify_on_finish {
        Some(b) => b,
        None => true,
    };
    if !notify {
        return None;
    }
    let l1 = pid_line_of(pid);
    let l2 = duration_line_of(elapsed_secs);
    let lines = vec![l1, l2];
    assert(strings_view(lines@) =~= seq![pid_line(pid), duration_line(elapsed_secs as nat)]);
    let head = discord_message("Finished", monitor.name.as_str(), lines.as_slice());
    let mut all = chars_of(head.as_str());
    if sources_unavailable {
        push_last_output(&mut all, monitor, last_stdout, last_stderr);
    } else {
        assert(all@ + Seq::<char>::empty() =~= all@);
    }
    Some(string_from_chars(&all))
}

/// `--no-pty` always turns the terminal off; without it the configured
/// `pty` decides, on by default.
pub proof fn law_pty_choice(no_pty: bool, run: RunConfigView)
    ensures
        no_pty ==> !uses_pty(no_pty, run),
        !no_pty && run.pty is None ==> uses_pty(no_pty, run),
        !no_pty ==> (run.pty matches Some(b) ==> uses_pty(no_pty, run) == b),
{
}

/// A run's end sends a message exactly when the notification for how it
/// ended is on: finish notifications for a success, failure notifications
/// for a failure (each on unless set to `false`).
pub proof fn law_finish_message_gating(
    monitor: MonitorConfig,
    last_stdout: Option<Seq<char>>,
    last_stderr: Option<Seq<char>>,
    elapsed_secs: nat,
    exit: ExitSummary,
)
    ensures
        exit.success ==> (finish_message(monitor, last_stdout, last_stderr, elapsed_secs, exit) is Some
            <==> monitor.notify_on_finish != Some(false)),
        !exit.success ==> (finish_message(monitor, last_stdout, last_stderr, elapsed_secs, exit) is Some
            <==> monitor.notify_on_fail != Some(false)),
{
}

/// A failure message ends with the last line of output, stderr's before
/// stdout's, cut to 300 characters, unless that is turned off or there was
/// no output.
pub proof fn law_failure_reports_last_output(
    monitor: MonitorConfig,
    last_stdout: Option<Seq<char>>,
    last_stderr: Option<Seq<char>>,
    elapsed_secs: nat,
    exit: ExitSummary,
)
    requires
        !exit.success,
        monitor.notify_on_fail != Some(false),
    ensures
        ({
            let m = finish_message(monitor, last_stdout, last_stderr, elapsed_secs, exit)->0;
            let tail = |l: Seq<char>| "\nlast output: `"@ + truncated(l, 300) + seq!['`'];
            &&& monitor.include_last_output_in_fail_message != Some(false) && last_stderr is Some
                ==> m.len() >= tail(last_stderr->0).len() && m.skip(
                m.len() - tail(last_stderr->0).len(),
            ) == tail(last_stderr->0)
            &&& monitor.include_last_output_in_fail_message != Some(false) && last_stderr is None
                && last_stdout is Some ==> m.len() >= tail(last_stdout->0).len() && m.skip(
                m.len() - tail(last_stdout->0).len(),
            ) == tail(last_stdout->0)
            &&& (monitor.include_last_output_in_fail_message == Some(false) || (last_stderr is None
                && last_stdout is None)) ==> m == lifecycle_message(
                "Failed"@,
                monitor.name@,
                seq![duration_line(elapsed_secs), "exit: `"@ + exit_text(exit.code) + seq!['`']],
            )
        }),
{
    let m = finish_message(monitor, last_stdout, last_stderr, elapsed_secs, exit)->0;
    let head = lifecycle_message(
        "Failed"@,
        monitor.name@,
        seq![duration_line(elapsed_secs), "exit: `"@ + exit_text(exit.code) + seq!['`']],
    );
    let suffix = last_output_suffix(monitor, last_stdout, last_stderr);
    assert(m == head + suffix);
    assert((head + suffix).skip(head.len() as int) =~= suffix);
    assert(head + Seq::<char>::empty() =~= head);
}

} // verus!
