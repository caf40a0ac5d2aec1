use naenae::config::{AttachConfig, Config, DiscordConfig, MonitorConfig, RunConfig};
use naenae::procfs::AttachSource;
use naenae::rules::StreamKind;
use naenae::run::{
    apply_command_words, attach_finish_message, attach_options, attach_start_message,
    failed_command_context, finish_run, plan_run, ExitSummary, RunError,
};

fn monitor() -> MonitorConfig {
    MonitorConfig {
        name: "demo".to_string(),
        notify_on_start: None,
        notify_on_finish: None,
        notify_on_fail: None,
        include_last_output_in_fail_message: None,
    }
}

fn config(run: Option<RunConfig>) -> Config {
    Config {
        discord: DiscordConfig { webhook_url: "https://example.invalid/hook".to_string(), bot_name: None },
        monitor: monitor(),
        run,
        attach: None,
        rules: Vec::new(),
    }
}

fn run_config() -> RunConfig {
    RunConfig {
        command: "bash".to_string(),
        args: vec!["-lc".to_string(), "echo hi".to_string()],
        cwd: Some("/work".to_string()),
        pty: None,
    }
}

#[test]
fn missing_run_section_is_an_error() {
    let err = plan_run(&config(None), false, None, None).err().unwrap();
    assert!(matches!(err, RunError::MissingRunSection));
    assert_eq!(err.message(), "missing [run] section in config");
}

#[test]
fn plan_uses_config_and_pty_by_default() {
    let plan = plan_run(&config(Some(run_config())), false, None, None).ok().unwrap();
    assert_eq!(plan.run.command, "bash");
    assert_eq!(plan.run.args, vec!["-lc".to_string(), "echo hi".to_string()]);
    assert_eq!(plan.run.cwd.as_deref(), Some("/work"));
    assert!(plan.use_pty);
    assert_eq!(
        plan.start_message.as_deref(),
        Some("Nae^2 says | **Started** | job: `demo`\ncommand: `bash -lc echo hi`")
    );
}

#[test]
fn no_pty_flag_and_config_disable_pty() {
    assert!(!plan_run(&config(Some(run_config())), true, None, None).ok().unwrap().use_pty);
    let mut r = run_config();
    r.pty = Some(false);
    assert!(!plan_run(&config(Some(r)), false, None, None).ok().unwrap().use_pty);
}

#[test]
fn command_override_is_split_like_a_shell() {
    let plan = plan_run(
        &config(Some(run_config())),
        false,
        Some("python 'my script.py' --epochs 10".to_string()),
        Some("/elsewhere".to_string()),
    )
    .ok()
    .unwrap();
    assert_eq!(plan.run.command, "python");
    assert_eq!(plan.run.args, vec!["my script.py".to_string(), "--epochs".to_string(), "10".to_string()]);
    assert_eq!(plan.run.cwd.as_deref(), Some("/elsewhere"));
}

#[test]
fn bad_command_overrides_are_errors() {
    let err = plan_run(&config(Some(run_config())), false, Some("echo 'open".to_string()), None).err().unwrap();
    assert!(matches!(err, RunError::CommandParse(_)));
    assert_eq!(err.message(), "failed to parse --command; check quoting");
    let err = plan_run(&config(Some(run_config())), false, Some("   ".to_string()), None).err().unwrap();
    assert!(matches!(err, RunError::EmptyCommand));
    assert_eq!(err.message(), "--command must not be empty");
}

#[test]
fn command_words_replace_program_and_args() {
    let out = apply_command_words(run_config(), vec!["ls".to_string(), "-l".to_string()]).ok().unwrap();
    assert_eq!(out.command, "ls");
    assert_eq!(out.args, vec!["-l".to_string()]);
    assert_eq!(out.cwd.as_deref(), Some("/work"));
    assert!(matches!(apply_command_words(run_config(), Vec::new()), Err(RunError::EmptyCommand)));
}

#[test]
fn start_message_can_be_turned_off() {
    let mut c = config(Some(run_config()));
    c.monitor.notify_on_start = Some(false);
    assert!(plan_run(&c, false, None, None).ok().unwrap().start_message.is_none());
}

#[test]
fn successful_run_finishes_quietly_ok() {
    let out = finish_run(&monitor(), &None, &None, 65, ExitSummary { success: true, code: Some(0) });
    assert!(out.result.is_ok());
    assert_eq!(out.message.as_deref(), Some("Nae^2 says | **Finished** | job: `demo`\nduration: `1m 5s`"));
}

#[test]
fn failed_run_reports_exit_and_last_output() {
    let out = finish_run(
        &monitor(),
        &Some("out line".to_string()),
        &Some("err line".to_string()),
        3,
        ExitSummary { success: false, code: Some(2) },
    );
    assert_eq!(
        out.message.as_deref(),
        Some("Nae^2 says | **Failed** | job: `demo`\nduration: `3s`\nexit: `2`\nlast output: `err line`")
    );
    match out.result {
        Err(e @ RunError::JobFailed { .. }) => {
            assert_eq!(e.message(), "Nae^2 says: [demo] job exited unsuccessfully");
        },
        _ => panic!("expected a failed job"),
    }
}

#[test]
fn failed_run_by_signal_without_output() {
    let mut m = monitor();
    m.include_last_output_in_fail_message = Some(false);
    let out = finish_run(&m, &Some("x".to_string()), &None, 0, ExitSummary { success: false, code: None });
    assert_eq!(
        out.message.as_deref(),
        Some("Nae^2 says | **Failed** | job: `demo`\nduration: `0s`\nexit: `terminated by signal`")
    );
    m.notify_on_fail = Some(false);
    let out = finish_run(&m, &None, &None, 0, ExitSummary { success: false, code: None });
    assert!(out.message.is_none());
    assert!(out.result.is_err());
}

#[test]
fn pty_exit_codes_keep_their_bits() {
    let s = ExitSummary::from_pty(false, u32::MAX);
    assert!(!s.success);
    assert_eq!(s.code, Some(-1));
    assert_eq!(ExitSummary::from_pty(true, 0).code, Some(0));
}

#[test]
fn failed_command_context_text() {
    assert_eq!(failed_command_context("demo", "bash -lc x"), "Nae^2 says: [demo] command `bash -lc x` failed");
}

#[test]
fn attach_options_defaults_and_overrides() {
    let mut c = config(None);
    assert_eq!(attach_options(&c, None), (true, None));
    c.attach = Some(AttachConfig { log_file: Some("/tmp/c.log".to_string()), start_at_end: Some(false) });
    assert_eq!(attach_options(&c, None), (false, Some("/tmp/c.log".to_string())));
    assert_eq!(attach_options(&c, Some("/tmp/o.log".to_string())), (false, Some("/tmp/o.log".to_string())));
}

#[test]
fn attach_start_message_lists_sources() {
    let sources = vec![
        AttachSource { pid: 7, stream: StreamKind::Stdout, path: "/tmp/a".to_string() },
        AttachSource { pid: 7, stream: StreamKind::Stderr, path: "/tmp/b".to_string() },
    ];
    assert_eq!(
        attach_start_message(&monitor(), 7, "python x", &sources).as_deref(),
        Some("Nae^2 says | **Attached** | job: `demo`\npid: `7`\nprocess: `python x`\ntracking output from stdout=/tmp/a, stderr=/tmp/b")
    );
    assert_eq!(
        attach_start_message(&monitor(), 7, "p", &Vec::new()).as_deref(),
        Some("Nae^2 says | **Attached** | job: `demo`\npid: `7`\nprocess: `p`\nregex tracking unavailable: no readable stdout/stderr file source detected")
    );
}

#[test]
fn attach_finish_message_includes_last_output_when_sources_are_gone() {
    assert_eq!(
        attach_finish_message(&monitor(), 7, 5, true, &Some("o".to_string()), &None).as_deref(),
        Some("Nae^2 says | **Finished** | job: `demo`\npid: `7`\nduration: `5s`\nlast output: `o`")
    );
    assert_eq!(
        attach_finish_message(&monitor(), 7, 5, false, &Some("o".to_string()), &None).as_deref(),
        Some("Nae^2 says | **Finished** | job: `demo`\npid: `7`\nduration: `5s`")
    );
    let mut m = monitor();
    m.notify_on_finish = Some(false);
    assert!(attach_finish_message(&m, 7, 5, true, &None, &None).is_none());
}
