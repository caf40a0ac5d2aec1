use naenae::config::{join_path, resolve_config_paths, Config, DiscordConfig, MonitorConfig, RunConfig};

fn config_with_cwd(cwd: Option<&str>) -> Config {
    Config {
        discord: DiscordConfig { webhook_url: "u".to_string(), bot_name: Some("NaeNae".to_string()) },
        monitor: MonitorConfig {
            name: "demo".to_string(),
            notify_on_start: Some(true),
            notify_on_finish: None,
            notify_on_fail: None,
            include_last_output_in_fail_message: None,
        },
        run: Some(RunConfig {
            command: "bash".to_string(),
            args: Vec::new(),
            cwd: cwd.map(|c| c.to_string()),
            pty: None,
        }),
        attach: None,
        rules: Vec::new(),
    }
}

#[test]
fn relative_cwd_is_taken_from_config_dir() {
    let mut c = config_with_cwd(Some("."));
    resolve_config_paths(&mut c, "/etc/naenae/job.toml");
    assert_eq!(c.run.unwrap().cwd.as_deref(), Some("/etc/naenae/."));
}

#[test]
fn absolute_cwd_is_kept() {
    let mut c = config_with_cwd(Some("/srv"));
    resolve_config_paths(&mut c, "/etc/naenae/job.toml");
    assert_eq!(c.run.unwrap().cwd.as_deref(), Some("/srv"));
}

#[test]
fn config_in_current_dir_keeps_relative_cwd() {
    let mut c = config_with_cwd(Some("sub"));
    resolve_config_paths(&mut c, "naenae.toml");
    assert_eq!(c.run.unwrap().cwd.as_deref(), Some("sub"));
}

#[test]
fn no_cwd_stays_none() {
    let mut c = config_with_cwd(None);
    resolve_config_paths(&mut c, "/etc/naenae/job.toml");
    let run = c.run.unwrap();
    assert_eq!(run.cwd, None);
    assert_eq!(run.command, "bash");
    assert_eq!(c.monitor.name, "demo");
}

#[test]
fn join_path_matches_std() {
    for (base, p) in [("/a", "b"), ("/a/", "b"), ("", "b"), ("/a", "/b"), ("a", "")] {
        let expected = std::path::Path::new(base).join(p).to_string_lossy().into_owned();
        assert_eq!(join_path(base, p), expected, "{base:?} {p:?}");
    }
}
