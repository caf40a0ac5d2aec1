use naenae::formatting::{
    discord_message, format_duration, inline_fields, render_command, strip_ansi, truncate,
};
use naenae::pattern::ansi_pattern;

#[test]
fn render_command_without_args_is_the_program() {
    assert_eq!(render_command("python", &[]), "python");
}

#[test]
fn render_command_joins_args_with_spaces() {
    let args = vec!["my_script.py".to_string(), "--epochs".to_string(), "10".to_string()];
    assert_eq!(render_command("python", &args), "python my_script.py --epochs 10");
}

#[test]
fn truncate_keeps_short_text() {
    assert_eq!(truncate("hello", 5), "hello");
    assert_eq!(truncate("", 0), "");
}

#[test]
fn truncate_cuts_long_text_and_marks_it() {
    assert_eq!(truncate("hello world", 5), "hello...");
    assert_eq!(truncate("abc", 0), "...");
}

#[test]
fn truncate_counts_characters_not_bytes() {
    assert_eq!(truncate("héllo", 2), "hé...");
    assert_eq!(truncate("日本語", 3), "日本語");
}

#[test]
fn format_duration_seconds_only() {
    assert_eq!(format_duration(0), "0s");
    assert_eq!(format_duration(59), "59s");
}

#[test]
fn format_duration_minutes() {
    assert_eq!(format_duration(60), "1m 0s");
    assert_eq!(format_duration(125), "2m 5s");
}

#[test]
fn format_duration_hours_keep_zero_minutes() {
    assert_eq!(format_duration(3661), "1h 1m 1s");
    assert_eq!(format_duration(7200), "2h 0m 0s");
    assert_eq!(format_duration(90061), "25h 1m 1s");
}

#[test]
fn discord_message_header_only() {
    assert_eq!(
        discord_message("Started", "demo", &[]),
        "Nae^2 says | **Started** | job: `demo`"
    );
}

#[test]
fn discord_message_with_lines() {
    let lines = vec!["command: `bash`".to_string(), "second".to_string()];
    assert_eq!(
        discord_message("Started", "demo", &lines),
        "Nae^2 says | **Started** | job: `demo`\ncommand: `bash`\nsecond"
    );
}

#[test]
fn inline_fields_join_with_bars() {
    let fields = [("job", "demo".to_string()), ("stream", "stdout".to_string())];
    assert_eq!(inline_fields(&fields), "job: `demo` | stream: `stdout`");
    assert_eq!(inline_fields(&[]), "");
}

#[test]
fn strip_ansi_removes_color_codes() {
    let ansi = ansi_pattern().expect("the ANSI pattern compiles");
    assert_eq!(strip_ansi(&ansi, "\x1b[31mred\x1b[0m text"), "red text");
    assert_eq!(strip_ansi(&ansi, "\x1b[?25lhidden cursor\x1b[2K"), "hidden cursor");
}

#[test]
fn strip_ansi_leaves_plain_text() {
    let ansi = ansi_pattern().expect("the ANSI pattern compiles");
    assert_eq!(strip_ansi(&ansi, "plain [31m text"), "plain [31m text");
}
