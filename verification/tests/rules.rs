use naenae::config::{default_stream, RuleConfig};
use naenae::rules::{
    compile_rules, discord_message, rule_matches_stream, CompiledRule, RuleError, RuleState,
    SharedState, StreamKind, StreamSelector,
};

const SEC: u64 = 1_000_000_000;

fn rule(name: &str, pattern: &str) -> RuleConfig {
    RuleConfig {
        name: name.to_string(),
        pattern: Some(pattern.to_string()),
        patterns: Vec::new(),
        stream: StreamSelector::Both,
        notify_template: None,
        cooldown_secs: None,
        max_notifications: None,
    }
}

fn compile(rules: Vec<RuleConfig>) -> Vec<CompiledRule> {
    match compile_rules(&rules) {
        Ok(c) => c,
        Err(e) => panic!("{}", e.message()),
    }
}

#[test]
fn as_str_names_streams() {
    assert_eq!(StreamKind::Stdout.as_str(), "stdout");
    assert_eq!(StreamKind::Stderr.as_str(), "stderr");
    assert_eq!(StreamKind::Combined.as_str(), "combined");
}

#[test]
fn default_stream_is_both() {
    assert_eq!(default_stream(), StreamSelector::Both);
}

#[test]
fn stream_selection() {
    assert!(rule_matches_stream(StreamSelector::Both, StreamKind::Stderr));
    assert!(rule_matches_stream(StreamSelector::Stdout, StreamKind::Combined));
    assert!(rule_matches_stream(StreamSelector::Stderr, StreamKind::Combined));
    assert!(rule_matches_stream(StreamSelector::Stdout, StreamKind::Stdout));
    assert!(!rule_matches_stream(StreamSelector::Stdout, StreamKind::Stderr));
    assert!(!rule_matches_stream(StreamSelector::Stderr, StreamKind::Stdout));
}

#[test]
fn compile_rules_takes_pattern_then_patterns() {
    let mut r = rule("progress", "Best=\\d+");
    r.patterns = vec!["gain\\s*\\+?\\d+".to_string()];
    r.cooldown_secs = Some(3);
    r.max_notifications = Some(2);
    let compiled = compile(vec![r]);
    assert_eq!(compiled.len(), 1);
    assert_eq!(compiled[0].name, "progress");
    assert_eq!(compiled[0].regexes.len(), 2);
    assert_eq!(compiled[0].cooldown_secs, 3);
    assert_eq!(compiled[0].max_notifications, Some(2));
}

#[test]
fn compile_rules_rejects_rule_without_pattern() {
    let mut r = rule("empty", "x");
    r.pattern = None;
    match compile_rules(&[rule("fine", "ok"), r]) {
        Err(e @ RuleError::MissingPattern { .. }) => {
            assert_eq!(e.message(), "rule `empty` must define `pattern` or `patterns`");
        },
        _ => panic!("expected a missing pattern error"),
    }
}

#[test]
fn compile_rules_rejects_invalid_regex() {
    let mut r = rule("bad", "ok");
    r.patterns = vec!["(".to_string()];
    match compile_rules(&[r]) {
        Err(e @ RuleError::InvalidRegex { .. }) => {
            assert_eq!(e.message(), "invalid regex for rule `bad`");
        },
        _ => panic!("expected an invalid regex error"),
    }
}

#[test]
fn rule_discord_message_layout() {
    assert_eq!(
        discord_message("Rule Match: x", "demo", StreamKind::Stdout, "the line"),
        "Nae^2 says | **Rule Match: x**\njob: `demo` | stream: `stdout`\n`the line`"
    );
}

#[test]
fn matching_line_sends_default_message_and_records_state() {
    let rules = compile(vec![rule("numbers", "^[1-4]$")]);
    let mut state = SharedState::default();
    let msg = state.observe_line("3", StreamKind::Stdout, "demo", &rules, 5);
    assert_eq!(
        msg.as_deref(),
        Some("Nae^2 says | **Rule Match: numbers**\njob: `demo` | stream: `stdout`\n`3`")
    );
    assert_eq!(state.last_stdout.as_deref(), Some("3"));
    assert_eq!(state.last_stderr, None);
    assert_eq!(state.rules.len(), 1);
    assert_eq!(state.rules[0].state.sent_count, 1);
    assert_eq!(state.rules[0].state.last_sent_at, Some(5));
}

#[test]
fn unmatched_line_sends_nothing() {
    let rules = compile(vec![rule("numbers", "^[1-4]$")]);
    let mut state = SharedState::default();
    assert_eq!(state.observe_line("nine", StreamKind::Stderr, "demo", &rules, 0), None);
    assert_eq!(state.last_stderr.as_deref(), Some("nine"));
    assert!(state.rules.is_empty());
}

#[test]
fn cooldown_suppresses_repeats() {
    let mut r = rule("numbers", "^[1-4]$");
    r.cooldown_secs = Some(1);
    let rules = compile(vec![r]);
    let mut state = SharedState::default();
    assert!(state.observe_line("1", StreamKind::Stdout, "demo", &rules, 0).is_some());
    assert!(state.observe_line("2", StreamKind::Stdout, "demo", &rules, SEC / 2).is_none());
    assert!(state.observe_line("3", StreamKind::Stdout, "demo", &rules, SEC).is_some());
    assert_eq!(state.rules[0].state.sent_count, 2);
}

#[test]
fn max_notifications_caps_a_rule() {
    let mut r = rule("errors", "error");
    r.max_notifications = Some(1);
    let rules = compile(vec![r]);
    let mut state = SharedState::default();
    assert!(state.observe_line("error 1", StreamKind::Stderr, "demo", &rules, 0).is_some());
    assert!(state.observe_line("error 2", StreamKind::Stderr, "demo", &rules, 10 * SEC).is_none());
    assert_eq!(state.rules[0].state.sent_count, 1);
}

#[test]
fn zero_max_never_notifies_but_records_the_rule() {
    let mut r = rule("never", ".");
    r.max_notifications = Some(0);
    let rules = compile(vec![r]);
    let mut state = SharedState::default();
    assert!(state.observe_line("x", StreamKind::Stdout, "demo", &rules, 0).is_none());
    assert_eq!(state.rules.len(), 1);
    assert_eq!(state.rules[0].state.sent_count, 0);
}

#[test]
fn several_matches_are_coalesced_into_one_message() {
    let rules = compile(vec![rule("best", "Best=\\d+"), rule("gain", "gain\\s*\\+?\\d+")]);
    let mut state = SharedState::default();
    let msg = state.observe_line("Best=3 gain +2", StreamKind::Combined, "demo", &rules, 0);
    assert_eq!(
        msg.as_deref(),
        Some("Nae^2 says | **Rule Match: best, gain**\njob: `demo` | stream: `combined`\n`Best=3 gain +2`")
    );
}

#[test]
fn template_placeholders_are_filled() {
    let mut r = rule("errors", "error");
    r.notify_template = Some("[{job}] {rule} on {stream}: {line} ({job})".to_string());
    let rules = compile(vec![r]);
    let mut state = SharedState::default();
    let msg = state.observe_line("fatal error", StreamKind::Stderr, "build", &rules, 0);
    assert_eq!(msg.as_deref(), Some("[build] errors on stderr: fatal error (build)"));
}

#[test]
fn template_line_is_truncated_to_400_chars() {
    let mut r = rule("long", "x");
    r.notify_template = Some("{line}".to_string());
    let rules = compile(vec![r]);
    let mut state = SharedState::default();
    let line = "x".repeat(500);
    let msg = state.observe_line(&line, StreamKind::Stdout, "demo", &rules, 0).unwrap();
    assert_eq!(msg, format!("{}...", "x".repeat(400)));
}

#[test]
fn stream_selector_filters_lines() {
    let mut r = rule("out", "hit");
    r.stream = StreamSelector::Stdout;
    let rules = compile(vec![r]);
    let mut state = SharedState::default();
    assert!(state.observe_line("hit", StreamKind::Stderr, "demo", &rules, 0).is_none());
    assert!(state.observe_line("hit", StreamKind::Combined, "demo", &rules, 0).is_some());
}

#[test]
fn rules_with_one_name_share_their_state() {
    let mut a = rule("same", "a");
    a.max_notifications = Some(1);
    let mut b = rule("same", "b");
    b.max_notifications = Some(1);
    let rules = compile(vec![a, b]);
    let mut state = SharedState::default();
    let msg = state.observe_line("ab", StreamKind::Stdout, "demo", &rules, 0).unwrap();
    assert!(msg.contains("Rule Match: same**"));
    assert_eq!(state.rules.len(), 1);
    assert_eq!(state.rules[0].state.sent_count, 1);
}

#[test]
fn room_check_counts_rules() {
    let mut state = SharedState::default();
    assert!(state.has_room(3));
    let rules = compile(vec![rule("r", "x")]);
    state.observe_line("x", StreamKind::Stdout, "demo", &rules, 0);
    state.rules[0].state.sent_count = u32::MAX - 1;
    assert!(state.has_room(1));
    assert!(!state.has_room(2));
}

#[test]
fn fresh_rule_state_is_zero() {
    let s = RuleState::default();
    assert_eq!(s.sent_count, 0);
    assert_eq!(s.last_sent_at, None);
}

#[test]
fn template_without_placeholders_is_sent_as_written() {
    let mut r = rule("plain", "x");
    r.notify_template = Some("something happened {jobs} {line".to_string());
    let rules = compile(vec![r]);
    let mut state = SharedState::default();
    let msg = state.observe_line("x {job}", StreamKind::Stdout, "{rule}", &rules, 0);
    assert_eq!(msg.as_deref(), Some("something happened {jobs} {line"));
}
