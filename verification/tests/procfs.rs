use naenae::procfs::{
    check_pid_owner, cmdline_from_bytes, extract_name_from_status, extract_uid_from_status,
    normalize_proc_path, parse_pid, plan_attach_sources, process_label, process_row, process_table,
    sources_were_unavailable, AttachError, ProcessRow,
};
use naenae::rules::StreamKind;

const STATUS: &str = "Name:\tbash\nUmask:\t0022\nState:\tS (sleeping)\nUid:\t1000\t1000\t1000\t1000\nGid:\t1000\t1000\t1000\t1000\n";

#[test]
fn uid_is_read_from_status() {
    assert_eq!(extract_uid_from_status(STATUS), Some(1000));
}

#[test]
fn uid_skips_unparsable_lines() {
    assert_eq!(extract_uid_from_status("Uid: x\nUid:   42 1\n"), Some(42));
    assert_eq!(extract_uid_from_status("Uid:\n"), None);
    assert_eq!(extract_uid_from_status("Name: a\n"), None);
    assert_eq!(extract_uid_from_status(""), None);
    assert_eq!(extract_uid_from_status("  Uid: +7\r\n"), Some(7));
}

#[test]
fn name_is_read_from_status() {
    assert_eq!(extract_name_from_status(STATUS).as_deref(), Some("bash"));
    assert_eq!(extract_name_from_status("Name:   my proc  \r\n").as_deref(), Some("my proc"));
    assert_eq!(extract_name_from_status("Named: x\nName:y:z\n").as_deref(), Some("y:z"));
    assert_eq!(extract_name_from_status("Uid: 1\n"), None);
}

#[test]
fn proc_self_paths_are_normalized() {
    assert_eq!(normalize_proc_path("/proc/self/fd/3"), "/proc/3");
    assert_eq!(normalize_proc_path("/tmp/job.log"), "/tmp/job.log");
    assert_eq!(normalize_proc_path("/proc/self/fd"), "/proc/self/fd");
}

#[test]
fn cmdline_joins_arguments() {
    assert_eq!(cmdline_from_bytes(b"python\0script.py\0--x\0"), "python script.py --x");
    assert_eq!(cmdline_from_bytes(b"a\0\0b"), "a b");
}

#[test]
fn empty_cmdline_has_placeholder() {
    assert_eq!(cmdline_from_bytes(b""), "<no cmdline>");
    assert_eq!(cmdline_from_bytes(b"\0\0"), "<no cmdline>");
}

#[test]
fn cmdline_replaces_invalid_utf8() {
    assert_eq!(cmdline_from_bytes(b"a\xffb\0c"), "a\u{fffd}b c");
}

#[test]
fn owner_check_outcomes() {
    let status = Some(STATUS.to_string());
    assert_eq!(check_pid_owner(7, true, &status, 1000), Ok(()));
    assert_eq!(check_pid_owner(7, false, &status, 1000), Err(AttachError::PidMissing { pid: 7 }));
    assert_eq!(check_pid_owner(7, true, &None, 1000), Err(AttachError::StatusUnreadable { pid: 7 }));
    assert_eq!(
        check_pid_owner(7, true, &Some("Name: x\n".to_string()), 1000),
        Err(AttachError::OwnerUnknown { pid: 7 })
    );
    assert_eq!(check_pid_owner(7, true, &status, 0), Err(AttachError::NotOwned { pid: 7 }));
}

#[test]
fn attach_error_messages() {
    assert_eq!(AttachError::PidMissing { pid: 12 }.message(), "pid 12 does not exist");
    assert_eq!(AttachError::StatusUnreadable { pid: 12 }.message(), "failed to read /proc/12/status");
    assert_eq!(AttachError::OwnerUnknown { pid: 12 }.message(), "failed to determine owner of pid 12");
    assert_eq!(
        AttachError::NotOwned { pid: -3 }.message(),
        "pid -3 is not owned by the current user; refusing to attach"
    );
    assert_eq!(AttachError::NoOutputSources.message(), "no output sources");
}

#[test]
fn process_label_prefers_cmdline_then_name_then_pid() {
    assert_eq!(process_label(5, Some("python x".to_string()), None).as_deref(), Some("python x"));
    assert_eq!(
        process_label(5, Some("<no cmdline>".to_string()), Some(STATUS.to_string())).as_deref(),
        Some("bash")
    );
    assert_eq!(
        process_label(5, Some("<no cmdline>".to_string()), Some(String::new())).as_deref(),
        Some("5")
    );
    assert_eq!(process_label(5, None, Some(STATUS.to_string())), None);
    assert_eq!(process_label(5, Some("<no cmdline>".to_string()), None), None);
}

#[test]
fn output_sources_found_or_not() {
    assert_eq!(sources_were_unavailable(&[false, true]), Ok(()));
    assert_eq!(sources_were_unavailable(&[false, false]), Err(AttachError::NoOutputSources));
    assert_eq!(sources_were_unavailable(&[]), Err(AttachError::NoOutputSources));
}

#[test]
fn log_file_override_is_combined_source() {
    let out = plan_attach_sources(9, Some("/tmp/job.log".to_string()), vec![(StreamKind::Stdout, "/x".to_string())]);
    assert_eq!(out.len(), 1);
    assert_eq!(out[0].pid, 9);
    assert!(matches!(out[0].stream, StreamKind::Combined));
    assert_eq!(out[0].path, "/tmp/job.log");
}

#[test]
fn shared_output_file_is_followed_once() {
    let out = plan_attach_sources(
        9,
        None,
        vec![(StreamKind::Stdout, "/tmp/a.log".to_string()), (StreamKind::Stderr, "/tmp/a.log".to_string())],
    );
    assert_eq!(out.len(), 1);
    assert!(matches!(out[0].stream, StreamKind::Stdout));
    let out = plan_attach_sources(
        9,
        None,
        vec![(StreamKind::Stdout, "/tmp/a.log".to_string()), (StreamKind::Stderr, "/tmp/b.log".to_string())],
    );
    assert_eq!(out.len(), 2);
    assert!(matches!(out[1].stream, StreamKind::Stderr));
}

#[test]
fn pids_parse_like_i32() {
    assert_eq!(parse_pid("123"), Some(123));
    assert_eq!(parse_pid("self"), None);
    assert_eq!(parse_pid("-5"), Some(-5));
    assert_eq!(parse_pid("2147483648"), None);
    assert_eq!(parse_pid(""), None);
}

#[test]
fn process_rows_belong_to_the_user() {
    let row = process_row(42, STATUS, 1000, None).unwrap();
    assert_eq!(row.pid, 42);
    assert_eq!(row.name, "bash");
    assert_eq!(row.command, "<no cmdline>");
    assert!(process_row(42, STATUS, 0, None).is_none());
    let row = process_row(1, "Uid: 3\n", 3, Some("sleep 5".to_string())).unwrap();
    assert_eq!(row.name, "<unknown>");
    assert_eq!(row.command, "sleep 5");
}

#[test]
fn process_table_is_sorted_and_padded() {
    let rows = vec![
        ProcessRow { pid: 300, name: "b".to_string(), command: "cmd b".to_string() },
        ProcessRow { pid: 20, name: "a".to_string(), command: "cmd a".to_string() },
        ProcessRow { pid: 300, name: "c".to_string(), command: "cmd c".to_string() },
    ];
    let table = process_table(rows);
    assert_eq!(table.len(), 4);
    assert_eq!(table[0], format!("{:<8} {:<24} COMMAND", "PID", "NAME"));
    assert_eq!(table[1], format!("{:<8} {:<24} {}", 20, "a", "cmd a"));
    assert_eq!(table[2], format!("{:<8} {:<24} {}", 300, "b", "cmd b"));
    assert_eq!(table[3], format!("{:<8} {:<24} {}", 300, "c", "cmd c"));
}

#[test]
fn process_table_truncates_long_names_and_commands() {
    let name = "n".repeat(30);
    let command = "c".repeat(130);
    let table = process_table(vec![ProcessRow { pid: 1, name: name.clone(), command: command.clone() }]);
    assert_eq!(
        table[1],
        format!("{:<8} {:<24} {}", 1, format!("{}...", &name[..24]), format!("{}...", &command[..120]))
    );
}
