use termkeys::platform::fallback::{foreground_job, process_cwd};
use termkeys::platform::procfs::{
    cmdline_from_bytes, foreground_job_from, foreground_pgid_from_stat, in_foreground_group,
    pgrp_and_comm_from_stat, pid_from_entry_name,
};
use termkeys::platform::ForegroundProcess;

const STAT: &str = "1234 (bash) S 1 1234 1234 34816 5678 4194560 100 0 0 0";

#[test]
fn stat_foreground_group() {
    assert_eq!(foreground_pgid_from_stat(STAT), Some(5678));
    // No terminal: tpgid is -1.
    assert_eq!(foreground_pgid_from_stat("7 (kworker) I 2 0 0 0 -1 69238880"), None);
    // Too few fields.
    assert_eq!(foreground_pgid_from_stat("7 (sh) S 1 2"), None);
    // No command name.
    assert_eq!(foreground_pgid_from_stat("7 sh S 1 2 3 4 5"), None);
    // Nothing after the command name.
    assert_eq!(foreground_pgid_from_stat("7 (sh)"), None);
}

#[test]
fn stat_process_group_and_command_name() {
    assert_eq!(pgrp_and_comm_from_stat(STAT), Some((1234, "bash".to_string())));
    // The command name may hold spaces and parentheses: the last `)` ends it.
    assert_eq!(
        pgrp_and_comm_from_stat("42 (my (odd) cmd) R 1 777 777 0 -1 0"),
        Some((777, "my (odd) cmd".to_string()))
    );
    assert_eq!(pgrp_and_comm_from_stat("42 )( R 1 777"), None);
    assert_eq!(pgrp_and_comm_from_stat("42 (x) R 1 notanumber"), None);
    // A character of several bytes right after `)` cuts the fields off.
    assert_eq!(pgrp_and_comm_from_stat("42 (x)é R 1 7 7"), None);
}

#[test]
fn cmdline_arguments_are_joined_by_spaces() {
    assert_eq!(cmdline_from_bytes(b"vim\0notes.txt\0"), Some("vim notes.txt".to_string()));
    assert_eq!(cmdline_from_bytes(b"\0a\0\0b"), Some("a b".to_string()));
    assert_eq!(cmdline_from_bytes(b"a\xffb"), Some("a\u{fffd}b".to_string()));
    assert_eq!(cmdline_from_bytes(b"\0\0"), None);
    assert_eq!(cmdline_from_bytes(b""), None);
}

#[test]
fn proc_entry_names() {
    assert_eq!(pid_from_entry_name("123"), Some(123));
    assert_eq!(pid_from_entry_name("self"), None);
    assert_eq!(pid_from_entry_name("+5"), None);
    assert_eq!(pid_from_entry_name(""), None);
    assert_eq!(pid_from_entry_name("99999999999"), None);
}

#[test]
fn foreground_group_membership_and_job() {
    assert!(in_foreground_group(5678, 5678));
    assert!(!in_foreground_group(5, 6));
    assert!(in_foreground_group(-1, u32::MAX));
    assert!(foreground_job_from(9, Vec::new()).is_none());
    let p = ForegroundProcess { pid: 9, name: "sh".to_string(), argv0: None, cmdline: None };
    let job = foreground_job_from(9, vec![p]).unwrap();
    assert_eq!(job.process_group_id, 9);
    assert_eq!(job.processes.len(), 1);
    assert_eq!(job.processes[0].name, "sh");
}

#[test]
fn unsupported_platform_finds_nothing() {
    assert!(foreground_job(1).is_none());
    assert!(process_cwd(1).is_none());
}
