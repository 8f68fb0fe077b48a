use marionette::abi::{GHOST_SW_F_CANFREE, GHOST_SW_F_INUSE, GHOST_SW_TASK_IS_AGENT};
use marionette::enclave::{
    agent_affinity_ok, agent_online_matches, enclave_create_step, parse_abi_version, parse_enclave_id, CreateStep,
    WriteOutcome,
};
use marionette::ghost::{is_task_status_word, sw_region_header_ok, task_status_words};

#[test]
fn enclave_id_from_control_file() {
    assert_eq!(parse_enclave_id(b"3\n\0\0"), Some(3));
    assert_eq!(parse_enclave_id(b"0042"), Some(42));
    assert_eq!(parse_enclave_id(b"18446744073709551615"), Some(u64::MAX));
    assert_eq!(parse_enclave_id(b"18446744073709551616"), None);
    assert_eq!(parse_enclave_id(b"-1"), None);
    assert_eq!(parse_enclave_id(b"-0"), Some(0));
    assert_eq!(parse_enclave_id(b"\n"), None);
    assert_eq!(parse_enclave_id(b""), None);
}

#[test]
fn enclave_agent_online_value() {
    assert_eq!(agent_online_matches(b"0\n", 0), Some(true));
    assert_eq!(agent_online_matches(b"1\n", 0), Some(false));
    assert_eq!(agent_online_matches(b"-5", -5), Some(true));
    assert_eq!(agent_online_matches(b"x", 0), None);
    assert_eq!(agent_online_matches(b"2147483648", 0), None);
}

#[test]
fn enclave_create_steps() {
    assert_eq!(enclave_create_step(1, 14, WriteOutcome::Written(14)), CreateStep::Created);
    assert_eq!(enclave_create_step(1, 14, WriteOutcome::Written(3)), CreateStep::GiveUp);
    assert_eq!(enclave_create_step(1, 14, WriteOutcome::AlreadyExists), CreateStep::TryNext(2));
    assert_eq!(enclave_create_step(1, 14, WriteOutcome::Failed), CreateStep::GiveUp);
}

#[test]
fn enclave_agent_affinity_single_cpu() {
    let mut allowed = vec![false; 8];
    allowed[3] = true;
    assert!(agent_affinity_ok(8, &allowed, 3));
    assert!(!agent_affinity_ok(8, &allowed, 2));
    allowed[5] = true;
    assert!(!agent_affinity_ok(8, &allowed, 3));
    let none = vec![false; 8];
    assert!(!agent_affinity_ok(8, &none, 3));
    assert!(!agent_affinity_ok(8, &vec![true, false], 7));
}

#[test]
fn ghost_task_status_word_flags() {
    assert!(is_task_status_word(GHOST_SW_F_INUSE));
    assert!(is_task_status_word(GHOST_SW_F_INUSE | GHOST_SW_F_CANFREE));
    assert!(!is_task_status_word(0));
    assert!(!is_task_status_word(GHOST_SW_F_INUSE | GHOST_SW_TASK_IS_AGENT));
    assert!(!is_task_status_word(GHOST_SW_TASK_IS_AGENT));
}

#[test]
fn ghost_task_status_words_in_region() {
    let inuse = GHOST_SW_F_INUSE;
    let agent = GHOST_SW_F_INUSE | GHOST_SW_TASK_IS_AGENT;
    let flags = vec![inuse, 0, agent, inuse, inuse];
    assert_eq!(task_status_words(&flags, 5), vec![0, 3, 4]);
    assert_eq!(task_status_words(&flags, 4), vec![0, 3]);
    assert_eq!(task_status_words(&flags, 9), vec![0, 3, 4]);
    assert_eq!(task_status_words(&flags, 0), Vec::<u32>::new());
}

#[test]
fn ghost_region_header_check() {
    assert!(sw_region_header_ok(10, 2, 1, 2, 1));
    assert!(!sw_region_header_ok(0, 2, 1, 2, 1));
    assert!(!sw_region_header_ok(10, 3, 1, 2, 1));
    assert!(!sw_region_header_ok(10, 2, 0, 2, 1));
}

#[test]
fn enclave_abi_version_text() {
    assert_eq!(parse_abi_version("83\n"), Some(83));
    assert_eq!(parse_abi_version(" 84 "), Some(84));
    assert_eq!(parse_abi_version("-1"), Some(-1));
    assert_eq!(parse_abi_version("2147483648"), None);
    assert_eq!(parse_abi_version("v83"), None);
    assert_eq!(parse_abi_version(""), None);
}
