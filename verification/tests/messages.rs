use marionette::abi::{
    GHOST_SW_BOOST_PRIO, GHOST_TXN_COMPLETE, GHOST_TXN_READY, MSG_CPU_FIRST, MSG_CPU_LAST,
    MSG_TASK_FIRST, MSG_TASK_LAST, MSG_TASK_NEW, SYNC_GROUP_NOT_OWNED,
};
use marionette::gtid::{agent_gtid, current, idle_gtid, null_gtid, parse_gtid, position_of, Gtid};
use marionette::message::{Message, MessageHeader, Payload, SwInfo};
use marionette::requester::{RunRequest, RunRequestOption, Txn};
use marionette::scheduler::StatusWord;
use marionette::text::{push_decimal, push_hex};

fn msg(type_: u32, length: u16, seqnum: u32, gtid: i64) -> Message {
    Message::from_raw(MessageHeader { type_: type_ as u16, length, seqnum }, Gtid::new(gtid), Payload::Other)
}

fn committed_request(state: i32) -> RunRequest {
    RunRequest {
        txn: Txn {
            agent_barrier: 0,
            gtid: 0,
            task_barrier: 0,
            run_flags: 0,
            commit_flags: 0,
            sync_group_owner: SYNC_GROUP_NOT_OWNED,
            state,
        },
        allow_txn_target_on_cpu: false,
        cpu: 3,
    }
}

#[test]
fn message_accessors_read_the_header() {
    let m = msg(MSG_TASK_NEW, 48, 12, 0x77);
    assert_eq!(m.get_type(), MSG_TASK_NEW);
    assert_eq!(m.length(), 48);
    assert_eq!(m.get_seqnum(), 12);
    assert_eq!(m.get_gtid(), Gtid::new(0x77));
    assert_eq!(m.payload, Payload::Other);
}

#[test]
fn message_kind_ranges() {
    assert!(msg(MSG_TASK_FIRST, 0, 0, 0).is_task_msg());
    assert!(msg(MSG_TASK_LAST, 0, 0, 0).is_task_msg());
    assert!(!msg(MSG_TASK_LAST + 1, 0, 0, 0).is_task_msg());
    assert!(!msg(MSG_TASK_FIRST - 1, 0, 0, 0).is_task_msg());
    assert!(msg(MSG_CPU_FIRST, 0, 0, 0).is_cpu_msg());
    assert!(msg(MSG_CPU_LAST, 0, 0, 0).is_cpu_msg());
    assert!(!msg(MSG_CPU_LAST + 1, 0, 0, 0).is_cpu_msg());
    assert!(!msg(MSG_TASK_NEW, 0, 0, 0).is_cpu_msg());
    assert!(!msg(0, 0, 0, 0).is_task_msg());
}

#[test]
fn run_request_option_default() {
    let o = RunRequestOption::default();
    assert_eq!(o.target, Gtid::new(0));
    assert_eq!(o.target_barrier, 0);
    assert_eq!(o.agent_barrier, 0);
    assert_eq!(o.commit_flags, 0);
    assert_eq!(o.run_flags, 0);
    assert_eq!(o.sync_group_owner, -1);
    assert!(!o.allow_txn_target_on_cpu);
}

#[test]
fn run_request_open_fills_the_transaction() {
    let mut rr = committed_request(GHOST_TXN_COMPLETE);
    assert!(rr.is_committed());
    assert!(!rr.is_open());
    let mut o = RunRequestOption::default();
    o.target = Gtid::new(55);
    o.target_barrier = 6;
    o.agent_barrier = 9;
    o.commit_flags = 2;
    o.run_flags = 1;
    rr.open(o);
    assert_eq!(rr.txn.gtid, 55);
    assert_eq!(rr.txn.task_barrier, 6);
    assert_eq!(rr.txn.agent_barrier, 9);
    assert_eq!(rr.txn.commit_flags, 2);
    assert_eq!(rr.txn.run_flags, 1);
    assert_eq!(rr.txn.sync_group_owner, SYNC_GROUP_NOT_OWNED);
    assert_eq!(rr.state(), GHOST_TXN_READY);
    assert!(rr.is_open());
    assert!(!rr.is_committed());
    assert!(!rr.sync_group_owned());
    assert_eq!(rr.cpu, 3);
}

#[test]
fn run_request_open_takes_sync_group_owner() {
    let mut rr = committed_request(-3);
    let mut o = RunRequestOption::default();
    o.sync_group_owner = 4;
    o.allow_txn_target_on_cpu = true;
    rr.open(o);
    assert_eq!(rr.sync_group_owner_get(), 4);
    assert!(rr.sync_group_owned());
    assert!(rr.allow_txn_target_on_cpu);
}

#[test]
fn run_request_commit_outcome() {
    assert!(committed_request(GHOST_TXN_COMPLETE).commit_succeeded());
    assert!(!committed_request(-2).commit_succeeded());
    assert!(committed_request(-2).is_committed());
    assert!(!committed_request(0).is_committed());
}

#[test]
fn status_word_boosted_priority_flag() {
    assert!(StatusWord::boosted_priority(GHOST_SW_BOOST_PRIO));
    assert!(StatusWord::boosted_priority(GHOST_SW_BOOST_PRIO | 3));
    assert!(!StatusWord::boosted_priority(3));
    assert!(!StatusWord::boosted_priority(0));
    let w = StatusWord::new(Gtid::new(1), SwInfo { id: 2, index: 3 });
    assert_eq!(w.sw_info, SwInfo { id: 2, index: 3 });
}

#[test]
fn gtid_text_is_prefixed_hex() {
    assert_eq!(Gtid::new(16).to_string(), "0x10");
    assert_eq!(Gtid::new(0).to_string(), "0x0");
    assert_eq!(Gtid::new(0xabc).to_string(), "0xabc");
    assert_eq!(Gtid::new(-1).to_string(), "0xffffffffffffffff");
    assert_eq!(Gtid::new(i64::MIN).to_string(), format!("{:#x}", i64::MIN));
}

#[test]
fn gtid_special_values() {
    assert_eq!(null_gtid().gtid_raw, 0);
    assert_eq!(agent_gtid().gtid_raw, -1);
    assert_eq!(idle_gtid().gtid_raw, -2);
}

#[test]
fn gtid_current_is_the_thread_id() {
    let g = current();
    assert_eq!(g.gtid_raw, nix::unistd::gettid().as_raw() as i64);
    assert!(g.gtid_raw > 0);
}

#[test]
fn gtid_parse_file_content() {
    assert_eq!(parse_gtid("12345\n"), Some(12345));
    assert_eq!(parse_gtid("  -7  "), Some(-7));
    assert_eq!(parse_gtid("+9"), Some(9));
    assert_eq!(parse_gtid("9223372036854775807"), Some(i64::MAX));
    assert_eq!(parse_gtid("9223372036854775808"), None);
    assert_eq!(parse_gtid("12a"), None);
    assert_eq!(parse_gtid(""), None);
}

#[test]
fn gtid_position_of_first_occurrence() {
    let v = vec![Gtid::new(3), Gtid::new(5), Gtid::new(3)];
    assert_eq!(position_of(&v, Gtid::new(3)), Some(0));
    assert_eq!(position_of(&v, Gtid::new(5)), Some(1));
    assert_eq!(position_of(&v, Gtid::new(4)), None);
}

#[test]
fn text_push_hex_and_decimal() {
    let mut s = String::from("x=");
    push_hex(&mut s, 0xdead_beef);
    assert_eq!(s, "x=deadbeef");
    let mut s = String::new();
    push_hex(&mut s, 0);
    assert_eq!(s, "0");
    let mut s = String::new();
    push_decimal(&mut s, 1234567);
    assert_eq!(s, "1234567");
    let mut s = String::new();
    push_decimal(&mut s, 0);
    assert_eq!(s, "0");
}
