use marionette::abi::{
    ENOENT, ESTALE, GHOST_ASSOC_SF_ALREADY, GHOST_ASSOC_SF_BRAND_NEW, GHOST_SW_F_CANFREE,
    GHOST_SW_TASK_RUNNABLE, MSG_CPU_FIRST, MSG_NOP, MSG_TASK_BLOCKED, MSG_TASK_DEAD,
    MSG_TASK_DEPARTED, MSG_TASK_NEW, MSG_TASK_PREEMPT, MSG_TASK_SWITCHTO, MSG_TASK_WAKEUP,
    MSG_TASK_YIELD, RTLA_ON_IDLE,
};
use marionette::agent::{Agent, AgentAction, DiscoveryStep, ScheduleStep, TASK_NEW_MSG_LENGTH};
use marionette::gtid::Gtid;
use marionette::message::{Message, MessageHeader, Payload, SwInfo};
use marionette::scheduler::TaskState;
use marionette::schedulers::pct::PctScheduler;

fn g(raw: i64) -> Gtid {
    Gtid::new(raw)
}

fn sw(id: u32, index: u32) -> SwInfo {
    SwInfo { id, index }
}

fn header(type_: u32, seqnum: u32) -> MessageHeader {
    MessageHeader { type_: type_ as u16, length: 16, seqnum }
}

fn new_task_msg(gtid: i64, parent: u64, seqnum: u32, runnable: bool) -> Message {
    Message::from_raw(
        header(MSG_TASK_NEW, seqnum),
        g(gtid),
        Payload::TaskNew { parent_gtid: parent, runtime: 0, runnable, sw_info: sw(0, gtid as u32) },
    )
}

fn switched_msg(type_: u32, gtid: i64, seqnum: u32, from_switchto: bool, cpu: i32) -> Message {
    Message::from_raw(header(type_, seqnum), g(gtid), Payload::Switched { from_switchto, cpu })
}

fn plain_msg(type_: u32, gtid: i64, seqnum: u32) -> Message {
    Message::from_raw(header(type_, seqnum), g(gtid), Payload::Other)
}

fn agent_with_blocked_task(cpu: i32, gtid: i64) -> Agent<PctScheduler> {
    let mut agent = Agent::new(cpu);
    let acts = agent.dispatch(&new_task_msg(gtid, 7, 3, false));
    assert!(acts.is_empty());
    agent
}

#[test]
fn agent_starts_empty() {
    let agent = Agent::new(4);
    assert_eq!(agent.cpu, 4);
    assert!(agent.tasks.is_empty());
    assert_eq!(agent.current_task, None);
    assert_eq!(agent.current_parent_gtid, 0);
}

#[test]
fn agent_keeps_running_until_finished_and_idle() {
    let mut agent = Agent::new(0);
    assert!(agent.keeps_running(false));
    assert!(!agent.keeps_running(true));
    agent.dispatch(&new_task_msg(5, 1, 0, false));
    assert!(agent.keeps_running(true));
}

#[test]
fn agent_nop_and_cpu_messages_change_nothing() {
    let mut agent = agent_with_blocked_task(1, 10);
    let before = agent.tasks.clone();
    assert!(agent.dispatch(&plain_msg(MSG_NOP, 10, 0)).is_empty());
    assert!(agent.dispatch(&plain_msg(MSG_CPU_FIRST, 10, 0)).is_empty());
    assert_eq!(agent.tasks.len(), before.len());
    assert_eq!(agent.tasks[0].seqnum, before[0].seqnum);
    assert_eq!(agent.tasks[0].state, before[0].state);
}

#[test]
fn agent_new_runnable_task_is_associated_and_pinged() {
    let mut agent = Agent::new(2);
    let acts = agent.dispatch(&new_task_msg(42, 9, 17, true));
    assert_eq!(
        acts,
        vec![AgentAction::Associate { gtid: g(42), barrier: 17 }, AgentAction::Ping { cpu: 2 }]
    );
    assert_eq!(agent.tasks.len(), 1);
    let t = agent.tasks[0];
    assert_eq!(t.gtid, g(42));
    assert_eq!(t.seqnum, 17);
    assert_eq!(t.cpu, 2);
    assert_eq!(t.state, TaskState::Runnable);
    assert_eq!(t.status_word.sw_info, sw(0, 42));
    assert_eq!(agent.current_parent_gtid, 9);
}

#[test]
fn agent_new_blocked_task_waits() {
    let agent = agent_with_blocked_task(1, 10);
    assert_eq!(agent.tasks.len(), 1);
    let t = agent.tasks[0];
    assert_eq!(t.seqnum, 3);
    assert_eq!(t.cpu, -1);
    assert_eq!(t.state, TaskState::Blocked);
}

#[test]
fn agent_known_new_task_is_ignored() {
    let mut agent = agent_with_blocked_task(1, 10);
    let acts = agent.dispatch(&new_task_msg(10, 7, 99, true));
    assert!(acts.is_empty());
    assert_eq!(agent.tasks.len(), 1);
    assert_eq!(agent.tasks[0].seqnum, 3);
    assert_eq!(agent.tasks[0].state, TaskState::Blocked);
}

#[test]
fn agent_new_process_forgets_old_tasks() {
    let mut agent = agent_with_blocked_task(1, 10);
    agent.schedule_committed(g(10), true);
    assert_eq!(agent.current_task, Some(g(10)));
    agent.dispatch(&new_task_msg(11, 8, 0, false));
    assert_eq!(agent.current_parent_gtid, 8);
    assert_eq!(agent.current_task, None);
    assert_eq!(agent.tasks.len(), 1);
    assert_eq!(agent.tasks[0].gtid, g(11));
}

#[test]
fn agent_wakeup_places_task_and_bumps_seqnum() {
    let mut agent = agent_with_blocked_task(3, 10);
    let acts = agent.dispatch(&plain_msg(MSG_TASK_WAKEUP, 10, 4));
    assert_eq!(
        acts,
        vec![AgentAction::Associate { gtid: g(10), barrier: 4 }, AgentAction::Ping { cpu: 3 }]
    );
    let t = agent.tasks[0];
    assert_eq!(t.state, TaskState::Runnable);
    assert_eq!(t.cpu, 3);
    assert_eq!(t.seqnum, 4);
    let acts = agent.dispatch(&plain_msg(MSG_TASK_WAKEUP, 10, 5));
    assert!(acts.is_empty());
    assert_eq!(agent.tasks[0].seqnum, 5);
}

#[test]
fn agent_blocked_with_switchto_pings_that_cpu() {
    let mut agent = agent_with_blocked_task(0, 10);
    agent.dispatch(&plain_msg(MSG_TASK_WAKEUP, 10, 4));
    let acts = agent.dispatch(&switched_msg(MSG_TASK_BLOCKED, 10, 5, true, 6));
    assert_eq!(acts, vec![AgentAction::Ping { cpu: 6 }]);
    assert_eq!(agent.tasks[0].state, TaskState::Blocked);
    assert_eq!(agent.tasks[0].seqnum, 5);
    let acts = agent.dispatch(&switched_msg(MSG_TASK_BLOCKED, 10, 6, false, 6));
    assert!(acts.is_empty());
}

#[test]
fn agent_preempt_and_yield_make_runnable() {
    let mut agent = agent_with_blocked_task(0, 10);
    let acts = agent.dispatch(&switched_msg(MSG_TASK_PREEMPT, 10, 4, false, 1));
    assert!(acts.is_empty());
    assert_eq!(agent.tasks[0].state, TaskState::Runnable);
    assert_eq!(agent.tasks[0].seqnum, 4);
    agent.dispatch(&switched_msg(MSG_TASK_BLOCKED, 10, 5, false, 1));
    let acts = agent.dispatch(&switched_msg(MSG_TASK_YIELD, 10, 6, true, 2));
    assert_eq!(acts, vec![AgentAction::Ping { cpu: 2 }]);
    assert_eq!(agent.tasks[0].state, TaskState::Runnable);
    assert_eq!(agent.tasks[0].seqnum, 6);
}

#[test]
fn agent_dead_and_departed_keep_seqnum() {
    let mut agent = agent_with_blocked_task(0, 10);
    agent.dispatch(&plain_msg(MSG_TASK_WAKEUP, 10, 4));
    assert!(agent.dispatch(&plain_msg(MSG_TASK_DEAD, 10, 5)).is_empty());
    assert_eq!(agent.tasks[0].state, TaskState::Blocked);
    assert_eq!(agent.tasks[0].seqnum, 4);
    let acts = agent.dispatch(&switched_msg(MSG_TASK_DEPARTED, 10, 6, true, 9));
    assert_eq!(acts, vec![AgentAction::Ping { cpu: 9 }]);
    assert_eq!(agent.tasks[0].seqnum, 4);
}

#[test]
fn agent_switchto_blocks_task() {
    let mut agent = agent_with_blocked_task(0, 10);
    agent.dispatch(&plain_msg(MSG_TASK_WAKEUP, 10, 4));
    assert!(agent.dispatch(&plain_msg(MSG_TASK_SWITCHTO, 10, 5)).is_empty());
    assert_eq!(agent.tasks[0].state, TaskState::Blocked);
    assert_eq!(agent.tasks[0].seqnum, 5);
}

#[test]
fn agent_schedule_runs_a_runnable_task() {
    let mut agent = agent_with_blocked_task(0, 10);
    agent.dispatch(&plain_msg(MSG_TASK_WAKEUP, 10, 4));
    match agent.schedule(false, 77) {
        ScheduleStep::Run { target, option } => {
            assert_eq!(target, g(10));
            assert_eq!(option.target, g(10));
            assert_eq!(option.target_barrier, 4);
            assert_eq!(option.agent_barrier, 77);
            assert_eq!(option.commit_flags, 2);
            assert_eq!(option.run_flags, 0);
            assert_eq!(option.sync_group_owner, -1);
            assert!(!option.allow_txn_target_on_cpu);
        }
        other => panic!("expected a run, got {:?}", other),
    }
}

#[test]
fn agent_schedule_yields_when_nothing_runs() {
    let mut agent = agent_with_blocked_task(0, 10);
    match agent.schedule(false, 5) {
        ScheduleStep::Yield { agent_barrier, run_flags } => {
            assert_eq!(agent_barrier, 5);
            assert_eq!(run_flags, 0);
        }
        other => panic!("expected a yield, got {:?}", other),
    }
}

#[test]
fn agent_schedule_boosted_yields_on_idle() {
    let mut agent = agent_with_blocked_task(0, 10);
    agent.dispatch(&plain_msg(MSG_TASK_WAKEUP, 10, 4));
    match agent.schedule(true, 8) {
        ScheduleStep::Yield { agent_barrier, run_flags } => {
            assert_eq!(agent_barrier, 8);
            assert_eq!(run_flags, RTLA_ON_IDLE);
        }
        other => panic!("expected a yield, got {:?}", other),
    }
}

#[test]
fn agent_failed_commit_leaves_task_runnable() {
    let mut agent = agent_with_blocked_task(0, 10);
    agent.schedule_committed(g(10), false);
    assert_eq!(agent.tasks[0].state, TaskState::Runnable);
    assert_eq!(agent.current_task, None);
    agent.schedule_committed(g(10), true);
    assert_eq!(agent.current_task, Some(g(10)));
}

#[test]
fn agent_association_failure_steps() {
    let mut agent = agent_with_blocked_task(0, 10);
    agent.dispatch(&plain_msg(MSG_TASK_WAKEUP, 10, 4));
    let (step, acts) = agent.association_failed(g(10), ENOENT, 0, sw(1, 2));
    assert_eq!(step, DiscoveryStep::Stop);
    assert!(acts.is_empty());
    assert_eq!(agent.tasks[0].state, TaskState::Blocked);

    let (step, acts) = agent.association_failed(g(10), ESTALE, GHOST_SW_F_CANFREE, sw(1, 2));
    assert_eq!(step, DiscoveryStep::Stop);
    assert_eq!(acts, vec![AgentAction::FreeStatusWord { sw_info: sw(1, 2) }]);

    let (step, acts) = agent.association_failed(g(10), ESTALE, 0, sw(1, 2));
    assert_eq!(step, DiscoveryStep::Retry);
    assert!(acts.is_empty());

    let (step, acts) = agent.association_failed(g(10), 5, 0, sw(1, 2));
    assert_eq!(step, DiscoveryStep::Proceed);
    assert!(acts.is_empty());
    assert_eq!(agent.tasks.len(), 1);
}

#[test]
fn agent_association_failure_of_unknown_task() {
    let mut agent = Agent::new(0);
    let (step, acts) = agent.association_failed(g(99), ENOENT, 0, sw(0, 0));
    assert_eq!(step, DiscoveryStep::Stop);
    assert!(acts.is_empty());
    assert!(agent.tasks.is_empty());
}

#[test]
fn agent_discovered_runnable_task() {
    let mut agent = Agent::new(5);
    let acts = agent.task_discovered(g(30), sw(2, 7), 11, GHOST_SW_TASK_RUNNABLE, 0, 0);
    assert_eq!(
        acts,
        vec![AgentAction::Associate { gtid: g(30), barrier: 11 }, AgentAction::Ping { cpu: 5 }]
    );
    let t = agent.tasks[0];
    assert_eq!(t.gtid, g(30));
    assert_eq!(t.seqnum, 11);
    assert_eq!(t.cpu, 5);
    assert_eq!(t.state, TaskState::Runnable);
    assert_eq!(t.status_word.sw_info, sw(2, 7));
}

#[test]
fn agent_discovered_blocked_task() {
    let mut agent = Agent::new(5);
    let acts = agent.task_discovered(g(30), sw(2, 7), 11, 0, 0, 0);
    assert!(acts.is_empty());
    assert_eq!(agent.tasks[0].seqnum, 11);
    assert_eq!(agent.tasks[0].state, TaskState::Blocked);
    assert_eq!(agent.tasks[0].cpu, -1);
}

#[test]
fn agent_discovered_already_associated_is_left_alone() {
    let mut agent = Agent::new(5);
    let acts = agent.task_discovered(g(30), sw(2, 7), 11, GHOST_SW_TASK_RUNNABLE, 0, GHOST_ASSOC_SF_ALREADY);
    assert!(acts.is_empty());
    assert!(agent.tasks.is_empty());
    let acts = agent.task_discovered(g(30), sw(2, 7), 11, GHOST_SW_TASK_RUNNABLE, 0, GHOST_ASSOC_SF_BRAND_NEW);
    assert!(acts.is_empty());
    assert!(agent.tasks.is_empty());
}

#[test]
fn agent_find_task_finds_by_gtid() {
    let mut agent = Agent::new(0);
    agent.dispatch(&new_task_msg(1, 4, 0, false));
    agent.dispatch(&new_task_msg(2, 4, 0, false));
    assert_eq!(agent.find_task(g(1)), Some(0));
    assert_eq!(agent.find_task(g(2)), Some(1));
    assert_eq!(agent.find_task(g(3)), None);
}

#[test]
fn agent_create_task_refuses_duplicates() {
    let mut agent = Agent::new(0);
    assert!(agent.create_task(g(1), sw(0, 1)));
    assert!(!agent.create_task(g(1), sw(0, 2)));
    assert_eq!(agent.tasks.len(), 1);
    assert_eq!(agent.tasks[0].status_word.sw_info, sw(0, 1));
    assert_eq!(agent.tasks[0].cpu, -1);
    assert_eq!(agent.tasks[0].seqnum, 0);
}

#[test]
fn agent_new_task_message_length() {
    assert_eq!(TASK_NEW_MSG_LENGTH, 48);
}

#[test]
fn agent_can_dispatch_checks_known_tasks() {
    let mut agent = Agent::new(0);
    assert!(agent.can_dispatch(&plain_msg(MSG_NOP, 1, 0)));
    assert!(agent.can_dispatch(&plain_msg(MSG_CPU_FIRST, 1, 0)));
    assert!(agent.can_dispatch(&new_task_msg(1, 2, 0, false)));
    assert!(!agent.can_dispatch(&plain_msg(MSG_TASK_NEW, 1, 0)));
    assert!(!agent.can_dispatch(&plain_msg(MSG_TASK_WAKEUP, 1, 0)));
    agent.dispatch(&new_task_msg(1, 2, 0, false));
    assert!(agent.can_dispatch(&plain_msg(MSG_TASK_WAKEUP, 1, 0)));
    agent.tasks[0].seqnum = u32::MAX;
    assert!(!agent.can_dispatch(&plain_msg(MSG_TASK_WAKEUP, 1, 0)));
    assert!(agent.can_dispatch(&plain_msg(MSG_TASK_DEAD, 1, 0)));
    assert!(agent.can_dispatch(&plain_msg(MSG_TASK_DEPARTED, 1, 0)));
}

#[test]
fn agent_can_schedule_fresh_policy() {
    let mut agent = Agent::new(0);
    assert!(agent.can_schedule());
    agent.dispatch(&new_task_msg(1, 2, 0, true));
    assert!(agent.can_schedule());
}
