use marionette::gtid::Gtid;
use marionette::random::random_source::RandomSource;
use marionette::schedulers::basic_scheduler::BaseScheduler;
use marionette::schedulers::pct::{place_new_tasks, PctScheduler};
use marionette::schedulers::random::RandomScheduler;
use marionette::schedulers::recorder::ScheduleRecorder;
use marionette::schedulers::Scheduler;

fn g(raw: i64) -> Gtid {
    Gtid::new(raw)
}

#[test]
fn random_source_replays_recorded_choices() {
    let mut rs = RandomSource::from_choices(vec![4, 2, 9]);
    assert_eq!(rs.next_choice(), 4);
    assert_eq!(rs.next_choice(), 2);
    assert_eq!(rs.next_choice(), 9);
    assert_eq!(rs.index, 3);
    let drawn = rs.next_choice();
    assert_eq!(rs.choices, vec![4, 2, 9, drawn]);
    rs.index = 0;
    assert_eq!(rs.next_choice(), 4);
    rs.index = 3;
    assert_eq!(rs.next_choice(), drawn);
    assert_eq!(rs.choices.len(), 4);
}

#[test]
fn random_source_new_records_draws() {
    let mut rs = RandomSource::new();
    assert!(rs.choices.is_empty());
    let a = rs.next_choice();
    let b = rs.next_choice();
    assert_eq!(rs.choices, vec![a, b]);
    assert_eq!(rs.index, 2);
}

#[test]
fn random_scheduler_follows_recorded_choices() {
    let runnable = vec![g(10), g(11), g(12)];
    let mut s = RandomScheduler::new();
    let expected = [0usize, 0, 0, 1, 2, 1, 2, 2, 1, 1, 0];
    for &c in expected.iter() {
        assert_eq!(s.next_task(&runnable, None), (Some(runnable[c % 3]), true));
    }
}

#[test]
fn random_scheduler_replays_after_new_execution() {
    let runnable = vec![g(1), g(2)];
    let mut s = RandomScheduler::new();
    let first: Vec<_> = (0..5).map(|_| s.next_task(&runnable, None)).collect();
    s.new_execution();
    let second: Vec<_> = (0..5).map(|_| s.next_task(&runnable, None)).collect();
    assert_eq!(first, second);
}

#[test]
fn random_scheduler_revert_repeats_pick() {
    let runnable = vec![g(1), g(2), g(3)];
    let mut s = RandomScheduler::new();
    for _ in 0..4 {
        s.next_task(&runnable, None);
    }
    let picked = s.next_task(&runnable, None);
    s.revert_last_choice();
    assert_eq!(s.next_task(&runnable, None), picked);
    assert_eq!(picked, (Some(g(3)), true));
}

#[test]
fn random_scheduler_empty_runnable() {
    let mut s = RandomScheduler::new();
    assert_eq!(s.next_task(&Vec::new(), None), (None, false));
    assert!(s.dump_schedules().is_empty());
}

#[test]
fn recorder_records_picks_and_positions() {
    let mut r = ScheduleRecorder::new(RandomScheduler::new());
    let runnable = vec![g(16), g(17), g(18)];
    for _ in 0..5 {
        r.next_task(&runnable, None);
    }
    assert_eq!(r.next_task(&Vec::new(), None), (None, false));
    let lines = r.dump_schedules();
    assert_eq!(lines.len(), 2);
    assert_eq!(lines[0], "Schedule: 0x10, 0x10, 0x10, 0x11, 0x12, 0x0");
    assert_eq!(lines[1], "Choices: 0, 0, 0, 1, 2");
}

#[test]
fn recorder_revert_undoes_record() {
    let mut r = ScheduleRecorder::new(RandomScheduler::new());
    let runnable = vec![g(1), g(2)];
    r.next_task(&runnable, None);
    let before = r.dump_schedules();
    r.next_task(&runnable, None);
    r.revert_last_choice();
    assert_eq!(r.dump_schedules(), before);
}

#[test]
fn recorder_new_execution_clears() {
    let mut r = ScheduleRecorder::new(RandomScheduler::new());
    let runnable = vec![g(1), g(2)];
    r.next_task(&runnable, None);
    r.new_execution();
    assert_eq!(r.dump_schedules(), vec!["Schedule: ".to_string(), "Choices: ".to_string()]);
    assert_eq!(r.next_task(&runnable, None), (Some(g(1)), true));
}

#[test]
fn recorder_records_first_position_of_duplicates() {
    let mut r = ScheduleRecorder::new(BaseScheduler::new());
    let runnable = vec![g(5), g(5), g(6)];
    assert_eq!(r.next_task(&runnable, None), (Some(g(5)), true));
    assert_eq!(r.dump_schedules()[1], "Choices: 0");
}

#[test]
fn pct_picks_a_runnable_task() {
    let mut p = PctScheduler::new(5);
    p.new_execution();
    let runnable = vec![g(1), g(2), g(3)];
    for _ in 0..50 {
        let (t, picked) = p.next_task(&runnable, None);
        assert!(picked);
        assert!(runnable.contains(&t.unwrap()));
    }
    let only = vec![g(2)];
    for _ in 0..20 {
        assert_eq!(p.next_task(&only, None), (Some(g(2)), true));
    }
    assert_eq!(p.next_task(&Vec::new(), None), (None, false));
    p.revert_last_choice();
    assert!(p.dump_schedules().is_empty());
}

#[test]
fn pct_keeps_priorities_without_change_points() {
    // With no change points the highest priority never changes, so the same task keeps
    // being picked while the runnable tasks stay the same.
    let mut p = PctScheduler::new(0);
    p.new_execution();
    let runnable = vec![g(1), g(2), g(3), g(4)];
    let (first, _) = p.next_task(&runnable, None);
    for _ in 0..30 {
        assert_eq!(p.next_task(&runnable, None).0, first);
    }
}

#[test]
fn base_scheduler_queue() {
    let mut b = BaseScheduler::new();
    assert_eq!(b.get_next(), None);
    b.add_task(&g(7));
    b.add_task(&g(8));
    b.add_task(&g(7));
    b.remove_task(&g(8));
    assert_eq!(b.get_next(), Some(g(7)));
    assert_eq!(b.get_next(), None);
    b.add_task(&g(1));
    b.add_task(&g(2));
    let x = b.get_next().unwrap();
    let y = b.get_next().unwrap();
    assert!((x == g(1) && y == g(2)) || (x == g(2) && y == g(1)));
    assert_eq!(b.get_next(), None);
}

#[test]
fn base_scheduler_picks_first_runnable() {
    let mut b = BaseScheduler::new();
    b.new_execution();
    assert_eq!(b.next_task(&vec![g(3), g(1)], None), (Some(g(3)), true));
    assert_eq!(b.next_task(&Vec::new(), None), (None, false));
}

#[test]
fn schedulers_have_room_for_picks() {
    assert!(RandomScheduler::new().can_step_up_to(3));
    assert!(PctScheduler::new(5).can_step_up_to(100));
    assert!(!PctScheduler::new(5).can_step_up_to(usize::MAX));
    assert!(!PctScheduler::new(usize::MAX).can_step_up_to(0));
    assert!(BaseScheduler::new().can_step_up_to(usize::MAX));
    assert!(ScheduleRecorder::new(RandomScheduler::new()).can_step_up_to(7));
}

#[test]
fn pct_demotes_the_top_task_at_change_points() {
    // Two change points: the first two picks each demote the task on top, so they differ,
    // and from then on the second pick stays on top.
    let mut p = PctScheduler::new(2);
    p.new_execution();
    let runnable = vec![g(1), g(2)];
    let picks: Vec<Gtid> = (0..6).map(|_| p.next_task(&runnable, None).0.unwrap()).collect();
    assert_ne!(picks[0], picks[1]);
    for later in &picks[2..] {
        assert_eq!(*later, picks[1]);
    }
}

#[test]
fn pct_keeps_known_order_when_tasks_arrive() {
    // Without change points, a task that arrives later may only take the top if it is
    // placed above the current top; the known tasks keep their order among themselves.
    let mut p = PctScheduler::new(0);
    p.new_execution();
    let first = p.next_task(&vec![g(1), g(2)], None).0.unwrap();
    let second = p.next_task(&vec![g(1), g(2), g(3)], None).0.unwrap();
    assert!(second == first || second == g(3));
    let third = p.next_task(&vec![g(1), g(2)], None).0.unwrap();
    assert_eq!(third, first);
}

#[test]
fn pct_places_new_tasks_at_drawn_positions() {
    let mut priorities = vec![g(1), g(2)];
    place_new_tasks(&mut priorities, &vec![g(3), g(4)], &vec![5, 0]);
    assert_eq!(priorities, vec![g(4), g(1), g(2), g(3)]);
    let mut priorities = Vec::new();
    place_new_tasks(&mut priorities, &vec![g(7)], &vec![u32::MAX]);
    assert_eq!(priorities, vec![g(7)]);
    let mut priorities = vec![g(1)];
    place_new_tasks(&mut priorities, &vec![], &vec![]);
    assert_eq!(priorities, vec![g(1)]);
}

#[test]
fn random_scheduler_first_five_picks() {
    let runnable = vec![g(1), g(2), g(3)];
    let mut s = RandomScheduler::new();
    let picks: Vec<Gtid> = (0..5).map(|_| s.next_task(&runnable, None).0.unwrap()).collect();
    assert_eq!(picks, vec![g(1), g(1), g(1), g(2), g(3)]);
}
