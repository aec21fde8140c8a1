use fusion::fetch::{refresh_meas, GroupReplies};
use fusion::layout::{Layout, SensorGroup, SensorKind};
use fusion::payload::{Altitude, Gyro, Imu, Payload, Vec3};
use fusion::query::Consolidation;
use fusion::scheduler::{Action, Event, Phase, Scheduler};

fn floats(values: &[u32]) -> Vec<f32> {
    values.iter().map(|v| f32::from_bits(*v)).collect()
}

/// A payload of kind `kind` whose fields all hold `value`.
fn uniform(kind: SensorKind, value: f32) -> Payload {
    let v = value.to_bits();
    match kind {
        SensorKind::Imu => Payload::Imu(Imu { acceleration: Some(Vec3 { x: v, y: v, z: v }) }),
        SensorKind::Gyro => Payload::Gyro(Gyro { omega_x: v, omega_y: v, omega_z: v }),
        SensorKind::Altimeter => Payload::Altitude(Altitude { altitude: v }),
    }
}

/// Runs one cycle: ticks, then answers each query with `answer(key, kind)`.
/// Returns the scheduler and the keys that were asked for, in order.
fn run_cycle(
    mut scheduler: Scheduler,
    answer: &dyn Fn(&str, SensorKind) -> Option<Payload>,
) -> (Scheduler, Vec<String>) {
    let mut asked = Vec::new();
    let (next, mut action) = scheduler.step(Event::Tick);
    scheduler = next;
    loop {
        match action {
            Action::Query { request, kind } => {
                assert_eq!(request.timeout_ms, 50);
                assert_eq!(request.consolidation, Consolidation::Latest);
                let reply = answer(&request.key, kind);
                asked.push(request.key);
                let (next, then) = scheduler.step(Event::Reply(reply));
                scheduler = next;
                action = then;
            }
            Action::Report { sleep_ms } => {
                assert_eq!(sleep_ms, 10);
                assert_eq!(scheduler.phase(), Phase::Idle);
                return (scheduler, asked);
            }
            Action::Ignore => panic!("an event of the cycle was ignored"),
        }
    }
}

#[test]
fn new_scheduler_is_idle_with_a_zeroed_vector() {
    let scheduler = Scheduler::new(Layout::reference());
    assert_eq!(scheduler.phase(), Phase::Idle);
    assert_eq!(scheduler.measurement().len(), 19);
    assert_eq!(floats(scheduler.measurement()), vec![0.0; 19]);
    assert_eq!(scheduler.layout().capacity(), 19);
}

#[test]
fn tick_asks_for_the_first_key() {
    let scheduler = Scheduler::new(Layout::reference());
    let (scheduler, action) = scheduler.step(Event::Tick);
    assert_eq!(scheduler.phase(), Phase::Refreshing { group: 0, key: 0 });
    match action {
        Action::Query { request, kind } => {
            assert_eq!(request.key, "devices/imu0");
            assert_eq!(request.timeout_ms, 50);
            assert_eq!(request.consolidation, Consolidation::Latest);
            assert_eq!(kind, SensorKind::Imu);
        }
        other => panic!("expected a query, got {:?}", other),
    }
}

#[test]
fn cycle_asks_every_key_once_in_declared_order() {
    let scheduler = Scheduler::new(Layout::reference());
    let (_, asked) = run_cycle(scheduler, &|_, _| None);
    assert_eq!(
        asked,
        vec![
            "devices/imu0",
            "devices/imu1",
            "devices/imu2",
            "devices/gyro0",
            "devices/gyro1",
            "devices/altitude0",
            "devices/altitude1",
            "devices/altitude2",
            "devices/altitude3",
        ]
    );
}

#[test]
fn reply_is_written_before_the_next_query() {
    let scheduler = Scheduler::new(Layout::reference());
    let (scheduler, _) = scheduler.step(Event::Tick);
    let (scheduler, action) =
        scheduler.step(Event::Reply(Some(uniform(SensorKind::Imu, 1.5))));
    assert_eq!(floats(&scheduler.measurement()[0..4]), vec![1.5, 1.5, 1.5, 0.0]);
    assert_eq!(scheduler.phase(), Phase::Refreshing { group: 0, key: 1 });
    match action {
        Action::Query { request, kind } => {
            assert_eq!(request.key, "devices/imu1");
            assert_eq!(kind, SensorKind::Imu);
        }
        other => panic!("expected a query, got {:?}", other),
    }
}

#[test]
fn last_key_of_a_group_leads_to_the_next_group() {
    let mut scheduler = Scheduler::new(Layout::reference());
    let mut action = Action::Ignore;
    let (next, _) = scheduler.step(Event::Tick);
    scheduler = next;
    for _ in 0..3 {
        let (next, then) = scheduler.step(Event::Reply(None));
        scheduler = next;
        action = then;
    }
    assert_eq!(scheduler.phase(), Phase::Refreshing { group: 1, key: 0 });
    match action {
        Action::Query { request, kind } => {
            assert_eq!(request.key, "devices/gyro0");
            assert_eq!(kind, SensorKind::Gyro);
        }
        other => panic!("expected a query, got {:?}", other),
    }
}

#[test]
fn full_cycle_matches_the_batch_refresh() {
    let answer = |key: &str, kind: SensorKind| {
        if key == "devices/gyro0" {
            None
        } else if key == "devices/imu1" {
            Some(Payload::Malformed)
        } else {
            Some(uniform(kind, key.len() as f32))
        }
    };
    let (scheduler, _) = run_cycle(Scheduler::new(Layout::reference()), &answer);

    let layout = Layout::reference();
    let mut replies: Vec<GroupReplies> = Vec::new();
    for g in 0..layout.group_count() {
        let group = layout.group(g);
        replies.push(
            group.keys.iter().map(|k| answer(&format!("devices/{}", k), group.kind)).collect(),
        );
    }
    let mut meas = vec![0u32; 19];
    refresh_meas(&layout, &replies, &mut meas);
    assert_eq!(*scheduler.measurement(), meas);
    assert_eq!(
        floats(&meas),
        vec![
            12.0, 12.0, 12.0, 0.0, 0.0, 0.0, 12.0, 12.0, 12.0, 0.0, 0.0, 0.0, 13.0, 13.0, 13.0,
            17.0, 17.0, 17.0, 17.0
        ]
    );
}

#[test]
fn timed_out_altimeter_keeps_its_zero_through_the_scheduler() {
    let answer = |key: &str, kind: SensorKind| {
        if key == "devices/altitude2" {
            None
        } else {
            Some(uniform(kind, 2.0))
        }
    };
    let (scheduler, _) = run_cycle(Scheduler::new(Layout::reference()), &answer);
    let mut expected = vec![2.0; 19];
    expected[17] = 0.0;
    assert_eq!(floats(scheduler.measurement()), expected);
}

#[test]
fn stale_values_carry_over_to_the_next_cycle() {
    let (scheduler, _) =
        run_cycle(Scheduler::new(Layout::reference()), &|_, kind| Some(uniform(kind, 1.0)));
    let (scheduler, _) = run_cycle(scheduler, &|key, kind| {
        if key.starts_with("devices/gyro") {
            None
        } else {
            Some(uniform(kind, 2.0))
        }
    });
    let mut expected = vec![2.0; 19];
    for field in expected.iter_mut().take(15).skip(9) {
        *field = 1.0;
    }
    assert_eq!(floats(scheduler.measurement()), expected);
}

#[test]
fn two_cycles_with_the_same_replies_report_the_same_bits() {
    let answer = |key: &str, kind: SensorKind| {
        if key.ends_with('1') {
            None
        } else {
            Some(uniform(kind, 3.5))
        }
    };
    let (scheduler, _) = run_cycle(Scheduler::new(Layout::reference()), &answer);
    let first = scheduler.measurement().clone();
    let (scheduler, _) = run_cycle(scheduler, &answer);
    assert_eq!(*scheduler.measurement(), first);
}

#[test]
fn tick_during_a_refresh_is_ignored() {
    let scheduler = Scheduler::new(Layout::reference());
    let (scheduler, _) = scheduler.step(Event::Tick);
    let (scheduler, _) = scheduler.step(Event::Reply(Some(uniform(SensorKind::Imu, 1.0))));
    let before = scheduler.measurement().clone();
    let (scheduler, action) = scheduler.step(Event::Tick);
    assert_eq!(action, Action::Ignore);
    assert_eq!(scheduler.phase(), Phase::Refreshing { group: 0, key: 1 });
    assert_eq!(*scheduler.measurement(), before);
}

#[test]
fn reply_while_idle_is_ignored() {
    let scheduler = Scheduler::new(Layout::reference());
    let (scheduler, action) =
        scheduler.step(Event::Reply(Some(uniform(SensorKind::Imu, 1.0))));
    assert_eq!(action, Action::Ignore);
    assert_eq!(scheduler.phase(), Phase::Idle);
    assert_eq!(floats(scheduler.measurement()), vec![0.0; 19]);
}

#[test]
fn layout_without_keys_reports_at_once() {
    let layout = Layout::new(vec![
        SensorGroup::named(SensorKind::Imu, &vec![]),
        SensorGroup::named(SensorKind::Gyro, &vec![]),
    ])
    .expect("a small layout fits");
    let (scheduler, action) = Scheduler::new(layout).step(Event::Tick);
    assert_eq!(action, Action::Report { sleep_ms: 10 });
    assert_eq!(scheduler.phase(), Phase::Idle);
    assert!(scheduler.measurement().is_empty());
}

#[test]
fn groups_without_keys_are_passed_over() {
    let layout = Layout::new(vec![
        SensorGroup::named(SensorKind::Imu, &vec![]),
        SensorGroup::named(SensorKind::Altimeter, &vec!["a"]),
        SensorGroup::named(SensorKind::Gyro, &vec![]),
        SensorGroup::named(SensorKind::Gyro, &vec!["g"]),
        SensorGroup::named(SensorKind::Imu, &vec![]),
    ])
    .expect("a small layout fits");
    let (scheduler, action) = Scheduler::new(layout).step(Event::Tick);
    assert_eq!(scheduler.phase(), Phase::Refreshing { group: 1, key: 0 });
    assert!(matches!(action, Action::Query { kind: SensorKind::Altimeter, .. }));
    let (scheduler, action) =
        scheduler.step(Event::Reply(Some(uniform(SensorKind::Altimeter, 1.0))));
    assert_eq!(scheduler.phase(), Phase::Refreshing { group: 3, key: 0 });
    assert!(matches!(action, Action::Query { kind: SensorKind::Gyro, .. }));
    let (scheduler, action) = scheduler.step(Event::Reply(Some(uniform(SensorKind::Gyro, 2.0))));
    assert_eq!(action, Action::Report { sleep_ms: 10 });
    assert_eq!(scheduler.phase(), Phase::Idle);
    assert_eq!(floats(scheduler.measurement()), vec![1.0, 2.0, 2.0, 2.0]);
}
