use fusion::fetch::{query_and_parse, refresh_meas, GroupReplies};
use fusion::layout::{Layout, SensorGroup, SensorKind};
use fusion::payload::{Altitude, Gyro, Imu, Payload, Vec3};

fn bits(values: &[f32]) -> Vec<u32> {
    values.iter().map(|v| v.to_bits()).collect()
}

fn floats(values: &[u32]) -> Vec<f32> {
    values.iter().map(|v| f32::from_bits(*v)).collect()
}

fn acceleration(x: f32, y: f32, z: f32) -> Option<Payload> {
    Some(Payload::Imu(Imu {
        acceleration: Some(Vec3 { x: x.to_bits(), y: y.to_bits(), z: z.to_bits() }),
    }))
}

fn angular_rate(x: f32, y: f32, z: f32) -> Option<Payload> {
    Some(Payload::Gyro(Gyro { omega_x: x.to_bits(), omega_y: y.to_bits(), omega_z: z.to_bits() }))
}

fn altitude(a: f32) -> Option<Payload> {
    Some(Payload::Altitude(Altitude { altitude: a.to_bits() }))
}

/// Replies in which every sensor of the reference suite answers, field `i`
/// of the vector with the value `i + 1`.
fn all_answer() -> Vec<GroupReplies> {
    vec![
        vec![
            acceleration(1.0, 2.0, 3.0),
            acceleration(4.0, 5.0, 6.0),
            acceleration(7.0, 8.0, 9.0),
        ],
        vec![angular_rate(10.0, 11.0, 12.0), angular_rate(13.0, 14.0, 15.0)],
        vec![altitude(16.0), altitude(17.0), altitude(18.0), altitude(19.0)],
    ]
}

fn one_to_nineteen() -> Vec<f32> {
    (1..=19).map(|i| i as f32).collect()
}

#[test]
fn group_fetch_returns_the_next_free_offset() {
    let group = SensorGroup::named(SensorKind::Gyro, &vec!["gyro0", "gyro1"]);
    let mut meas = bits(&[0.0; 19]);
    let replies = vec![angular_rate(1.0, 2.0, 3.0), angular_rate(4.0, 5.0, 6.0)];
    let next = query_and_parse(&group, &replies, &mut meas, 9);
    assert_eq!(next, 15);
    assert_eq!(floats(&meas[9..15]), vec![1.0, 2.0, 3.0, 4.0, 5.0, 6.0]);
    assert_eq!(floats(&meas[..9]), vec![0.0; 9]);
    assert_eq!(floats(&meas[15..]), vec![0.0; 4]);
}

#[test]
fn group_fetch_advances_past_a_silent_sensor() {
    let group = SensorGroup::named(SensorKind::Imu, &vec!["imu0", "imu1", "imu2"]);
    let mut meas = bits(&[0.5; 9]);
    let replies = vec![acceleration(1.0, 2.0, 3.0), None, acceleration(7.0, 8.0, 9.0)];
    let next = query_and_parse(&group, &replies, &mut meas, 0);
    assert_eq!(next, 9);
    assert_eq!(floats(&meas), vec![1.0, 2.0, 3.0, 0.5, 0.5, 0.5, 7.0, 8.0, 9.0]);
}

#[test]
fn group_fetch_treats_a_key_without_entry_as_silent() {
    let group = SensorGroup::named(SensorKind::Altimeter, &vec!["a", "b", "c"]);
    let mut meas = bits(&[0.5; 3]);
    let next = query_and_parse(&group, &vec![altitude(1.0)], &mut meas, 0);
    assert_eq!(next, 3);
    assert_eq!(floats(&meas), vec![1.0, 0.5, 0.5]);
}

#[test]
fn group_fetch_of_an_empty_group_stays_put() {
    let group = SensorGroup::named(SensorKind::Imu, &vec![]);
    let mut meas = bits(&[0.5; 2]);
    let next = query_and_parse(&group, &vec![acceleration(1.0, 2.0, 3.0)], &mut meas, 2);
    assert_eq!(next, 2);
    assert_eq!(floats(&meas), vec![0.5, 0.5]);
}

#[test]
fn full_cycle_is_the_concatenation_in_declared_order() {
    let layout = Layout::reference();
    let mut meas = bits(&[0.0; 19]);
    refresh_meas(&layout, &all_answer(), &mut meas);
    assert_eq!(floats(&meas), one_to_nineteen());
}

#[test]
fn full_cycle_overwrites_whatever_was_there() {
    let layout = Layout::reference();
    let mut meas = bits(&[-1.0; 19]);
    refresh_meas(&layout, &all_answer(), &mut meas);
    assert_eq!(floats(&meas), one_to_nineteen());
}

#[test]
fn timed_out_altimeter_keeps_its_zero() {
    let layout = Layout::reference();
    let mut meas = bits(&[0.0; 19]);
    let mut replies = all_answer();
    replies[2][2] = None;
    refresh_meas(&layout, &replies, &mut meas);
    let owned_by_altitude2 = 3 * 3 + 2 * 3 + 2;
    for (i, value) in floats(&meas).into_iter().enumerate() {
        if i == owned_by_altitude2 {
            assert_eq!(value, 0.0);
        } else {
            assert_ne!(value, 0.0);
            assert_eq!(value, (i + 1) as f32);
        }
    }
}

#[test]
fn silent_sensor_keeps_the_value_of_the_cycle_before() {
    let layout = Layout::reference();
    let mut meas = bits(&[0.0; 19]);
    refresh_meas(&layout, &all_answer(), &mut meas);
    let second = vec![
        vec![acceleration(-1.0, -2.0, -3.0), None, acceleration(-7.0, -8.0, -9.0)],
        vec![None, angular_rate(-13.0, -14.0, -15.0)],
        vec![None, None, altitude(-18.0), None],
    ];
    refresh_meas(&layout, &second, &mut meas);
    assert_eq!(
        floats(&meas),
        vec![
            -1.0, -2.0, -3.0, 4.0, 5.0, 6.0, -7.0, -8.0, -9.0, 10.0, 11.0, 12.0, -13.0, -14.0,
            -15.0, 16.0, 17.0, -18.0, 19.0
        ]
    );
}

#[test]
fn malformed_payload_behaves_as_a_timeout() {
    let layout = Layout::reference();
    let start = bits(&[0.25; 19]);
    for (g, k) in [(0, 1), (1, 0), (2, 3)] {
        let mut timed_out = all_answer();
        timed_out[g][k] = None;
        let mut malformed = all_answer();
        malformed[g][k] = Some(Payload::Malformed);
        let mut left = start.clone();
        let mut right = start.clone();
        refresh_meas(&layout, &timed_out, &mut left);
        refresh_meas(&layout, &malformed, &mut right);
        assert_eq!(left, right);
        assert!(floats(&left).contains(&0.25));
    }
}

#[test]
fn payload_of_the_wrong_kind_behaves_as_a_timeout() {
    let layout = Layout::reference();
    let mut timed_out = all_answer();
    timed_out[0][0] = None;
    let mut wrong = all_answer();
    wrong[0][0] = altitude(99.0);
    let mut left = bits(&[0.0; 19]);
    let mut right = bits(&[0.0; 19]);
    refresh_meas(&layout, &timed_out, &mut left);
    refresh_meas(&layout, &wrong, &mut right);
    assert_eq!(left, right);
    assert_eq!(floats(&left[0..3]), vec![0.0, 0.0, 0.0]);
}

#[test]
fn same_replies_twice_give_bit_identical_vectors() {
    let layout = Layout::reference();
    let mut replies = all_answer();
    replies[0][2] = None;
    replies[1][1] = Some(Payload::Malformed);
    let mut meas = bits(&[0.0; 19]);
    refresh_meas(&layout, &replies, &mut meas);
    let first = meas.clone();
    refresh_meas(&layout, &replies, &mut meas);
    assert_eq!(meas, first);
}

#[test]
fn cycle_without_any_sample_changes_nothing() {
    let layout = Layout::reference();
    let before = bits(&one_to_nineteen());
    let mut meas = before.clone();
    refresh_meas(&layout, &Vec::new(), &mut meas);
    assert_eq!(meas, before);
    let silent = vec![vec![None; 3], vec![None; 2], vec![None; 4]];
    refresh_meas(&layout, &silent, &mut meas);
    assert_eq!(meas, before);
}

#[test]
fn one_failure_does_not_hold_back_the_others() {
    let layout = Layout::reference();
    for g in 0..3 {
        for k in 0..layout.group(g).keys.len() {
            let mut replies = all_answer();
            replies[g][k] = None;
            let mut meas = bits(&[0.0; 19]);
            refresh_meas(&layout, &replies, &mut meas);
            let zeros = floats(&meas).iter().filter(|v| **v == 0.0).count();
            assert_eq!(zeros, layout.group(g).kind.stride());
        }
    }
}

#[test]
fn groups_without_keys_take_no_room() {
    let layout = Layout::new(vec![
        SensorGroup::named(SensorKind::Imu, &vec![]),
        SensorGroup::named(SensorKind::Altimeter, &vec!["a"]),
        SensorGroup::named(SensorKind::Gyro, &vec![]),
        SensorGroup::named(SensorKind::Gyro, &vec!["g"]),
    ])
    .expect("a small layout fits");
    let mut meas = bits(&[0.0; 4]);
    let replies = vec![vec![], vec![altitude(1.0)], vec![], vec![angular_rate(2.0, 3.0, 4.0)]];
    refresh_meas(&layout, &replies, &mut meas);
    assert_eq!(floats(&meas), vec![1.0, 2.0, 3.0, 4.0]);
}
