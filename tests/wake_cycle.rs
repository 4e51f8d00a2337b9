use sensor_node::arr_deque::ArrDeque;
use sensor_node::line_protocol::Measurement;
use sensor_node::wake_cycle::{
    is_success_status, slow_clock_seconds, Action, Event, Mode, Phase, WakeCycle,
};

fn store_with(n: u16) -> ArrDeque<Measurement, 10> {
    let mut store = ArrDeque::new();
    for i in 0..n {
        store.overwriting_push_back(Measurement { value: i, time: u32::from(i) });
    }
    store
}

fn contents(store: &ArrDeque<Measurement, 10>) -> Vec<Measurement> {
    let mut out = Vec::new();
    let mut iter = store.iter();
    while let Some(m) = iter.next() {
        out.push(*m);
    }
    out
}

#[test]
fn success_statuses() {
    assert!(is_success_status(200));
    assert!(is_success_status(204));
    assert!(is_success_status(299));
    assert!(!is_success_status(199));
    assert!(!is_success_status(300));
    assert!(!is_success_status(500));
}

#[test]
fn clock_seconds_from_ticks() {
    assert_eq!(slow_clock_seconds(32768 * 5 + 100, 32768), 5);
    assert_eq!(slow_clock_seconds(0, 32768), 0);
    assert_eq!(slow_clock_seconds(u64::MAX, 1), u32::MAX);
    assert_eq!(slow_clock_seconds((1u64 << 32) + 3, 1), 3);
}

#[test]
fn below_threshold_powers_off_without_network() {
    let mut store = store_with(2);
    let mut cycle = WakeCycle::new(Mode::Buffered, 6);
    let action = cycle.step(&mut store, Event::Sampled { value: 77, time: 500 });
    assert_eq!(action, Action::PowerOff);
    assert_eq!(cycle.phase, Phase::Done);
    assert_eq!(store.len(), 3);
    for e in [Event::StationStarted, Event::IpAssigned, Event::Response { status: 200 }] {
        assert_eq!(cycle.step(&mut store, e), Action::PowerOff);
    }
    assert_eq!(contents(&store).last(), Some(&Measurement { value: 77, time: 500 }));
    assert_eq!(store.len(), 3);
}

#[test]
fn full_buffered_cycle_uploads_and_clears() {
    let mut store = store_with(5);
    let mut cycle = WakeCycle::new(Mode::Buffered, 6);
    assert_eq!(cycle.step(&mut store, Event::Sampled { value: 9, time: 50 }), Action::StartNetwork);
    assert_eq!(cycle.step(&mut store, Event::IpAssigned), Action::Wait);
    assert_eq!(cycle.step(&mut store, Event::StationStarted), Action::Connect);
    assert_eq!(cycle.step(&mut store, Event::StationConnected), Action::Wait);
    assert_eq!(cycle.step(&mut store, Event::IpAssigned), Action::StartTimeSync);
    assert_eq!(cycle.step(&mut store, Event::SyncPending), Action::PollTimeSync);
    assert_eq!(
        cycle.step(&mut store, Event::SyncCompleted { now: 1000, clock: 60 }),
        Action::Upload
    );
    assert_eq!(cycle.offset, 940);
    let body = cycle.upload_body(&store, b"m ");
    let text = String::from_utf8(body).unwrap();
    assert_eq!(text.lines().count(), 6);
    assert!(text.starts_with("m 0 940000000000\n"));
    assert!(text.ends_with("m 9 990000000000\n"));
    assert_eq!(cycle.step(&mut store, Event::Response { status: 201 }), Action::PowerOff);
    assert!(store.is_empty());
    assert_eq!(cycle.phase, Phase::Done);
}

#[test]
fn failed_upload_keeps_records() {
    let mut store = store_with(6);
    let before = contents(&store);
    let mut cycle = WakeCycle::new(Mode::Buffered, 6);
    for e in [
        Event::Sampled { value: 42, time: 7 },
        Event::StationStarted,
        Event::StationConnected,
        Event::IpAssigned,
        Event::SyncCompleted { now: 10, clock: 7 },
    ] {
        cycle.step(&mut store, e);
    }
    assert_eq!(cycle.phase, Phase::Uploading);
    assert_eq!(cycle.step(&mut store, Event::Response { status: 500 }), Action::PowerOff);
    let mut expected = before.clone();
    expected.push(Measurement { value: 42, time: 7 });
    assert_eq!(contents(&store), expected);
}

#[test]
fn transport_error_keeps_records() {
    let mut store = store_with(10);
    let mut cycle = WakeCycle::new(Mode::Buffered, 6);
    for e in [
        Event::Sampled { value: 42, time: 7 },
        Event::StationStarted,
        Event::StationConnected,
        Event::IpAssigned,
        Event::SyncCompleted { now: 10, clock: 7 },
    ] {
        cycle.step(&mut store, e);
    }
    assert_eq!(cycle.step(&mut store, Event::Failed), Action::PowerOff);
    let kept = contents(&store);
    assert_eq!(kept.len(), 10);
    assert_eq!(kept[0], Measurement { value: 1, time: 1 });
    assert_eq!(kept[9], Measurement { value: 42, time: 7 });
}

#[test]
fn sensor_failure_leaves_store_untouched() {
    let mut store = store_with(4);
    let before = contents(&store);
    let mut cycle = WakeCycle::new(Mode::Buffered, 6);
    assert_eq!(cycle.step(&mut store, Event::Failed), Action::PowerOff);
    assert_eq!(contents(&store), before);
}

#[test]
fn disconnect_while_connecting_powers_off() {
    let mut store = store_with(0);
    let mut cycle = WakeCycle::new(Mode::Immediate, 6);
    assert_eq!(cycle.step(&mut store, Event::Sampled { value: 3, time: 1 }), Action::StartNetwork);
    assert_eq!(cycle.step(&mut store, Event::StationStarted), Action::Connect);
    assert_eq!(cycle.step(&mut store, Event::StationDisconnected), Action::PowerOff);
    assert_eq!(cycle.step(&mut store, Event::IpAssigned), Action::PowerOff);
    assert!(store.is_empty());
}

#[test]
fn immediate_cycle_sends_single_value() {
    let mut store = store_with(0);
    let mut cycle = WakeCycle::new(Mode::Immediate, 6);
    cycle.step(&mut store, Event::Sampled { value: 321, time: 1 });
    cycle.step(&mut store, Event::StationStarted);
    cycle.step(&mut store, Event::StationConnected);
    assert_eq!(cycle.step(&mut store, Event::IpAssigned), Action::Upload);
    assert_eq!(cycle.upload_body(&store, b"v="), b"v=321".to_vec());
    assert!(store.is_empty());
    assert_eq!(cycle.step(&mut store, Event::Response { status: 200 }), Action::PowerOff);
}

#[test]
fn buffered_disconnect_after_connect_is_ignored() {
    let mut store = store_with(6);
    let mut cycle = WakeCycle::new(Mode::Buffered, 6);
    cycle.step(&mut store, Event::Sampled { value: 1, time: 1 });
    cycle.step(&mut store, Event::StationStarted);
    cycle.step(&mut store, Event::StationConnected);
    assert_eq!(cycle.step(&mut store, Event::StationDisconnected), Action::Wait);
    assert_eq!(cycle.phase, Phase::AwaitIp);
}
