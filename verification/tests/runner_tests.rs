use benchmarking::agent_runner::{runner_layout, runner_share, AgentRunner, AgentRunnerResult, SimulationConfig};
use benchmarking::events::{Event, Trip};

fn config(imu_delta_ms: u64, first_trip_delay_s: u64) -> SimulationConfig {
    SimulationConfig {
        junk_data_size: 2,
        imu_topic: String::from("imu"),
        imu_delta_ms,
        trips_topic: String::from("trips"),
        first_trip_delay_s,
        trip_delay_min_s: 1,
        trip_delay_max_s: 2,
        trip_min_length_s: 100,
        trip_max_length_s: 200,
    }
}

#[test]
fn for_run_uses_fixed_trip_schedule() {
    let c = SimulationConfig::for_run(10, String::from("driver-imu-data"), 1, String::from("trips"));
    assert_eq!(c.junk_data_size, 10);
    assert_eq!(c.imu_topic, "driver-imu-data");
    assert_eq!(c.imu_delta_ms, 1000);
    assert_eq!(c.trips_topic, "trips");
    assert_eq!(
        (c.first_trip_delay_s, c.trip_delay_min_s, c.trip_delay_max_s, c.trip_min_length_s, c.trip_max_length_s),
        (1, 1, 2, 1, 2)
    );
    let far = SimulationConfig::for_run(0, String::new(), u64::MAX, String::new());
    assert_eq!(far.imu_delta_ms, u64::MAX);
}

#[test]
fn topics_route_events() {
    let c = config(0, 0);
    let imu = Event::IMUMeasurement { driver_id: 1, occurred_at_ms: 2, meta: benchmarking::events::junk_meta_of_size(0) };
    let end = Event::Trip(Trip::End { trip_id: 1, driver_id: 1, occurred_at_ms: 2, meta: benchmarking::events::junk_meta_of_size(0) });
    assert_eq!(c.topic_for(&imu), "imu");
    assert_eq!(c.topic_for(&end), "trips");
}

#[test]
fn result_addition() {
    let a = AgentRunnerResult { imu_measurements_count: 3, total_trips: 4 };
    let b = AgentRunnerResult { imu_measurements_count: 10, total_trips: 1 };
    assert_eq!(a + b, AgentRunnerResult { imu_measurements_count: 13, total_trips: 5 });
    assert_eq!(a + b, b + a);
    assert_eq!(a + AgentRunnerResult::default(), a);
    let mut c = AgentRunnerResult::default();
    assert_eq!(c, AgentRunnerResult { imu_measurements_count: 0, total_trips: 0 });
    c.add_assign(a);
    c.add_assign(b);
    assert_eq!(c, a + b);
}

#[test]
fn layout_of_runs() {
    assert_eq!(runner_layout(5, 32), (1, 5));
    assert_eq!(runner_layout(100, 32), (32, 3));
    assert_eq!(runner_layout(0, 4), (1, 0));
    assert_eq!(runner_layout(10, 10), (10, 1));
}

#[test]
fn shares_run_every_agent() {
    let shares: Vec<u64> = (0..32).map(|i| runner_share(100, 32, i)).collect();
    assert_eq!(shares.iter().sum::<u64>(), 100);
    assert_eq!(&shares[..4], &[4, 4, 4, 4]);
    assert!(shares[4..].iter().all(|&s| s == 3));
    assert_eq!(runner_share(5, 1, 0), 5);
    assert_eq!(runner_share(0, 4, 3), 0);
    assert_eq!(runner_share(u64::MAX, 2, 0), u64::MAX / 2 + 1);
}

#[test]
fn new_runner_has_fresh_agents() {
    let r = AgentRunner::new(3, config(900, 3600));
    assert_eq!(r.agents().len(), 3);
    for a in r.agents() {
        assert_eq!(a.imu_state.measurements_count, 0);
        assert!(a.current_trip.is_none());
        assert_eq!(a.imu_state.next_action_time, 0);
    }
    assert!(r.can_tick());
    assert!(r.can_end_all_trips());
    assert_eq!(r.totals(), Some(AgentRunnerResult { imu_measurements_count: 0, total_trips: 0 }));
    assert_eq!(AgentRunner::new(0, config(500, 1)).agents().len(), 0);
}

#[test]
fn rounds_publish_and_count() {
    let mut r = AgentRunner::new(4, config(900, 3600));
    let ids: Vec<u128> = r.agents().iter().map(|a| a.id).collect();
    let out = r.tick().unwrap();
    assert_eq!(out.len(), 4);
    for (i, slot) in out.iter().enumerate() {
        let m = slot.as_ref().expect("a due measurement");
        assert_eq!(m.topic, "imu");
        assert_eq!(m.key, ids[i]);
        assert!(matches!(m.event, Event::IMUMeasurement { driver_id, .. } if driver_id == ids[i]));
        assert!(m.ended_trip.is_none());
    }
    assert_eq!(r.totals(), Some(AgentRunnerResult { imu_measurements_count: 4, total_trips: 0 }));
    let out = r.tick().unwrap();
    let mut started = 0;
    for (i, slot) in out.iter().enumerate() {
        if let Some(m) = slot {
            assert_eq!(m.topic, "trips");
            assert_eq!(m.key, ids[i]);
            assert!(matches!(m.event, Event::Trip(Trip::Start { .. })));
            started += 1;
        }
    }
    assert!(r.can_end_all_trips());
    let out = r.end_all_trips().unwrap();
    let ended = out.iter().filter(|s| s.is_some()).count();
    assert_eq!(ended, started);
    for slot in out.iter().flatten() {
        assert_eq!(slot.topic, "trips");
        match (&slot.event, slot.ended_trip) {
            (Event::Trip(Trip::End { trip_id, .. }), Some(t)) => assert_eq!(*trip_id, t.id),
            _ => panic!("expected a trip end with its trip"),
        }
    }
    for a in r.agents() {
        assert!(a.current_trip.is_none());
    }
    assert_eq!(
        r.totals(),
        Some(AgentRunnerResult { imu_measurements_count: 4, total_trips: ended as u64 })
    );
}

#[test]
fn ending_without_trips_publishes_nothing() {
    let mut r = AgentRunner::new(2, config(900, 3600));
    let out = r.end_all_trips().unwrap();
    assert_eq!(out.len(), 2);
    assert!(out.iter().all(|s| s.is_none()));
    assert_eq!(r.totals(), Some(AgentRunnerResult { imu_measurements_count: 0, total_trips: 0 }));
}

#[test]
fn empty_run_never_fails() {
    let mut r = AgentRunner::new(0, config(900, 1));
    assert_eq!(r.tick().unwrap().len(), 0);
    assert_eq!(r.end_all_trips().unwrap().len(), 0);
    assert_eq!(r.totals(), Some(AgentRunnerResult { imu_measurements_count: 0, total_trips: 0 }));
}

#[test]
fn agents_step_one_at_a_time() {
    let mut r = AgentRunner::new(3, config(900, 3600));
    let ids: Vec<u128> = r.agents().iter().map(|a| a.id).collect();
    let first = r.step_agent(1).unwrap().expect("a due measurement");
    assert_eq!(first.key, ids[1]);
    assert_eq!(first.topic, "imu");
    assert_eq!(r.agents()[0].imu_state.measurements_count, 0);
    assert_eq!(r.agents()[1].imu_state.measurements_count, 1);
    assert_eq!(r.agents()[2].imu_state.measurements_count, 0);
    assert!(r.end_agent_trip(0).unwrap().is_none());
    assert_eq!(r.totals(), Some(AgentRunnerResult { imu_measurements_count: 1, total_trips: 0 }));
}

#[test]
fn second_ending_changes_nothing() {
    let mut r = AgentRunner::new(3, config(900, 0));
    r.tick().unwrap();
    r.tick().unwrap();
    r.end_all_trips().unwrap();
    let before = r.totals();
    let out = r.end_all_trips().unwrap();
    assert!(out.iter().all(|s| s.is_none()));
    assert_eq!(r.totals(), before);
}
