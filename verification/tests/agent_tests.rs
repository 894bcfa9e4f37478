use benchmarking::agent::{get_timestamp_ms, timestamp_from_millis, Agent, IMUState, Trip};
use benchmarking::agent_runner::SimulationConfig;
use benchmarking::events::{junk_meta_of_size, Event, Meta};
use std::time::Instant;

fn config() -> SimulationConfig {
    SimulationConfig {
        junk_data_size: 4,
        imu_topic: String::from("driver-imu-data"),
        imu_delta_ms: 1000,
        trips_topic: String::from("trips"),
        first_trip_delay_s: 1,
        trip_delay_min_s: 1,
        trip_delay_max_s: 2,
        trip_min_length_s: 1,
        trip_max_length_s: 2,
    }
}

fn is_padding(meta: &Meta, n: usize) -> bool {
    meta.len() == 1 && meta.get("nonsense") == Some(&serde_json::Value::String("M".repeat(n)))
}

fn uuid_v4_bits(id: u128) -> bool {
    (id >> 76) & 0xf == 4 && (id >> 62) & 0x3 == 2
}

#[test]
fn padding_has_requested_size() {
    assert!(is_padding(&junk_meta_of_size(3), 3));
    assert!(is_padding(&junk_meta_of_size(0), 0));
    assert!(is_padding(&junk_meta_of_size(100), 100));
}

#[test]
fn timestamp_is_after_2020() {
    assert!(get_timestamp_ms().unwrap() > 1_577_836_800_000);
}

#[test]
fn timestamps_cut_to_64_bits() {
    assert_eq!(timestamp_from_millis(Some(5)), Some(5));
    assert_eq!(timestamp_from_millis(None), None);
    assert_eq!(timestamp_from_millis(Some((1u128 << 64) + 7)), Some(7));
    assert_eq!(timestamp_from_millis(Some(u64::MAX as u128)), Some(u64::MAX));
}

#[test]
fn from_draws_sets_schedule() {
    let a = Agent::from_draws(config(), 7, 2, 5, Instant::now());
    assert_eq!(a.id, 7);
    assert_eq!(a.imu_state.measurements_count, 0);
    assert_eq!(a.imu_state.next_action_time, 2000);
    assert_eq!(a.trip_start_at, 5000);
    assert!(a.current_trip.is_none());
    assert_eq!(a.trip_count, 0);
}

#[test]
fn from_draws_saturates_far_offsets() {
    let a = Agent::from_draws(config(), 1, u64::MAX / 10, 0, Instant::now());
    assert_eq!(a.imu_state.next_action_time, u64::MAX);
    assert_eq!(a.trip_start_at, 0);
}

#[test]
fn new_agent_within_bounds() {
    let mut cfg = config();
    cfg.imu_delta_ms = 5500;
    cfg.first_trip_delay_s = 3;
    for _ in 0..50 {
        let a = Agent::new(cfg.clone());
        assert_eq!(a.imu_state.measurements_count, 0);
        assert!(a.imu_state.next_action_time <= 5000);
        assert_eq!(a.imu_state.next_action_time % 1000, 0);
        assert!(a.trip_start_at <= 3000);
        assert_eq!(a.trip_start_at % 1000, 0);
        assert!(a.current_trip.is_none());
        assert_eq!(a.trip_count, 0);
        assert!(uuid_v4_bits(a.id));
        assert_eq!(a.config.imu_topic, "driver-imu-data");
    }
}

#[test]
fn new_agents_draw_their_offsets() {
    let mut cfg = config();
    cfg.imu_delta_ms = 1_000_000;
    cfg.first_trip_delay_s = 1000;
    let agents: Vec<Agent> = (0..50).map(|_| Agent::new(cfg.clone())).collect();
    assert!(agents.iter().any(|a| a.trip_start_at > 0));
    assert!(agents.iter().any(|a| a.imu_state.next_action_time > 0));
    assert!(agents.iter().any(|a| a.trip_start_at != agents[0].trip_start_at));
}

#[test]
fn new_agents_get_distinct_ids() {
    let a = Agent::new(config());
    let b = Agent::new(config());
    assert_ne!(a.id, b.id);
}

#[test]
fn due_measurement_is_published() {
    let mut a = Agent::from_draws(config(), 7, 0, 5, Instant::now());
    let e = a.next_at(10, 1234, 0, 0);
    match e {
        Some(Event::IMUMeasurement { driver_id, occurred_at_ms, meta }) => {
            assert_eq!(driver_id, 7);
            assert_eq!(occurred_at_ms, 1234);
            assert!(is_padding(&meta, 4));
        }
        _ => panic!("expected a measurement"),
    }
    assert_eq!(a.imu_state.measurements_count, 1);
    assert_eq!(a.imu_state.next_action_time, 1010);
    assert!(a.current_trip.is_none());
}

#[test]
fn measurement_comes_before_a_trip_end() {
    let mut a = Agent::from_draws(config(), 7, 0, 0, Instant::now());
    a.current_trip = Some(Trip { id: 3, imu_count: 4, end_time: 5 });
    let e = a.next_at(20, 1, 0, 0);
    assert!(matches!(e, Some(Event::IMUMeasurement { .. })));
    let t = a.current_trip.unwrap();
    assert_eq!((t.id, t.imu_count, t.end_time), (3, 5, 5));
    assert_eq!(a.trip_count, 0);
}

#[test]
fn trip_starts_once_start_time_reached() {
    let mut a = Agent::from_draws(config(), 7, 10, 5, Instant::now());
    let e = a.next_at(5000, 77, 3, 99);
    match e {
        Some(Event::Trip(benchmarking::events::Trip::Start { trip_id, driver_id, occurred_at_ms, meta })) => {
            assert_eq!(trip_id, 99);
            assert_eq!(driver_id, 7);
            assert_eq!(occurred_at_ms, 77);
            assert!(is_padding(&meta, 4));
        }
        _ => panic!("expected a trip start"),
    }
    let t = a.current_trip.unwrap();
    assert_eq!((t.id, t.imu_count, t.end_time), (99, 0, 8000));
}

#[test]
fn no_trip_before_start_time() {
    let mut a = Agent::from_draws(config(), 7, 10, 5, Instant::now());
    let e = a.next_at(4999, 77, 3, 99);
    assert!(e.is_none());
    assert!(a.current_trip.is_none());
    assert_eq!(a.imu_state.measurements_count, 0);
    assert_eq!(a.trip_start_at, 5000);
    let e = a.next_at(6000, 78, 3, 99);
    assert!(matches!(e, Some(Event::Trip(benchmarking::events::Trip::Start { trip_id: 99, .. }))));
}

#[test]
fn trip_under_way_is_idle() {
    let mut a = Agent::from_draws(config(), 7, 10, 5, Instant::now());
    a.current_trip = Some(Trip { id: 3, imu_count: 0, end_time: 9000 });
    assert!(a.next_at(4000, 1, 1, 1).is_none());
    assert_eq!(a.current_trip.unwrap().end_time, 9000);
}

#[test]
fn trip_ends_when_over() {
    let mut a = Agent::from_draws(config(), 7, 10, 5, Instant::now());
    a.current_trip = Some(Trip { id: 3, imu_count: 6, end_time: 9000 });
    a.trip_count = 2;
    let e = a.next_at(9000, 42, 2, 0);
    match e {
        Some(Event::Trip(benchmarking::events::Trip::End { trip_id, driver_id, occurred_at_ms, meta })) => {
            assert_eq!(trip_id, 3);
            assert_eq!(driver_id, 7);
            assert_eq!(occurred_at_ms, 42);
            assert!(is_padding(&meta, 4));
        }
        _ => panic!("expected a trip end"),
    }
    assert!(a.current_trip.is_none());
    assert_eq!(a.trip_count, 3);
    assert_eq!(a.trip_start_at, 11000);
}

#[test]
fn end_trip_at_schedules_next_start() {
    let mut a = Agent::from_draws(config(), 7, 10, 5, Instant::now());
    a.current_trip = Some(Trip { id: 8, imu_count: 0, end_time: 1 });
    let e = a.end_trip_at(500, 9, 4);
    assert!(matches!(e, Event::Trip(benchmarking::events::Trip::End { trip_id: 8, .. })));
    assert_eq!(a.trip_start_at, 4500);
    assert_eq!(a.trip_count, 1);
}

#[test]
fn end_trip_pause_within_range() {
    let mut a = Agent::new(config());
    a.current_trip = Some(Trip { id: 8, imu_count: 0, end_time: 1 });
    let e = a.end_trip().unwrap();
    assert!(matches!(e, Event::Trip(benchmarking::events::Trip::End { trip_id: 8, .. })));
    assert!(a.current_trip.is_none());
    assert_eq!(a.trip_count, 1);
    assert!(a.trip_start_at >= 1000);
    assert!(a.trip_start_at <= 2000 + 60_000);
}

#[test]
fn times_saturate() {
    let mut a = Agent::from_draws(config(), 7, 0, 0, Instant::now());
    a.config.imu_delta_ms = u64::MAX;
    a.next_at(5, 0, 0, 0);
    assert_eq!(a.imu_state.next_action_time, u64::MAX);
    let mut b = Agent::from_draws(config(), 7, u64::MAX / 1000 + 1, 0, Instant::now());
    b.next_at(u64::MAX - 1, 0, u64::MAX, 5);
    assert_eq!(b.current_trip.unwrap().end_time, u64::MAX);
}

#[test]
fn next_follows_the_clock() {
    let mut cfg = config();
    cfg.imu_delta_ms = 600_000;
    cfg.trip_min_length_s = 600;
    cfg.trip_max_length_s = 600;
    let origin = Instant::now();
    let mut a = Agent::from_draws(cfg, 11, 0, 0, origin);
    assert_eq!(a.clock_origin, origin);
    assert!(a.is_steppable());
    let first = a.next().unwrap();
    assert!(matches!(first, Some(Event::IMUMeasurement { driver_id: 11, .. })));
    assert_eq!(a.imu_state.measurements_count, 1);
    let second = a.next().unwrap();
    match second {
        Some(Event::Trip(benchmarking::events::Trip::Start { trip_id, driver_id: 11, .. })) => {
            assert!(uuid_v4_bits(trip_id));
            assert_eq!(a.current_trip.unwrap().id, trip_id);
        }
        _ => panic!("expected a trip start"),
    }
    assert!(a.next().unwrap().is_none());
    assert_eq!(a.imu_state.measurements_count, 1);
    assert_eq!(a.clock_origin, origin);
}

#[test]
fn steppability() {
    let mut a = Agent::from_draws(config(), 1, 1, 1, Instant::now());
    assert!(a.is_steppable());
    a.imu_state.measurements_count = u64::MAX;
    assert!(!a.is_steppable());
    a.imu_state.measurements_count = 0;
    a.config.trip_min_length_s = 3;
    a.config.trip_max_length_s = 2;
    assert!(a.is_steppable());
    a.trip_start_at = 0;
    assert!(!a.is_steppable());
    a.imu_state.next_action_time = 0;
    assert!(a.is_steppable());
    a.current_trip = Some(Trip { id: 1, imu_count: 0, end_time: 10 });
    a.imu_state.next_action_time = 20;
    a.trip_count = u64::MAX;
    assert!(!a.is_steppable());
    a.imu_state.next_action_time = 10;
    assert!(a.is_steppable());
    a.current_trip = Some(Trip { id: 1, imu_count: u64::MAX, end_time: 10 });
    assert!(!a.is_steppable());
}

#[test]
fn imu_state_is_copy() {
    let s = IMUState { measurements_count: 1, next_action_time: 2 };
    let t = s;
    assert_eq!(s.measurements_count, t.measurements_count);
}

#[test]
fn history_counts_match_events() {
    let mut a = Agent::from_draws(config(), 5, 0, 0, Instant::now());
    let mut imu = 0;
    let mut starts = 0;
    let mut ends = 0;
    let mut since_start = 0;
    for now in (0..20_000u64).step_by(250) {
        if let Some(e) = a.next_at(now, now, 1, now as u128 + 1) {
            match e {
                Event::IMUMeasurement { .. } => {
                    imu += 1;
                    since_start += 1;
                }
                Event::Trip(benchmarking::events::Trip::Start { .. }) => {
                    starts += 1;
                    since_start = 0;
                }
                Event::Trip(benchmarking::events::Trip::End { .. }) => ends += 1,
            }
        }
        assert_eq!(a.imu_state.measurements_count, imu);
        assert_eq!(a.trip_count, ends);
        assert_eq!(starts, ends + a.current_trip.is_some() as u64);
        if let Some(t) = a.current_trip {
            assert_eq!(t.imu_count, since_start);
        }
    }
    assert!(starts > 2 && imu > 10);
}
