//! What holds of the library across its operations.

use vstd::prelude::*;

use crate::agent::{
    timestamp_of, admissible, decision, fresh, later, measured, secs_to_ms, step, step_defined, step_ok, steppable, stepped,
    AgentView, Decision,
};
use crate::agent_runner::{
    event_topic, imu_total, results_sum, runner_count, share_of, trip_closed, trip_total, AgentRunnerResult, ConfigView, Outgoing,
};
use crate::events::{EventView, TripView};

verus! {

/// A step never changes who the agent is or how it is configured.
pub proof fn lemma_step_keeps_identity(a: AgentView, now: u64, wall: u64, draw: u64, trip_id: u128)
    ensures
        step(a, now, wall, draw, trip_id).0.id == a.id,
        step(a, now, wall, draw, trip_id).0.config == a.config,
{
}

/// Every event names the agent that emitted it, carries the wall-clock time
/// stamp of the step and the agent's padding metadata.
pub proof fn lemma_events_name_their_agent(a: AgentView, now: u64, wall: u64, draw: u64, trip_id: u128)
    ensures
        step(a, now, wall, draw, trip_id).1 matches Some(e) ==> e.driver() == a.id && e.occurred_at() == wall,
{
}

/// The measurement count grows by one exactly when a measurement is
/// published, and stays put otherwise.
pub proof fn lemma_measurements_counted(a: AgentView, now: u64, wall: u64, draw: u64, trip_id: u128)
    requires
        step_defined(a, now),
    ensures
        ({
            let (b, e) = step(a, now, wall, draw, trip_id);
            b.imu_state.measurements_count == a.imu_state.measurements_count + if e matches Some(
                EventView::IMUMeasurement { .. },
            ) {
                1int
            } else {
                0int
            }
        }),
{
}

/// The trip count grows by one exactly when a trip end is published, and
/// stays put otherwise.
pub proof fn lemma_trips_counted(a: AgentView, now: u64, wall: u64, draw: u64, trip_id: u128)
    requires
        step_defined(a, now),
    ensures
        ({
            let (b, e) = step(a, now, wall, draw, trip_id);
            b.trip_count == a.trip_count + if e matches Some(EventView::Trip(TripView::End { .. })) {
                1int
            } else {
                0int
            }
        }),
{
}

/// An agent is on at most one trip: a trip starts only when none is under
/// way, and a trip end closes the trip that was under way, under its id.
pub proof fn lemma_one_trip_at_a_time(a: AgentView, now: u64, wall: u64, draw: u64, trip_id: u128)
    ensures
        ({
            let (b, e) = step(a, now, wall, draw, trip_id);
            &&& e matches Some(EventView::Trip(TripView::Start { trip_id: id, .. })) ==> {
                &&& a.current_trip is None
                &&& b.current_trip matches Some(t) && t.id == id && t.imu_count == 0
            }
            &&& e matches Some(EventView::Trip(TripView::End { trip_id: id, .. })) ==> {
                &&& a.current_trip matches Some(t) && t.id == id
                &&& b.current_trip is None
            }
            &&& (a.current_trip is Some && b.current_trip is Some) ==> b.current_trip->0.id
                == a.current_trip->0.id
        }),
{
}

/// During a trip, the trip's measurement count and the agent's grow
/// together.
pub proof fn lemma_trip_counts_measurements(a: AgentView, now: u64, wall: u64, draw: u64, trip_id: u128)
    requires
        step_defined(a, now),
    ensures
        ({
            let b = step(a, now, wall, draw, trip_id).0;
            (a.current_trip is Some && b.current_trip is Some) ==> b.current_trip->0.imu_count
                - a.current_trip->0.imu_count == b.imu_state.measurements_count
                - a.imu_state.measurements_count
        }),
{
}

/// A step that publishes nothing leaves the agent as it was.
pub proof fn lemma_idle_step_changes_nothing(a: AgentView, now: u64, wall: u64, draw: u64, trip_id: u128)
    ensures
        step(a, now, wall, draw, trip_id).1 is None ==> step(a, now, wall, draw, trip_id).0 == a,
{
}

/// After a measurement at `now`, the next one is due one IMU interval later,
/// and no measurement is taken before that.
pub proof fn lemma_measurement_cadence(a: AgentView, now: u64, later_now: u64)
    requires
        decision(a, now) == Decision::Measure,
        later_now < later(now, a.config.imu_delta_ms),
    ensures
        measured(a, now).imu_state.next_action_time == later(now, a.config.imu_delta_ms),
        decision(measured(a, now), later_now) != Decision::Measure,
{
}

/// A measurement is always taken once it is due, whatever else is pending.
pub proof fn lemma_due_measurement_comes_first(a: AgentView, now: u64, wall: u64, draw: u64, trip_id: u128)
    requires
        a.imu_state.next_action_time <= now,
    ensures
        step(a, now, wall, draw, trip_id).1 == Some(
            EventView::IMUMeasurement { driver_id: a.id, occurred_at_ms: wall, meta: crate::agent::meta_of(a) },
        ),
{
}

proof fn lemma_later_monotonic(t: u64, x: u64, y: u64)
    requires
        x <= y,
    ensures
        later(t, x) <= later(t, y),
{
}

proof fn lemma_secs_to_ms_monotonic(x: u64, y: u64)
    requires
        x <= y,
    ensures
        secs_to_ms(x) <= secs_to_ms(y),
{
    assert(x * 1000 <= y * 1000) by (nonlinear_arith)
        requires
            x <= y,
    ;
}

/// No trip starts before its scheduled start: while the clock has not
/// reached the trip start time, an agent without a trip stays without one,
/// its start time unchanged; once it has, and no measurement is due, the
/// trip starts.
pub proof fn lemma_no_trip_before_start(a: AgentView, now: u64, wall: u64, draw: u64, trip_id: u128)
    requires
        a.current_trip is None,
    ensures
        now < a.trip_start_at ==> {
            &&& step(a, now, wall, draw, trip_id).0.current_trip is None
            &&& step(a, now, wall, draw, trip_id).0.trip_start_at == a.trip_start_at
            &&& !(step(a, now, wall, draw, trip_id).1 matches Some(EventView::Trip(_)))
        },
        (a.trip_start_at <= now && now < a.imu_state.next_action_time) ==> step(a, now, wall, draw, trip_id).1
            matches Some(EventView::Trip(TripView::Start { .. })),
{
}

/// With admissible random draws, a new trip ends between its minimal and
/// its maximal length after it starts, and after a trip the next start lies
/// between the minimal and the maximal pause after its end.
pub proof fn lemma_trip_schedule_bounds(a: AgentView, now: u64, wall: u64, draw: u64, trip_id: u128)
    requires
        admissible(a, now, draw, trip_id),
    ensures
        ({
            let (b, e) = step(a, now, wall, draw, trip_id);
            &&& e matches Some(EventView::Trip(TripView::Start { .. })) ==> {
                &&& later(now, secs_to_ms(a.config.trip_min_length_s)) <= b.current_trip->0.end_time
                &&& b.current_trip->0.end_time <= later(now, secs_to_ms(a.config.trip_max_length_s))
            }
            &&& e matches Some(EventView::Trip(TripView::End { .. })) ==> {
                &&& later(now, secs_to_ms(a.config.trip_delay_min_s)) <= b.trip_start_at
                &&& b.trip_start_at <= later(now, secs_to_ms(a.config.trip_delay_max_s))
            }
        }),
{
    match decision(a, now) {
        Decision::StartTrip => {
            lemma_secs_to_ms_monotonic(a.config.trip_min_length_s, draw);
            lemma_secs_to_ms_monotonic(draw, a.config.trip_max_length_s);
            lemma_later_monotonic(now, secs_to_ms(a.config.trip_min_length_s), secs_to_ms(draw));
            lemma_later_monotonic(now, secs_to_ms(draw), secs_to_ms(a.config.trip_max_length_s));
        },
        Decision::EndTrip => {
            lemma_secs_to_ms_monotonic(a.config.trip_delay_min_s, draw);
            lemma_secs_to_ms_monotonic(draw, a.config.trip_delay_max_s);
            lemma_later_monotonic(now, secs_to_ms(a.config.trip_delay_min_s), secs_to_ms(draw));
            lemma_later_monotonic(now, secs_to_ms(draw), secs_to_ms(a.config.trip_delay_max_s));
        },
        _ => {},
    }
}

/// A newly created agent can take its first step whatever the clock reads,
/// provided that the configured trip lengths form a range.
pub proof fn lemma_fresh_agent_steppable(
    id: u128,
    config: ConfigView,
    imu_offset_s: u64,
    trip_offset_s: u64,
    clock_origin: std::time::Instant,
)
    requires
        config.trip_min_length_s <= config.trip_max_length_s,
    ensures
        steppable(fresh(id, config, imu_offset_s, trip_offset_s, clock_origin)),
{
    let a = fresh(id, config, imu_offset_s, trip_offset_s, clock_origin);
    assert forall|now: u64| #[trigger] step_ok(a, now) by {}
}

/// No counter of `a` is at its maximum, so no step of `a` overflows one.
pub open spec fn counters_below_max(a: AgentView) -> bool {
    &&& a.imu_state.measurements_count < u64::MAX
    &&& a.trip_count < u64::MAX
    &&& (a.current_trip matches Some(t) ==> t.imu_count < u64::MAX)
}

/// What `Agent::next` reports keeps the laws of a single step: identity,
/// counted measurements and trips, events that name their agent.
pub proof fn lemma_stepped_counts(old: AgentView, new: AgentView, e: Option<EventView>)
    requires
        steppable(old) || counters_below_max(old),
        stepped(old, new, e),
    ensures
        new.id == old.id,
        new.config == old.config,
        new.imu_state.measurements_count == old.imu_state.measurements_count + if e matches Some(
            EventView::IMUMeasurement { .. },
        ) {
            1int
        } else {
            0int
        },
        new.trip_count == old.trip_count + if e matches Some(EventView::Trip(TripView::End { .. })) {
            1int
        } else {
            0int
        },
        e matches Some(ev) ==> ev.driver() == old.id,
{
    let (now, wall, draw, trip_id) = choose|now: u64, wall: u64, draw: u64, trip_id: u128|
        #![trigger step(old, now, wall, draw, trip_id)]
        admissible(old, now, draw, trip_id) && (new, e) == step(old, now, wall, draw, trip_id);
    if steppable(old) {
        assert(step_ok(old, now));
    }
}

/// The measurements published among `events`.
pub open spec fn imu_event_count(events: Seq<Option<EventView>>) -> int
    decreases events.len(),
{
    if events.len() == 0 {
        0
    } else {
        imu_event_count(events.drop_last()) + if events.last() matches Some(EventView::IMUMeasurement { .. }) {
            1int
        } else {
            0int
        }
    }
}

/// The trip ends published among `events`.
pub open spec fn trip_end_count(events: Seq<Option<EventView>>) -> int
    decreases events.len(),
{
    if events.len() == 0 {
        0
    } else {
        trip_end_count(events.drop_last()) + if events.last() matches Some(EventView::Trip(TripView::End { .. })) {
            1int
        } else {
            0int
        }
    }
}

/// The agents among `agents` that are on a trip.
pub open spec fn agents_on_trips(agents: Seq<AgentView>) -> int
    decreases agents.len(),
{
    if agents.len() == 0 {
        0
    } else {
        agents_on_trips(agents.drop_last()) + if agents.last().current_trip is Some {
            1int
        } else {
            0int
        }
    }
}

/// A round of steps (what `AgentRunner::tick` reports) adds to the run's
/// totals exactly the measurements and trip ends that it publishes.
pub proof fn lemma_round_adds_published(old: Seq<AgentView>, new: Seq<AgentView>, events: Seq<Option<EventView>>)
    requires
        old.len() == new.len(),
        events.len() == old.len(),
        forall|i: int| 0 <= i < old.len() ==> #[trigger] steppable(old[i]),
        forall|i: int| 0 <= i < old.len() ==> #[trigger] stepped(old[i], new[i], events[i]),
    ensures
        imu_total(new) == imu_total(old) + imu_event_count(events),
        trip_total(new) == trip_total(old) + trip_end_count(events),
    decreases old.len(),
{
    if old.len() > 0 {
        let k = old.len() - 1;
        assert(steppable(old[k]));
        assert(stepped(old[k], new[k], events[k]));
        lemma_stepped_counts(old[k], new[k], events[k]);
        lemma_round_adds_published(old.drop_last(), new.drop_last(), events.drop_last());
    }
}

/// After ending all trips (what `AgentRunner::end_all_trips` reports), no
/// agent is on a trip, every agent that was on one counts one more trip, and
/// the trips published are exactly the trips that were under way.
pub proof fn lemma_all_trips_closed(c: ConfigView, old: Seq<AgentView>, new: Seq<AgentView>, out: Seq<Option<Outgoing>>)
    requires
        old.len() == new.len(),
        out.len() == old.len(),
        forall|i: int|
            0 <= i < old.len() && (#[trigger] old[i]).current_trip is Some ==> old[i].trip_count < u64::MAX,
        forall|i: int| 0 <= i < old.len() ==> #[trigger] trip_closed(c, old[i], new[i], out[i]),
    ensures
        forall|i: int| 0 <= i < new.len() ==> (#[trigger] new[i]).current_trip is None,
        trip_total(new) == trip_total(old) + agents_on_trips(old),
        imu_total(new) == imu_total(old),
    decreases old.len(),
{
    assert forall|i: int| 0 <= i < new.len() implies (#[trigger] new[i]).current_trip is None by {
        assert(trip_closed(c, old[i], new[i], out[i]));
    }
    if old.len() > 0 {
        let k = old.len() - 1;
        assert(trip_closed(c, old[k], new[k], out[k]));
        let o = old.drop_last();
        let n = new.drop_last();
        let u = out.drop_last();
        assert forall|i: int| 0 <= i < o.len() implies #[trigger] trip_closed(c, o[i], n[i], u[i]) by {
            assert(trip_closed(c, old[i], new[i], out[i]));
        }
        assert forall|i: int| 0 <= i < o.len() && (#[trigger] o[i]).current_trip is Some implies o[i].trip_count
            < u64::MAX by {
            assert(old[i] == o[i]);
        }
        lemma_all_trips_closed(c, o, n, u);
    }
}

/// Adding results is commutative.
pub proof fn lemma_results_sum_commutes(a: AgentRunnerResult, b: AgentRunnerResult)
    ensures
        results_sum(a, b) == results_sum(b, a),
{
}

/// Adding results is associative.
pub proof fn lemma_results_sum_associates(a: AgentRunnerResult, b: AgentRunnerResult, c: AgentRunnerResult)
    requires
        a.imu_measurements_count + b.imu_measurements_count + c.imu_measurements_count <= u64::MAX,
        a.total_trips + b.total_trips + c.total_trips <= u64::MAX,
    ensures
        results_sum(results_sum(a, b), c) == results_sum(a, results_sum(b, c)),
{
}

/// The empty result (`AgentRunnerResult::default`) adds nothing.
pub proof fn lemma_results_sum_identity(a: AgentRunnerResult)
    ensures
        results_sum(a, AgentRunnerResult { imu_measurements_count: 0, total_trips: 0 }) == a,
{
}

/// The agents that the first `k` tasks of `runners` run together.
pub open spec fn shares_total(num_agents: u64, runners: u64, k: int) -> int
    decreases k,
{
    if k <= 0 {
        0
    } else {
        shares_total(num_agents, runners, k - 1) + share_of(num_agents, runners, k - 1)
    }
}

proof fn lemma_shares_prefix(num_agents: u64, runners: u64, k: int)
    requires
        runners > 0,
        0 <= k <= runners,
    ensures
        shares_total(num_agents, runners, k) == k * (num_agents / runners) + if k < num_agents % runners {
            k
        } else {
            (num_agents % runners) as int
        },
    decreases k,
{
    if k > 0 {
        lemma_shares_prefix(num_agents, runners, k - 1);
        let b = (num_agents / runners) as int;
        let m = (num_agents % runners) as int;
        assert(k * b == (k - 1) * b + b) by (nonlinear_arith);
        assert(shares_total(num_agents, runners, k) == shares_total(num_agents, runners, k - 1) + share_of(
            num_agents,
            runners,
            k - 1,
        ));
        assert(share_of(num_agents, runners, k - 1) == b + if k - 1 < m {
            1int
        } else {
            0int
        });
        assert(shares_total(num_agents, runners, k - 1) == (k - 1) * b + if k - 1 < m {
            k - 1
        } else {
            m
        });
        assert(shares_total(num_agents, runners, k) == k * b + if k < m {
            k
        } else {
            m
        });
    } else {
        assert(k * (num_agents / runners) == 0) by (nonlinear_arith)
            requires
                k == 0,
        ;
    }
}

/// A run's layout runs every agent: between one and the requested number of
/// tasks, whose shares add up to the number of agents and differ by at most
/// one.
pub proof fn lemma_layout_runs_all_agents(num_agents: u64, num_green_threads: u64)
    requires
        num_green_threads > 0,
    ensures
        1 <= runner_count(num_agents, num_green_threads) <= num_green_threads,
        shares_total(num_agents, runner_count(num_agents, num_green_threads), runner_count(num_agents, num_green_threads) as int)
            == num_agents,
        forall|i: int|
            0 <= i < runner_count(num_agents, num_green_threads) ==> num_agents / runner_count(
                num_agents,
                num_green_threads,
            ) <= #[trigger] share_of(num_agents, runner_count(num_agents, num_green_threads), i) <= num_agents
                / runner_count(num_agents, num_green_threads) + 1,
{
    let r = runner_count(num_agents, num_green_threads);
    lemma_shares_prefix(num_agents, r, r as int);
    vstd::arithmetic::div_mod::lemma_fundamental_div_mod(num_agents as int, r as int);
    assert(r * (num_agents / r) == (num_agents / r) * r) by (nonlinear_arith);
}

/// The trip starts published among `events`.
pub open spec fn trip_start_count(events: Seq<Option<EventView>>) -> int
    decreases events.len(),
{
    if events.len() == 0 {
        0
    } else {
        trip_start_count(events.drop_last()) + if events.last() matches Some(
            EventView::Trip(TripView::Start { .. }),
        ) {
            1int
        } else {
            0int
        }
    }
}

/// The measurements published since the last trip start among `events`
/// (all of them, where no trip started).
pub open spec fn imu_since_last_start(events: Seq<Option<EventView>>) -> int
    decreases events.len(),
{
    if events.len() == 0 {
        0
    } else {
        match events.last() {
            Some(EventView::Trip(TripView::Start { .. })) => 0,
            Some(EventView::IMUMeasurement { .. }) => imu_since_last_start(events.drop_last()) + 1,
            _ => imu_since_last_start(events.drop_last()),
        }
    }
}

/// The identifier of the last trip started among `events`.
pub open spec fn last_started_trip(events: Seq<Option<EventView>>) -> Option<u128>
    decreases events.len(),
{
    if events.len() == 0 {
        None
    } else {
        match events.last() {
            Some(EventView::Trip(TripView::Start { trip_id, .. })) => Some(trip_id),
            _ => last_started_trip(events.drop_last()),
        }
    }
}

/// `states` and `events` record a series of `Agent::next` calls: the next
/// state and the event in between are what a step of the state before gave,
/// for some clock readings and admissible draws.
pub open spec fn is_history(states: Seq<AgentView>, events: Seq<Option<EventView>>) -> bool {
    &&& states.len() == events.len() + 1
    &&& forall|i: int| 0 <= i < events.len() ==> #[trigger] stepped(states[i], states[i + 1], events[i])
}

/// What one step reported by `Agent::next` does to the agent's trip.
proof fn lemma_stepped_trip(old: AgentView, new: AgentView, e: Option<EventView>)
    requires
        steppable(old) || counters_below_max(old),
        stepped(old, new, e),
    ensures
        e matches Some(EventView::Trip(TripView::Start { trip_id, .. })) ==> {
            &&& old.current_trip is None
            &&& new.current_trip matches Some(t) && t.id == trip_id && t.imu_count == 0
        },
        e matches Some(EventView::Trip(TripView::End { .. })) ==> old.current_trip is Some
            && new.current_trip is None,
        e matches Some(EventView::IMUMeasurement { .. }) ==> match old.current_trip {
            Some(t) => new.current_trip matches Some(u) && u.id == t.id && u.imu_count == t.imu_count + 1,
            None => new.current_trip is None,
        },
        e is None ==> new == old,
{
    let (now, wall, draw, trip_id) = choose|now: u64, wall: u64, draw: u64, trip_id: u128|
        #![trigger step(old, now, wall, draw, trip_id)]
        admissible(old, now, draw, trip_id) && (new, e) == step(old, now, wall, draw, trip_id);
    if steppable(old) {
        assert(step_ok(old, now));
    }
}

proof fn lemma_history_prefix(states: Seq<AgentView>, events: Seq<Option<EventView>>, k: int)
    requires
        is_history(states, events),
        0 <= k <= events.len(),
    ensures
        is_history(states.take(k + 1), events.take(k)),
{
    let s = states.take(k + 1);
    let e = events.take(k);
    assert forall|i: int| 0 <= i < e.len() implies #[trigger] stepped(s[i], s[i + 1], e[i]) by {
        assert(stepped(states[i], states[i + 1], events[i]));
    }
}

proof fn lemma_history_last(states: Seq<AgentView>, events: Seq<Option<EventView>>)
    requires
        is_history(states, events),
        events.len() < u64::MAX,
        states[0].imu_state.measurements_count == 0,
        states[0].trip_count == 0,
        states[0].current_trip is None,
    ensures
        ({
            let a = states.last();
            &&& a.imu_state.measurements_count <= events.len()
            &&& a.trip_count <= events.len()
            &&& a.current_trip matches Some(t) ==> t.imu_count <= a.imu_state.measurements_count
            &&& a.imu_state.measurements_count == imu_event_count(events)
            &&& a.trip_count == trip_end_count(events)
            &&& trip_start_count(events) == a.trip_count + if a.current_trip is Some {
                1int
            } else {
                0int
            }
            &&& a.current_trip matches Some(t) ==> t.imu_count == imu_since_last_start(events)
                && last_started_trip(events) == Some(t.id)
        }),
    decreases events.len(),
{
    if events.len() > 0 {
        let k = events.len() - 1;
        lemma_history_prefix(states, events, k);
        assert(states.take(k + 1)[0] == states[0]);
        lemma_history_last(states.take(k + 1), events.take(k));
        assert(events.take(k) =~= events.drop_last());
        assert(states.take(k + 1).last() == states[k]);
        assert(counters_below_max(states[k]));
        assert(stepped(states[k], states[k + 1], events[k]));
        lemma_stepped_counts(states[k], states[k + 1], events[k]);
        lemma_stepped_trip(states[k], states[k + 1], events[k]);
    }
}

/// Over any series of `Agent::next` calls from a newly created agent (fewer
/// than `u64::MAX` of them, so that no counter can overflow), after every
/// call: the measurement count is the number of measurements published, the
/// trip count the number of trip ends published, the trip starts published
/// are the trip ends plus the trip under way; and the trip under way is the
/// one started last, its measurement count the number of measurements
/// published since it started.
pub proof fn lemma_history_accounts_for_events(states: Seq<AgentView>, events: Seq<Option<EventView>>)
    requires
        is_history(states, events),
        events.len() < u64::MAX,
        states[0].imu_state.measurements_count == 0,
        states[0].trip_count == 0,
        states[0].current_trip is None,
    ensures
        forall|k: int|
            0 <= k < states.len() ==> {
                &&& (#[trigger] states[k]).imu_state.measurements_count == imu_event_count(events.take(k))
                &&& states[k].trip_count == trip_end_count(events.take(k))
                &&& trip_start_count(events.take(k)) == states[k].trip_count + if states[k].current_trip is Some {
                    1int
                } else {
                    0int
                }
                &&& states[k].current_trip matches Some(t) ==> t.imu_count == imu_since_last_start(events.take(k))
                    && last_started_trip(events.take(k)) == Some(t.id)
            },
{
    assert forall|k: int| 0 <= k < states.len() implies {
        &&& (#[trigger] states[k]).imu_state.measurements_count == imu_event_count(events.take(k))
        &&& states[k].trip_count == trip_end_count(events.take(k))
        &&& trip_start_count(events.take(k)) == states[k].trip_count + if states[k].current_trip is Some {
            1int
        } else {
            0int
        }
        &&& states[k].current_trip matches Some(t) ==> t.imu_count == imu_since_last_start(events.take(k))
            && last_started_trip(events.take(k)) == Some(t.id)
    } by {
        lemma_history_prefix(states, events, k);
        assert(states.take(k + 1)[0] == states[0]);
        assert(states.take(k + 1).last() == states[k]);
        lemma_history_last(states.take(k + 1), events.take(k));
    }
}

/// `states` and `events` record a series of steps at monotonic times
/// `nows`, with time stamps `walls`, draws `draws` and trip identifiers
/// `trip_ids`.
pub open spec fn is_timed_history(
    states: Seq<AgentView>,
    events: Seq<Option<EventView>>,
    nows: Seq<u64>,
    walls: Seq<u64>,
    draws: Seq<u64>,
    trip_ids: Seq<u128>,
) -> bool {
    &&& states.len() == events.len() + 1
    &&& nows.len() == events.len()
    &&& walls.len() == events.len()
    &&& draws.len() == events.len()
    &&& trip_ids.len() == events.len()
    &&& forall|i: int|
        0 <= i < events.len() ==> (states[i + 1], events[i]) == #[trigger] step(
            states[i],
            nows[i],
            walls[i],
            draws[i],
            trip_ids[i],
        )
}

proof fn lemma_due_time_kept(
    states: Seq<AgentView>,
    events: Seq<Option<EventView>>,
    nows: Seq<u64>,
    walls: Seq<u64>,
    draws: Seq<u64>,
    trip_ids: Seq<u128>,
    i: int,
    k: int,
)
    requires
        is_timed_history(states, events, nows, walls, draws, trip_ids),
        0 <= i < k <= events.len(),
        events[i] matches Some(EventView::IMUMeasurement { .. }),
        forall|m: int| i < m < k ==> !(#[trigger] events[m] matches Some(EventView::IMUMeasurement { .. })),
    ensures
        states[k].imu_state.next_action_time == later(nows[i], states[i].config.imu_delta_ms),
    decreases k - i,
{
    assert(step(states[i], nows[i], walls[i], draws[i], trip_ids[i]) == (states[i + 1], events[i]));
    if k > i + 1 {
        lemma_due_time_kept(states, events, nows, walls, draws, trip_ids, i, k - 1);
        let m = k - 1;
        assert(step(states[m], nows[m], walls[m], draws[m], trip_ids[m]) == (states[m + 1], events[m]));
        assert(!(events[m] matches Some(EventView::IMUMeasurement { .. })));
    }
}

/// Two measurements with none in between are at least one IMU interval
/// apart on the monotonic clock (a time beyond `u64::MAX` milliseconds reads
/// as `u64::MAX`).
pub proof fn lemma_measurements_spaced(
    states: Seq<AgentView>,
    events: Seq<Option<EventView>>,
    nows: Seq<u64>,
    walls: Seq<u64>,
    draws: Seq<u64>,
    trip_ids: Seq<u128>,
    i: int,
    j: int,
)
    requires
        is_timed_history(states, events, nows, walls, draws, trip_ids),
        0 <= i < j < events.len(),
        events[i] matches Some(EventView::IMUMeasurement { .. }),
        events[j] matches Some(EventView::IMUMeasurement { .. }),
        forall|m: int| i < m < j ==> !(#[trigger] events[m] matches Some(EventView::IMUMeasurement { .. })),
    ensures
        nows[j] >= later(nows[i], states[i].config.imu_delta_ms),
{
    lemma_due_time_kept(states, events, nows, walls, draws, trip_ids, i, j);
    assert(step(states[j], nows[j], walls[j], draws[j], trip_ids[j]) == (states[j + 1], events[j]));
}

/// Clock readings, a draw and a trip identifier under which `old` steps to
/// `new`, publishing `e`.
pub open spec fn readings_of(old: AgentView, new: AgentView, e: Option<EventView>) -> (u64, u64, u64, u128) {
    choose|now: u64, wall: u64, draw: u64, trip_id: u128|
        #![trigger step(old, now, wall, draw, trip_id)]
        admissible(old, now, draw, trip_id) && (new, e) == step(old, now, wall, draw, trip_id)
}

/// Every series of `Agent::next` calls took its steps at some clock readings
/// with admissible draws; so the laws over timed series (such as
/// `lemma_measurements_spaced`) hold of it.
pub proof fn lemma_history_has_readings(states: Seq<AgentView>, events: Seq<Option<EventView>>)
    requires
        is_history(states, events),
    ensures
        exists|nows: Seq<u64>, walls: Seq<u64>, draws: Seq<u64>, trip_ids: Seq<u128>|
            is_timed_history(states, events, nows, walls, draws, trip_ids),
{
    let n = events.len() as nat;
    let nows = Seq::new(n, |i: int| readings_of(states[i], states[i + 1], events[i]).0);
    let walls = Seq::new(n, |i: int| readings_of(states[i], states[i + 1], events[i]).1);
    let draws = Seq::new(n, |i: int| readings_of(states[i], states[i + 1], events[i]).2);
    let trip_ids = Seq::new(n, |i: int| readings_of(states[i], states[i + 1], events[i]).3);
    assert forall|i: int| 0 <= i < events.len() implies (states[i + 1], events[i]) == #[trigger] step(
        states[i],
        nows[i],
        walls[i],
        draws[i],
        trip_ids[i],
    ) by {
        assert(stepped(states[i], states[i + 1], events[i]));
    }
    assert(is_timed_history(states, events, nows, walls, draws, trip_ids));
}

/// Of two wall-clock readings before 2^64 milliseconds after the epoch, the
/// later one gives the later (or the same) time stamp; a reading before the
/// epoch gives none.
pub proof fn lemma_timestamps_ordered(earlier_ms: u128, later_ms: u128)
    requires
        earlier_ms <= later_ms < 0x1_0000_0000_0000_0000u128,
    ensures
        timestamp_of(Some(earlier_ms)) == Some(earlier_ms as u64),
        timestamp_of(Some(later_ms)) == Some(later_ms as u64),
        earlier_ms as u64 <= later_ms as u64,
        timestamp_of(None) is None,
{
}

/// Every trip boundary, start or end, is published on the trips topic, and
/// every IMU measurement on the IMU topic.
pub proof fn lemma_events_routed_by_kind(c: ConfigView, e: EventView)
    ensures
        e is Trip ==> event_topic(c, e) == c.trips_topic,
        e matches EventView::Trip(TripView::Start { .. }) ==> event_topic(c, e) == c.trips_topic,
        e matches EventView::Trip(TripView::End { .. }) ==> event_topic(c, e) == c.trips_topic,
        e is IMUMeasurement ==> event_topic(c, e) == c.imu_topic,
{
}

/// With fewer agents than requested tasks, one task runs them all; with at
/// least as many, every requested task is used and each runs at least one
/// agent.
pub proof fn lemma_layout_task_count(num_agents: u64, num_green_threads: u64)
    requires
        num_green_threads > 0,
    ensures
        num_agents < num_green_threads ==> runner_count(num_agents, num_green_threads) == 1 && num_agents
            / runner_count(num_agents, num_green_threads) == num_agents,
        num_agents >= num_green_threads ==> runner_count(num_agents, num_green_threads) == num_green_threads,
        num_agents >= 1 ==> num_agents / runner_count(num_agents, num_green_threads) >= 1,
{
    let r = runner_count(num_agents, num_green_threads) as int;
    let n = num_agents as int;
    if n >= 1 {
        assert(n / r >= 1) by (nonlinear_arith)
            requires
                1 <= r <= n || r == 1,
                n >= 1,
        {
            if r <= n {
                vstd::arithmetic::div_mod::lemma_div_non_zero(n, r);
            }
        }
    }
}

} // verus!
