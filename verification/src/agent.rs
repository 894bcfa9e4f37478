//! A simulated driver: it takes IMU measurements at a fixed cadence and goes
//! on trips of random length separated by random pauses. All its times are
//! milliseconds on the monotonic clock, counted from the agent's creation.

use std::time::Instant;
use vstd::prelude::*;

use crate::agent_runner::{ConfigView, SimulationConfig};
use crate::clock::{duration_as_millis, elapsed_ms, instant_now, since_unix_epoch, system_time_now};
use crate::entropy::{is_uuid_v4, new_uuid_v4, random_in_range};
use crate::events;
use crate::events::{junk_meta, junk_meta_of_size, meta_entries, opt_event_view, Event, EventView, Meta, MetaView, TripView};

verus! {

/// The wall clock reads before the Unix epoch: the time stamp of an event
/// cannot be taken.
#[derive(Debug, Clone, Copy, PartialEq, Eq, Structural)]
pub struct TimeWentBackwards;

/// The time stamp for a wall-clock reading of `since_epoch_ms` whole
/// milliseconds since the Unix epoch (`None`: a reading before the epoch):
/// the count cut to its low 64 bits.
pub open spec fn timestamp_of(since_epoch_ms: Option<u128>) -> Option<u64> {
    match since_epoch_ms {
        Some(ms) => Some((ms % 0x1_0000_0000_0000_0000u128) as u64),
        None => None,
    }
}

/// The time stamp for a reading of `since_epoch_ms` whole milliseconds since
/// the Unix epoch, or `None` for a reading before it.
pub fn timestamp_from_millis(since_epoch_ms: Option<u128>) -> (ts: Option<u64>)
    ensures
        ts == timestamp_of(since_epoch_ms),
{
    match since_epoch_ms {
        Some(ms) => {
            let t = ms as u64;
            assert(t == (ms % 0x1_0000_0000_0000_0000u128) as u64) by (bit_vector)
                requires
                    t == ms as u64,
            ;
            Some(t)
        },
        None => None,
    }
}

/// Milliseconds since the Unix epoch on the wall clock, cut to 64 bits; the
/// time stamp that events carry. `None` where the clock reads before the
/// epoch. The result is `timestamp_from_millis` of the clock's reading; the
/// reading depends on the clock, so nothing is promised of the result.
pub fn get_timestamp_ms() -> Option<u64> {
    let reading = match since_unix_epoch(&system_time_now()) {
        Some(d) => Some(duration_as_millis(&d)),
        None => None,
    };
    timestamp_from_millis(reading)
}

/// `s` seconds in milliseconds; a time beyond `u64::MAX` reads as `u64::MAX`.
pub open spec fn secs_to_ms(s: u64) -> u64 {
    if s * 1000 > u64::MAX {
        u64::MAX
    } else {
        (s * 1000) as u64
    }
}

/// The time `d` milliseconds after `t`; a time beyond `u64::MAX` reads as
/// `u64::MAX`, which no clock reaches.
pub open spec fn later(t: u64, d: u64) -> u64 {
    if t + d > u64::MAX {
        u64::MAX
    } else {
        (t + d) as u64
    }
}

pub(crate) fn ms_of_secs(s: u64) -> (ms: u64)
    ensures
        ms == secs_to_ms(s),
{
    match s.checked_mul(1000) {
        Some(ms) => ms,
        None => u64::MAX,
    }
}

fn after(t: u64, d: u64) -> (r: u64)
    ensures
        r == later(t, d),
{
    t.saturating_add(d)
}

/// The IMU side of an agent: how many measurements it took, and when the
/// next one is due.
#[derive(Clone, Copy, Debug)]
pub struct IMUState {
    pub measurements_count: u64,
    pub next_action_time: u64,
}

/// The trip an agent is on: its identifier, the measurements taken during it,
/// and when it ends.
#[derive(Clone, Copy, Debug)]
pub struct Trip {
    pub id: u128,
    pub imu_count: u64,
    pub end_time: u64,
}

/// A simulated driver.
pub struct Agent {
    pub id: u128,
    pub config: SimulationConfig,
    pub imu_state: IMUState,
    /// When the next trip should start; with no trip under way, a trip starts
    /// once the clock reaches it.
    pub trip_start_at: u64,
    pub current_trip: Option<Trip>,
    pub trip_count: u64,
    /// The monotonic clock reading that the agent's times count from.
    pub clock_origin: Instant,
}

/// What an agent is: its state, and the clock reading that its times count
/// from.
pub struct AgentView {
    pub id: u128,
    pub config: ConfigView,
    pub imu_state: IMUState,
    pub trip_start_at: u64,
    pub current_trip: Option<Trip>,
    pub trip_count: u64,
    pub clock_origin: Instant,
}

impl View for Agent {
    type V = AgentView;

    open spec fn view(&self) -> AgentView {
        AgentView {
            id: self.id,
            config: self.config@,
            imu_state: self.imu_state,
            trip_start_at: self.trip_start_at,
            current_trip: self.current_trip,
            trip_count: self.trip_count,
            clock_origin: self.clock_origin,
        }
    }
}

/// What an agent does when asked for its next event at a given time.
#[derive(PartialEq, Eq, Structural, Clone, Copy, Debug)]
pub enum Decision {
    /// An IMU measurement is due.
    Measure,
    /// The current trip is over.
    EndTrip,
    /// No trip is under way and the trip start time has come.
    StartTrip,
    /// Nothing to publish.
    Idle,
}

/// The decision at time `now`: a due measurement comes first; otherwise a
/// trip that is over ends, or, with no trip under way, a trip starts once
/// `now` has reached the trip start time.
pub open spec fn decision(a: AgentView, now: u64) -> Decision {
    if a.imu_state.next_action_time <= now {
        Decision::Measure
    } else {
        match a.current_trip {
            Some(t) => if t.end_time <= now {
                Decision::EndTrip
            } else {
                Decision::Idle
            },
            None => if a.trip_start_at <= now {
                Decision::StartTrip
            } else {
                Decision::Idle
            },
        }
    }
}

/// The metadata of every event of `a`.
pub open spec fn meta_of(a: AgentView) -> MetaView {
    junk_meta(a.config.junk_data_size as nat)
}

/// The IMU event that `a` publishes at wall time `wall`.
pub open spec fn imu_event(a: AgentView, wall: u64) -> EventView {
    EventView::IMUMeasurement { driver_id: a.id, occurred_at_ms: wall, meta: meta_of(a) }
}

/// `a` after a measurement at `now`: one more measurement, the next one due
/// an IMU interval later, and one more measurement on the current trip.
pub open spec fn measured(a: AgentView, now: u64) -> AgentView {
    AgentView {
        imu_state: IMUState {
            measurements_count: (a.imu_state.measurements_count + 1) as u64,
            next_action_time: later(now, a.config.imu_delta_ms),
        },
        current_trip: trip_measured(a.current_trip),
        ..a
    }
}

/// The current trip after one more measurement was taken on it.
pub open spec fn trip_measured(trip: Option<Trip>) -> Option<Trip> {
    match trip {
        Some(t) => Some(Trip { imu_count: (t.imu_count + 1) as u64, ..t }),
        None => None,
    }
}

/// `a` after starting trip `trip_id` at `now`, `length_s` seconds long.
pub open spec fn trip_started(a: AgentView, now: u64, length_s: u64, trip_id: u128) -> AgentView {
    AgentView {
        current_trip: Some(Trip { id: trip_id, imu_count: 0, end_time: later(now, secs_to_ms(length_s)) }),
        ..a
    }
}

/// The trip start event of `a` for trip `trip_id` at wall time `wall`.
pub open spec fn start_event(a: AgentView, wall: u64, trip_id: u128) -> EventView {
    EventView::Trip(TripView::Start { trip_id, driver_id: a.id, occurred_at_ms: wall, meta: meta_of(a) })
}

/// `a` after ending its trip at `now`, with the next trip start `delay_s`
/// seconds later.
pub open spec fn trip_ended(a: AgentView, now: u64, delay_s: u64) -> AgentView {
    AgentView {
        trip_start_at: later(now, secs_to_ms(delay_s)),
        current_trip: None,
        trip_count: (a.trip_count + 1) as u64,
        ..a
    }
}

/// The identifier of the trip that `a` is on.
pub open spec fn current_trip_id(a: AgentView) -> u128 {
    match a.current_trip {
        Some(t) => t.id,
        None => 0,
    }
}

/// The trip end event of `a` at wall time `wall`.
pub open spec fn end_event(a: AgentView, wall: u64) -> EventView {
    EventView::Trip(TripView::End { trip_id: current_trip_id(a), driver_id: a.id, occurred_at_ms: wall, meta: meta_of(a) })
}

/// One step of `a` at monotonic time `now`: its successor and what it
/// publishes. `wall` is the wall-clock time stamp, `draw` the random number of
/// seconds (a trip's length or the pause after it) and `trip_id` the
/// identifier of a trip that starts.
pub open spec fn step(a: AgentView, now: u64, wall: u64, draw: u64, trip_id: u128) -> (AgentView, Option<EventView>) {
    match decision(a, now) {
        Decision::Measure => (measured(a, now), Some(imu_event(a, wall))),
        Decision::EndTrip => (trip_ended(a, now, draw), Some(end_event(a, wall))),
        Decision::StartTrip => (trip_started(a, now, draw, trip_id), Some(start_event(a, wall, trip_id))),
        Decision::Idle => (a, None),
    }
}

/// The step at `now` overflows no counter.
pub open spec fn step_defined(a: AgentView, now: u64) -> bool {
    match decision(a, now) {
        Decision::Measure => {
            &&& a.imu_state.measurements_count < u64::MAX
            &&& (a.current_trip matches Some(t) ==> t.imu_count < u64::MAX)
        },
        Decision::EndTrip => a.trip_count < u64::MAX,
        _ => true,
    }
}

/// The range that the step at `now` draws from is not empty.
pub open spec fn draw_range_nonempty(a: AgentView, now: u64) -> bool {
    match decision(a, now) {
        Decision::EndTrip => a.config.trip_delay_min_s <= a.config.trip_delay_max_s,
        Decision::StartTrip => a.config.trip_min_length_s <= a.config.trip_max_length_s,
        _ => true,
    }
}

/// The step at `now` can be taken: it neither overflows a counter
/// nor draws from an empty range there.
pub open spec fn step_ok(a: AgentView, now: u64) -> bool {
    step_defined(a, now) && draw_range_nonempty(a, now)
}

/// `a` can take its next step whatever the clock reads.
pub open spec fn steppable(a: AgentView) -> bool {
    forall|now: u64| #[trigger] step_ok(a, now)
}

/// `draw` and `trip_id` are what the random sources can give for the step at
/// `now`: a pause within the configured range after a trip, a length within
/// the configured range and a random UUID for a new trip.
pub open spec fn admissible(a: AgentView, now: u64, draw: u64, trip_id: u128) -> bool {
    match decision(a, now) {
        Decision::EndTrip => a.config.trip_delay_min_s <= draw <= a.config.trip_delay_max_s,
        Decision::StartTrip => {
            &&& a.config.trip_min_length_s <= draw <= a.config.trip_max_length_s
            &&& is_uuid_v4(trip_id)
        },
        _ => true,
    }
}

/// `new` and `e` are what one step of `old` gives for some clock readings and
/// some admissible random draws.
pub open spec fn stepped(old: AgentView, new: AgentView, e: Option<EventView>) -> bool {
    exists|now: u64, wall: u64, draw: u64, trip_id: u128|
        #![trigger step(old, now, wall, draw, trip_id)]
        admissible(old, now, draw, trip_id) && (new, e) == step(old, now, wall, draw, trip_id)
}

/// `new` and `e` are what ending the trip of `old` gives for some clock
/// readings and a pause within the configured range.
pub open spec fn trip_end_taken(old: AgentView, new: AgentView, e: EventView) -> bool {
    exists|now: u64, wall: u64, delay_s: u64|
        #![trigger trip_ended(old, now, delay_s), end_event(old, wall)]
        old.config.trip_delay_min_s <= delay_s <= old.config.trip_delay_max_s && new == trip_ended(old, now, delay_s)
            && e == end_event(old, wall)
}

/// An agent created at clock reading `clock_origin` with identifier `id`, its
/// first measurement due `imu_offset_s` seconds and its first trip start
/// `trip_offset_s` seconds after creation.
pub open spec fn fresh(id: u128, config: ConfigView, imu_offset_s: u64, trip_offset_s: u64, clock_origin: Instant) -> AgentView {
    AgentView {
        id,
        config,
        imu_state: IMUState { measurements_count: 0, next_action_time: secs_to_ms(imu_offset_s) },
        trip_start_at: secs_to_ms(trip_offset_s),
        current_trip: None,
        trip_count: 0,
        clock_origin,
    }
}

/// `a` is a newly created agent for `config`: a random UUID, the first
/// measurement due within the whole seconds of one IMU interval, the first
/// trip start within the first-trip delay.
pub open spec fn created(a: AgentView, config: ConfigView) -> bool {
    exists|id: u128, imu_offset_s: u64, trip_offset_s: u64|
        #![trigger fresh(id, config, imu_offset_s, trip_offset_s, a.clock_origin)]
        is_uuid_v4(id) && imu_offset_s <= config.imu_delta_ms / 1000 && trip_offset_s
            <= config.first_trip_delay_s && a == fresh(id, config, imu_offset_s, trip_offset_s, a.clock_origin)
}

impl Agent {
    /// An agent with the given identifier and first offsets, whose clock
    /// starts at `clock_origin`.
    pub fn from_draws(config: SimulationConfig, id: u128, imu_offset_s: u64, trip_offset_s: u64, clock_origin: Instant) -> (agent: Agent)
        ensures
            agent@ == fresh(id, config@, imu_offset_s, trip_offset_s, clock_origin),
    {
        let next_action_time = ms_of_secs(imu_offset_s);
        let trip_start_at = ms_of_secs(trip_offset_s);
        Agent {
            id,
            config,
            imu_state: IMUState { measurements_count: 0, next_action_time },
            trip_start_at,
            current_trip: None,
            trip_count: 0,
            clock_origin,
        }
    }

    /// A new agent: a random identifier, and its first measurement and first
    /// trip start at random whole seconds within their configured bounds.
    pub fn new(config: SimulationConfig) -> (agent: Agent)
        ensures
            created(agent@, config@),
    {
        let clock_origin = instant_now();
        let imu_offset_s = random_in_range(0, config.imu_delta_ms / 1000);
        let trip_offset_s = random_in_range(0, config.first_trip_delay_s);
        let id = new_uuid_v4();
        let ghost cv = config@;
        let agent = Agent::from_draws(config, id, imu_offset_s, trip_offset_s, clock_origin);
        assert(agent@ == fresh(id, cv, imu_offset_s, trip_offset_s, agent.clock_origin));
        agent
    }

    /// The monotonic time, in milliseconds since the agent was created.
    fn clock_ms(&self) -> u64 {
        elapsed_ms(&self.clock_origin)
    }

    /// The padding metadata of this agent's events.
    fn get_meta(&self) -> (meta: Meta)
        ensures
            meta_entries(meta) == meta_of(self@),
    {
        junk_meta_of_size(self.config.junk_data_size)
    }

    /// The decision at monotonic time `now`.
    fn decide(&self, now: u64) -> (d: Decision)
        ensures
            d == decision(self@, now),
    {
        if self.imu_state.next_action_time <= now {
            Decision::Measure
        } else {
            match &self.current_trip {
                Some(t) => if t.end_time <= now {
                    Decision::EndTrip
                } else {
                    Decision::Idle
                },
                None => if self.trip_start_at <= now {
                    Decision::StartTrip
                } else {
                    Decision::Idle
                },
            }
        }
    }

    /// Counts a measurement on the current trip, if any, and builds the
    /// measurement event stamped `wall_ms`.
    fn get_imu_message(&mut self, wall_ms: u64) -> (e: Event)
        requires
            old(self).current_trip matches Some(t) ==> t.imu_count < u64::MAX,
        ensures
            final(self)@ == (AgentView { current_trip: trip_measured(old(self).current_trip), ..old(self)@ }),
            e@ == imu_event(old(self)@, wall_ms),
    {
        match self.current_trip {
            Some(t) => {
                self.current_trip = Some(Trip { imu_count: t.imu_count + 1, ..t });
            },
            None => {},
        }
        Event::IMUMeasurement { driver_id: self.id, occurred_at_ms: wall_ms, meta: self.get_meta() }
    }

    /// Starts trip `trip_id` at monotonic time `now`, `length_s` seconds long,
    /// and builds its start event stamped `wall_ms`.
    fn start_trip(&mut self, now: u64, wall_ms: u64, length_s: u64, trip_id: u128) -> (e: Event)
        ensures
            final(self)@ == trip_started(old(self)@, now, length_s, trip_id),
            e@ == start_event(old(self)@, wall_ms, trip_id),
    {
        let end_time = after(now, ms_of_secs(length_s));
        self.current_trip = Some(Trip { id: trip_id, imu_count: 0, end_time });
        Event::Trip(events::Trip::Start { trip_id, driver_id: self.id, occurred_at_ms: wall_ms, meta: self.get_meta() })
    }

    /// Ends the current trip at monotonic time `now`, stamped `wall_ms`, with
    /// the next trip start `delay_s` seconds later.
    pub fn end_trip_at(&mut self, now: u64, wall_ms: u64, delay_s: u64) -> (e: Event)
        requires
            old(self).current_trip is Some,
            old(self).trip_count < u64::MAX,
        ensures
            final(self)@ == trip_ended(old(self)@, now, delay_s),
            e@ == end_event(old(self)@, wall_ms),
    {
        let trip_id = match &self.current_trip {
            Some(t) => t.id,
            None => 0,
        };
        let e = Event::Trip(events::Trip::End { trip_id, driver_id: self.id, occurred_at_ms: wall_ms, meta: self.get_meta() });
        self.trip_start_at = after(now, ms_of_secs(delay_s));
        self.current_trip = None;
        self.trip_count = self.trip_count + 1;
        e
    }

    /// Ends the current trip now: the next trip start is a random number of
    /// seconds within the configured pause range later.
    /// Fails, changing nothing, where the wall clock reads before the epoch.
    pub fn end_trip(&mut self) -> (r: Result<Event, TimeWentBackwards>)
        requires
            old(self).current_trip is Some,
            old(self).trip_count < u64::MAX,
            old(self).config.trip_delay_min_s <= old(self).config.trip_delay_max_s,
        ensures
            match r {
                Ok(e) => trip_end_taken(old(self)@, final(self)@, e@),
                Err(_) => final(self)@ == old(self)@,
            },
    {
        let wall = match get_timestamp_ms() {
            Some(w) => w,
            None => return Err(TimeWentBackwards),
        };
        let now = self.clock_ms();
        let delay_s = random_in_range(self.config.trip_delay_min_s, self.config.trip_delay_max_s);
        Ok(self.end_trip_at(now, wall, delay_s))
    }

    /// Whether the agent can take its next step whatever the clock reads.
    pub fn is_steppable(&self) -> (b: bool)
        ensures
            b == steppable(self@),
    {
        let next_due = self.imu_state.next_action_time;
        let measure_ok = self.imu_state.measurements_count < u64::MAX && match &self.current_trip {
            Some(t) => t.imu_count < u64::MAX,
            None => true,
        };
        let trip_ok = match &self.current_trip {
            Some(t) => next_due <= t.end_time || (self.trip_count < u64::MAX
                && self.config.trip_delay_min_s <= self.config.trip_delay_max_s),
            None => next_due <= self.trip_start_at || self.config.trip_min_length_s <= self.config.trip_max_length_s,
        };
        let b = measure_ok && trip_ok;
        proof {
            let a = self@;
            if b {
                assert forall|now: u64| #[trigger] step_ok(a, now) by {}
            } else if !measure_ok {
                assert(!step_ok(a, u64::MAX));
            } else {
                match a.current_trip {
                    Some(t) => assert(!step_ok(a, t.end_time)),
                    None => assert(!step_ok(a, a.trip_start_at)),
                }
            }
        }
        b
    }

    /// The step at monotonic time `now`, stamped `wall_ms`, with `draw` the
    /// random seconds and `trip_id` the identifier that the step may use.
    pub fn next_at(&mut self, now: u64, wall_ms: u64, draw: u64, trip_id: u128) -> (e: Option<Event>)
        requires
            step_defined(old(self)@, now),
        ensures
            (final(self)@, opt_event_view(e)) == step(old(self)@, now, wall_ms, draw, trip_id),
    {
        match self.decide(now) {
            Decision::Measure => {
                self.imu_state = IMUState {
                    measurements_count: self.imu_state.measurements_count + 1,
                    next_action_time: after(now, self.config.imu_delta_ms),
                };
                Some(self.get_imu_message(wall_ms))
            },
            Decision::EndTrip => Some(self.end_trip_at(now, wall_ms, draw)),
            Decision::StartTrip => Some(self.start_trip(now, wall_ms, draw, trip_id)),
            Decision::Idle => None,
        }
    }

    /// The agent's next event, if any is due now: a measurement, else the end
    /// of a trip that is over, else the start of a trip that is due. Fails,
    /// changing nothing, where an event is due and the wall clock reads before
    /// the epoch.
    pub fn next(&mut self) -> (r: Result<Option<Event>, TimeWentBackwards>)
        requires
            steppable(old(self)@),
        ensures
            match r {
                Ok(e) => stepped(old(self)@, final(self)@, opt_event_view(e)),
                Err(_) => final(self)@ == old(self)@,
            },
    {
        let now = self.clock_ms();
        assert(step_ok(self@, now));
        let d = self.decide(now);
        let wall: u64 = match d {
            Decision::Idle => 0,
            _ => match get_timestamp_ms() {
                Some(w) => w,
                None => return Err(TimeWentBackwards),
            },
        };
        let draw: u64;
        let trip_id: u128;
        match d {
            Decision::EndTrip => {
                draw = random_in_range(self.config.trip_delay_min_s, self.config.trip_delay_max_s);
                trip_id = 0;
            },
            Decision::StartTrip => {
                draw = random_in_range(self.config.trip_min_length_s, self.config.trip_max_length_s);
                trip_id = new_uuid_v4();
            },
            _ => {
                draw = 0;
                trip_id = 0;
            },
        }
        let ghost old_view = self@;
        let e = self.next_at(now, wall, draw, trip_id);
        assert(admissible(old_view, now, draw, trip_id));
        assert((self@, opt_event_view(e)) == step(old_view, now, wall, draw, trip_id));
        Ok(e)
    }
}

} // verus!
