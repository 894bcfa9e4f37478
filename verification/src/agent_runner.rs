//! Runs a group of agents and accounts for what they did.

use vstd::prelude::*;

use crate::agent::{
    created, ms_of_secs, secs_to_ms, steppable, stepped, trip_end_taken, Agent, AgentView, TimeWentBackwards,
    Trip,
};
use crate::events;
use crate::events::{Event, EventView, TripView};

verus! {

/// What every agent of a run is configured with. Durations are whole
/// milliseconds on the monotonic clock, or whole seconds where the name says so.
#[derive(Debug)]
pub struct SimulationConfig {
    /// Characters of padding added to each event's metadata.
    pub junk_data_size: usize,
    pub imu_topic: String,
    /// Time between two IMU measurements of one agent.
    pub imu_delta_ms: u64,
    pub trips_topic: String,
    /// Latest start of an agent's first trip, after the agent is created.
    pub first_trip_delay_s: u64,
    pub trip_delay_min_s: u64,
    pub trip_delay_max_s: u64,
    pub trip_min_length_s: u64,
    pub trip_max_length_s: u64,
}

pub struct ConfigView {
    pub junk_data_size: usize,
    pub imu_topic: Seq<char>,
    pub imu_delta_ms: u64,
    pub trips_topic: Seq<char>,
    pub first_trip_delay_s: u64,
    pub trip_delay_min_s: u64,
    pub trip_delay_max_s: u64,
    pub trip_min_length_s: u64,
    pub trip_max_length_s: u64,
}

impl View for SimulationConfig {
    type V = ConfigView;

    open spec fn view(&self) -> ConfigView {
        ConfigView {
            junk_data_size: self.junk_data_size,
            imu_topic: self.imu_topic@,
            imu_delta_ms: self.imu_delta_ms,
            trips_topic: self.trips_topic@,
            first_trip_delay_s: self.first_trip_delay_s,
            trip_delay_min_s: self.trip_delay_min_s,
            trip_delay_max_s: self.trip_delay_max_s,
            trip_min_length_s: self.trip_min_length_s,
            trip_max_length_s: self.trip_max_length_s,
        }
    }
}

impl Clone for SimulationConfig {
    fn clone(&self) -> (c: Self)
        ensures
            c@ == self@,
    {
        SimulationConfig {
            junk_data_size: self.junk_data_size,
            imu_topic: self.imu_topic.clone(),
            imu_delta_ms: self.imu_delta_ms,
            trips_topic: self.trips_topic.clone(),
            first_trip_delay_s: self.first_trip_delay_s,
            trip_delay_min_s: self.trip_delay_min_s,
            trip_delay_max_s: self.trip_delay_max_s,
            trip_min_length_s: self.trip_min_length_s,
            trip_max_length_s: self.trip_max_length_s,
        }
    }
}

impl SimulationConfig {
    /// The configuration of a run as the command line sets it up: the
    /// padding, the two topics and the IMU interval come from the command
    /// line; the first trip starts within a second, trips last one or two
    /// seconds, and so do the pauses between them.
    pub fn for_run(junk_data_size: usize, imu_topic: String, imu_tick_rate_s: u64, trips_topic: String) -> (c: SimulationConfig)
        ensures
            c@ == (ConfigView {
                junk_data_size,
                imu_topic: imu_topic@,
                imu_delta_ms: secs_to_ms(imu_tick_rate_s),
                trips_topic: trips_topic@,
                first_trip_delay_s: 1,
                trip_delay_min_s: 1,
                trip_delay_max_s: 2,
                trip_min_length_s: 1,
                trip_max_length_s: 2,
            }),
    {
        let imu_delta_ms = ms_of_secs(imu_tick_rate_s);
        SimulationConfig {
            junk_data_size,
            imu_topic,
            imu_delta_ms,
            trips_topic,
            first_trip_delay_s: 1,
            trip_delay_min_s: 1,
            trip_delay_max_s: 2,
            trip_min_length_s: 1,
            trip_max_length_s: 2,
        }
    }

    /// The topic that `e` is published on.
    pub fn topic_for(&self, e: &Event) -> (topic: String)
        ensures
            topic@ == event_topic(self@, e@),
            e@ is Trip ==> topic@ == self.trips_topic@,
            e@ is IMUMeasurement ==> topic@ == self.imu_topic@,
    {
        match e {
            Event::IMUMeasurement { .. } => self.imu_topic.clone(),
            Event::Trip(_) => self.trips_topic.clone(),
        }
    }
}

/// IMU measurements go to the IMU topic, trip boundaries to the trips topic.
pub open spec fn event_topic(c: ConfigView, e: EventView) -> Seq<char> {
    match e {
        EventView::IMUMeasurement { .. } => c.imu_topic,
        EventView::Trip(_) => c.trips_topic,
    }
}

/// What a run accomplished: the measurements taken and the trips completed.
#[derive(Debug, Clone, Copy, PartialEq, Eq, Structural)]
pub struct AgentRunnerResult {
    pub imu_measurements_count: u64,
    pub total_trips: u64,
}

/// The two results can be added without overflowing a count.
pub open spec fn results_addable(a: AgentRunnerResult, b: AgentRunnerResult) -> bool {
    &&& a.imu_measurements_count + b.imu_measurements_count <= u64::MAX
    &&& a.total_trips + b.total_trips <= u64::MAX
}

/// The count-wise sum of two results.
pub open spec fn results_sum(a: AgentRunnerResult, b: AgentRunnerResult) -> AgentRunnerResult {
    AgentRunnerResult {
        imu_measurements_count: (a.imu_measurements_count + b.imu_measurements_count) as u64,
        total_trips: (a.total_trips + b.total_trips) as u64,
    }
}

impl Default for AgentRunnerResult {
    fn default() -> (r: AgentRunnerResult)
        ensures
            r.imu_measurements_count == 0,
            r.total_trips == 0,
    {
        AgentRunnerResult { imu_measurements_count: 0, total_trips: 0 }
    }
}

impl core::ops::Add for AgentRunnerResult {
    type Output = AgentRunnerResult;

    fn add(self, other: AgentRunnerResult) -> (r: AgentRunnerResult)
        ensures
            r == results_sum(self, other),
    {
        AgentRunnerResult {
            imu_measurements_count: self.imu_measurements_count + other.imu_measurements_count,
            total_trips: self.total_trips + other.total_trips,
        }
    }
}

impl vstd::std_specs::ops::AddSpecImpl for AgentRunnerResult {
    open spec fn obeys_add_spec() -> bool {
        true
    }

    open spec fn add_req(self, rhs: AgentRunnerResult) -> bool {
        results_addable(self, rhs)
    }

    open spec fn add_spec(self, rhs: AgentRunnerResult) -> AgentRunnerResult {
        results_sum(self, rhs)
    }
}

impl AgentRunnerResult {
    /// Adds `other` into this result, count by count.
    pub fn add_assign(&mut self, other: AgentRunnerResult)
        requires
            results_addable(*old(self), other),
        ensures
            *final(self) == results_sum(*old(self), other),
    {
        self.imu_measurements_count = self.imu_measurements_count + other.imu_measurements_count;
        self.total_trips = self.total_trips + other.total_trips;
    }
}

/// A message that a run hands over for publishing: the topic, the key (the
/// emitting agent's identifier) and the event; for a trip end, also the trip
/// that ended, with the measurements taken on it, for the run's records.
#[derive(Debug)]
pub struct Outgoing {
    pub topic: String,
    pub key: u128,
    pub event: Event,
    pub ended_trip: Option<Trip>,
}

/// The trip that event `e` of agent `a` ends: its current trip for a trip
/// end, none otherwise.
pub open spec fn ended_trip_of(a: AgentView, e: EventView) -> Option<Trip> {
    match e {
        EventView::Trip(TripView::End { .. }) => a.current_trip,
        _ => None,
    }
}

/// The event that a message slot carries.
pub open spec fn outgoing_event(o: Option<Outgoing>) -> Option<EventView> {
    match o {
        Some(m) => Some(m.event@),
        None => None,
    }
}

/// A message slot of agent `a` is addressed as a run addresses it: keyed by
/// the agent, on the topic of its event, with the trip that the event ends.
pub open spec fn addressed(c: ConfigView, a: AgentView, o: Option<Outgoing>) -> bool {
    match o {
        Some(m) => {
            &&& m.key == a.id
            &&& m.topic@ == event_topic(c, m.event@)
            &&& m.ended_trip == ended_trip_of(a, m.event@)
        },
        None => true,
    }
}

/// `new` is `old` after one step, for some clock readings and admissible
/// draws, that published something or nothing.
pub open spec fn stepped_some(old: AgentView, new: AgentView) -> bool {
    exists|e: Option<EventView>| #[trigger] stepped(old, new, e)
}

/// A round over `old` that stopped at agent `k`: the agents before it have
/// stepped, it and the rest are unchanged.
pub open spec fn round_stopped_at(old: Seq<AgentView>, new: Seq<AgentView>, k: int) -> bool {
    &&& 0 <= k < old.len()
    &&& new.len() == old.len()
    &&& forall|j: int| 0 <= j < k ==> #[trigger] stepped_some(old[j], new[j])
    &&& forall|j: int| k <= j < old.len() ==> #[trigger] new[j] == old[j]
}

/// Ending the trips of `old` stopped at agent `k`, which is on a trip: the
/// agents before it have ended their trips (those on one), it and the rest
/// are unchanged.
pub open spec fn closing_stopped_at(old: Seq<AgentView>, new: Seq<AgentView>, k: int) -> bool {
    &&& 0 <= k < old.len()
    &&& new.len() == old.len()
    &&& old[k].current_trip is Some
    &&& forall|j: int| 0 <= j < k ==> #[trigger] closed_or_idle(old[j], new[j])
    &&& forall|j: int| k <= j < old.len() ==> #[trigger] new[j] == old[j]
}

/// `new` is `old` after its trip ended, where it was on one, and `old`
/// itself otherwise.
pub open spec fn closed_or_idle(old: AgentView, new: AgentView) -> bool {
    match old.current_trip {
        Some(_) => exists|e: EventView| #[trigger] trip_end_taken(old, new, e),
        None => new == old,
    }
}

/// A group of agents that share one configuration.
pub struct AgentRunner {
    agents: Vec<Agent>,
    config: SimulationConfig,
}

pub struct RunnerView {
    pub agents: Seq<AgentView>,
    pub config: ConfigView,
}

impl View for AgentRunner {
    type V = RunnerView;

    closed spec fn view(&self) -> RunnerView {
        RunnerView { agents: self.agents@.map_values(|a: Agent| a@), config: self.config@ }
    }
}

/// Every agent of the run can take its next step whatever the clock reads.
pub open spec fn all_steppable(r: RunnerView) -> bool {
    forall|i: int| 0 <= i < r.agents.len() ==> #[trigger] steppable(r.agents[i])
}

/// Every agent on a trip can end it: its trip count can grow and the pause
/// range is not empty.
pub open spec fn all_trips_endable(r: RunnerView) -> bool {
    forall|i: int|
        0 <= i < r.agents.len() && (#[trigger] r.agents[i]).current_trip is Some ==> {
            &&& r.agents[i].trip_count < u64::MAX
            &&& r.agents[i].config.trip_delay_min_s <= r.agents[i].config.trip_delay_max_s
        }
}

/// The measurements of all agents together.
pub open spec fn imu_total(agents: Seq<AgentView>) -> int
    decreases agents.len(),
{
    if agents.len() == 0 {
        0
    } else {
        imu_total(agents.drop_last()) + agents.last().imu_state.measurements_count
    }
}

/// The completed trips of all agents together.
pub open spec fn trip_total(agents: Seq<AgentView>) -> int
    decreases agents.len(),
{
    if agents.len() == 0 {
        0
    } else {
        trip_total(agents.drop_last()) + agents.last().trip_count
    }
}

/// The agent ended its trip, or had none: the message slot then holds the
/// end of that trip on the trips topic, or nothing.
pub open spec fn trip_closed(c: ConfigView, old: AgentView, new: AgentView, o: Option<Outgoing>) -> bool {
    match old.current_trip {
        Some(t) => {
            &&& o is Some
            &&& o->0.key == old.id
            &&& o->0.topic@ == c.trips_topic
            &&& o->0.ended_trip == Some(t)
            &&& trip_end_taken(old, new, o->0.event@)
        },
        None => new == old && o is None,
    }
}

impl AgentRunner {
    /// A run of `num_agents` new agents, each with its own copy of `config`.
    pub fn new(num_agents: u64, config: SimulationConfig) -> (r: AgentRunner)
        requires
            num_agents <= usize::MAX,
        ensures
            r@.config == config@,
            r@.agents.len() == num_agents,
            forall|i: int| 0 <= i < num_agents ==> created(#[trigger] r@.agents[i], config@),
    {
        let mut agents: Vec<Agent> = Vec::new();
        let mut k: u64 = 0;
        while k < num_agents
            invariant
                k <= num_agents,
                agents.len() == k,
                forall|i: int| 0 <= i < k ==> created(#[trigger] agents@[i]@, config@),
            decreases num_agents - k,
        {
            let agent = Agent::new(config.clone());
            agents.push(agent);
            k = k + 1;
        }
        let r = AgentRunner { agents, config };
        assert forall|i: int| 0 <= i < num_agents implies created(#[trigger] r@.agents[i], config@) by {
            assert(r@.agents[i] == r.agents@[i]@);
        }
        r
    }

    /// The agents of the run.
    pub fn agents(&self) -> (agents: &Vec<Agent>)
        ensures
            agents@.len() == self@.agents.len(),
            forall|i: int| 0 <= i < agents@.len() ==> #[trigger] agents@[i]@ == self@.agents[i],
    {
        &self.agents
    }

    /// Whether every agent can take its next step whatever the clock reads.
    pub fn can_tick(&self) -> (b: bool)
        ensures
            b == all_steppable(self@),
    {
        let n = self.agents.len();
        let mut i: usize = 0;
        while i < n
            invariant
                n == self.agents.len(),
                i <= n,
                forall|j: int| 0 <= j < i ==> #[trigger] steppable(self@.agents[j]),
            decreases n - i,
        {
            if !self.agents[i].is_steppable() {
                assert(self@.agents[i as int] == self.agents@[i as int]@);
                return false;
            }
            assert(self@.agents[i as int] == self.agents@[i as int]@);
            i = i + 1;
        }
        true
    }

    /// Whether every agent on a trip can end it.
    pub fn can_end_all_trips(&self) -> (b: bool)
        ensures
            b == all_trips_endable(self@),
    {
        let n = self.agents.len();
        let mut i: usize = 0;
        while i < n
            invariant
                n == self.agents.len(),
                i <= n,
                forall|j: int|
                    0 <= j < i && (#[trigger] self@.agents[j]).current_trip is Some ==> {
                        &&& self@.agents[j].trip_count < u64::MAX
                        &&& self@.agents[j].config.trip_delay_min_s <= self@.agents[j].config.trip_delay_max_s
                    },
            decreases n - i,
        {
            let a = &self.agents[i];
            assert(self@.agents[i as int] == self.agents@[i as int]@);
            if a.current_trip.is_some() && !(a.trip_count < u64::MAX
                && a.config.trip_delay_min_s <= a.config.trip_delay_max_s) {
                return false;
            }
            i = i + 1;
        }
        true
    }

    /// Asks agent `i` for its next event and addresses it for publishing
    /// (`None`: nothing to publish). Fails, changing nothing, where the event
    /// cannot be time-stamped.
    pub fn step_agent(&mut self, i: usize) -> (r: Result<Option<Outgoing>, TimeWentBackwards>)
        requires
            i < old(self)@.agents.len(),
            steppable(old(self)@.agents[i as int]),
        ensures
            final(self)@.config == old(self)@.config,
            final(self)@.agents.len() == old(self)@.agents.len(),
            forall|j: int|
                0 <= j < old(self)@.agents.len() && j != i ==> #[trigger] final(self)@.agents[j] == old(self)@.agents[j],
            match r {
                Ok(o) => {
                    &&& stepped(old(self)@.agents[i as int], final(self)@.agents[i as int], outgoing_event(o))
                    &&& addressed(old(self)@.config, old(self)@.agents[i as int], o)
                },
                Err(_) => final(self)@.agents[i as int] == old(self)@.agents[i as int],
            },
    {
        let ghost old_agents = self.agents@;
        assert(self@.agents[i as int] == self.agents@[i as int]@);
        let trip_before = self.agents[i].current_trip;
        let step_result = self.agents[i].next();
        proof {
            assert forall|j: int| 0 <= j < old_agents.len() && j != i implies #[trigger] self@.agents[j]
                == old(self)@.agents[j] by {
                assert(self.agents@[j] == old_agents[j]);
            }
        }
        let e = match step_result {
            Ok(e) => e,
            Err(err) => return Err(err),
        };
        let o = match e {
            Some(event) => {
                let topic = self.config.topic_for(&event);
                let ended_trip = match &event {
                    Event::Trip(events::Trip::End { .. }) => trip_before,
                    _ => None,
                };
                Some(Outgoing { topic, key: self.agents[i].id, event, ended_trip })
            },
            None => None,
        };
        Ok(o)
    }

    /// One round of the run: every agent, in order, is asked for its next
    /// event, and each event is addressed for publishing. The slot of an
    /// agent with nothing to publish is `None`. Where an agent's event cannot
    /// be time-stamped, the round stops at that agent `k`: the agents before
    /// it have stepped, it and the rest are unchanged. A run without agents
    /// never fails.
    pub fn tick(&mut self) -> (r: Result<Vec<Option<Outgoing>>, TimeWentBackwards>)
        requires
            all_steppable(old(self)@),
        ensures
            final(self)@.config == old(self)@.config,
            final(self)@.agents.len() == old(self)@.agents.len(),
            match r {
                Ok(out) => {
                    &&& out@.len() == old(self)@.agents.len()
                    &&& forall|i: int|
                        0 <= i < out@.len() ==> {
                            &&& stepped(old(self)@.agents[i], final(self)@.agents[i], outgoing_event(#[trigger] out@[i]))
                            &&& addressed(old(self)@.config, old(self)@.agents[i], out@[i])
                        }
                },
                Err(_) => exists|k: int| #[trigger] round_stopped_at(old(self)@.agents, final(self)@.agents, k),
            },
    {
        let ghost old_agents = self@.agents;
        let n = self.agents.len();
        let mut out: Vec<Option<Outgoing>> = Vec::new();
        let mut i: usize = 0;
        while i < n
            invariant
                n == self@.agents.len(),
                n == old_agents.len(),
                i <= n,
                out@.len() == i,
                self@.config == old(self)@.config,
                all_steppable(old(self)@),
                old_agents == old(self)@.agents,
                forall|j: int| i <= j < n ==> #[trigger] self@.agents[j] == old_agents[j],
                forall|j: int|
                    0 <= j < i ==> {
                        &&& stepped(old_agents[j], self@.agents[j], outgoing_event(#[trigger] out@[j]))
                        &&& addressed(self@.config, old_agents[j], out@[j])
                    },
            decreases n - i,
        {
            assert(steppable(old_agents[i as int]));
            let ghost before = self@.agents;
            let step_result = self.step_agent(i);
            let o = match step_result {
                Ok(o) => o,
                Err(err) => {
                    proof {
                        assert forall|j: int| 0 <= j < i implies #[trigger] stepped_some(
                            old_agents[j],
                            self@.agents[j],
                        ) by {
                            assert(self@.agents[j] == before[j]);
                            assert(stepped(old_agents[j], before[j], outgoing_event(out@[j])));
                        }
                        assert forall|j: int| i <= j < n implies #[trigger] self@.agents[j] == old_agents[j] by {
                            if j != i {
                                assert(self@.agents[j] == before[j]);
                            }
                        }
                        assert(round_stopped_at(old_agents, self@.agents, i as int));
                    }
                    return Err(err);
                },
            };
            out.push(o);
            proof {
                assert forall|j: int| 0 <= j < i implies {
                    &&& stepped(old_agents[j], self@.agents[j], outgoing_event(#[trigger] out@[j]))
                    &&& addressed(self@.config, old_agents[j], out@[j])
                } by {
                    assert(self@.agents[j] == before[j]);
                }
                assert forall|j: int| i + 1 <= j < n implies #[trigger] self@.agents[j] == old_agents[j] by {
                    assert(self@.agents[j] == before[j]);
                }
            }
            i = i + 1;
        }
        Ok(out)
    }

    /// Ends the trip of agent `i`, if it is on one, and addresses the trip end
    /// for the trips topic (`None`: no trip). Fails, changing nothing, where
    /// the trip end cannot be time-stamped; only an agent on a trip needs a
    /// time stamp.
    pub fn end_agent_trip(&mut self, i: usize) -> (r: Result<Option<Outgoing>, TimeWentBackwards>)
        requires
            i < old(self)@.agents.len(),
            old(self)@.agents[i as int].current_trip is Some ==> {
                &&& old(self)@.agents[i as int].trip_count < u64::MAX
                &&& old(self)@.agents[i as int].config.trip_delay_min_s
                    <= old(self)@.agents[i as int].config.trip_delay_max_s
            },
        ensures
            final(self)@.config == old(self)@.config,
            final(self)@.agents.len() == old(self)@.agents.len(),
            forall|j: int|
                0 <= j < old(self)@.agents.len() && j != i ==> #[trigger] final(self)@.agents[j] == old(self)@.agents[j],
            match r {
                Ok(o) => trip_closed(old(self)@.config, old(self)@.agents[i as int], final(self)@.agents[i as int], o),
                Err(_) => {
                    &&& old(self)@.agents[i as int].current_trip is Some
                    &&& final(self)@.agents[i as int] == old(self)@.agents[i as int]
                },
            },
    {
        let ghost old_agents = self.agents@;
        assert(self@.agents[i as int] == self.agents@[i as int]@);
        let trip_before = self.agents[i].current_trip;
        if trip_before.is_none() {
            return Ok(None);
        }
        let ended = self.agents[i].end_trip();
        proof {
            assert forall|j: int| 0 <= j < old_agents.len() && j != i implies #[trigger] self@.agents[j]
                == old(self)@.agents[j] by {
                assert(self.agents@[j] == old_agents[j]);
            }
        }
        let event = match ended {
            Ok(event) => event,
            Err(err) => return Err(err),
        };
        let topic = self.config.trips_topic.clone();
        Ok(Some(Outgoing { topic, key: self.agents[i].id, event, ended_trip: trip_before }))
    }

    /// Ends the trip of every agent that is on one, in order, and addresses
    /// each trip end for the trips topic. The slot of an agent without a
    /// trip is `None`. Where a trip end cannot be time-stamped, this stops at
    /// that agent `k`, which is on a trip: the trips before it have ended, it
    /// and the rest are unchanged. Where no agent is on a trip, it never
    /// fails.
    pub fn end_all_trips(&mut self) -> (r: Result<Vec<Option<Outgoing>>, TimeWentBackwards>)
        requires
            all_trips_endable(old(self)@),
        ensures
            final(self)@.config == old(self)@.config,
            final(self)@.agents.len() == old(self)@.agents.len(),
            match r {
                Ok(out) => {
                    &&& out@.len() == old(self)@.agents.len()
                    &&& forall|i: int|
                        0 <= i < out@.len() ==> trip_closed(
                            old(self)@.config,
                            old(self)@.agents[i],
                            final(self)@.agents[i],
                            #[trigger] out@[i],
                        )
                },
                Err(_) => exists|k: int| #[trigger] closing_stopped_at(old(self)@.agents, final(self)@.agents, k),
            },
    {
        let ghost old_agents = self@.agents;
        let n = self.agents.len();
        let mut out: Vec<Option<Outgoing>> = Vec::new();
        let mut i: usize = 0;
        while i < n
            invariant
                n == self@.agents.len(),
                n == old_agents.len(),
                i <= n,
                out@.len() == i,
                self@.config == old(self)@.config,
                all_trips_endable(old(self)@),
                old_agents == old(self)@.agents,
                forall|j: int| i <= j < n ==> #[trigger] self@.agents[j] == old_agents[j],
                forall|j: int|
                    0 <= j < i ==> trip_closed(self@.config, old_agents[j], self@.agents[j], #[trigger] out@[j]),
            decreases n - i,
        {
            let ghost before = self@.agents;
            assert(before[i as int] == old_agents[i as int]);
            let ended = self.end_agent_trip(i);
            let o = match ended {
                Ok(o) => o,
                Err(err) => {
                    proof {
                        assert forall|j: int| 0 <= j < i implies #[trigger] closed_or_idle(
                            old_agents[j],
                            self@.agents[j],
                        ) by {
                            assert(self@.agents[j] == before[j]);
                            assert(trip_closed(self@.config, old_agents[j], before[j], out@[j]));
                            if old_agents[j].current_trip is Some {
                                assert(trip_end_taken(old_agents[j], before[j], out@[j]->0.event@));
                            }
                        }
                        assert forall|j: int| i <= j < n implies #[trigger] self@.agents[j] == old_agents[j] by {
                            if j != i {
                                assert(self@.agents[j] == before[j]);
                            }
                        }
                        assert(closing_stopped_at(old_agents, self@.agents, i as int));
                    }
                    return Err(err);
                },
            };
            out.push(o);
            proof {
                assert forall|j: int| 0 <= j < i implies trip_closed(
                    self@.config,
                    old_agents[j],
                    self@.agents[j],
                    #[trigger] out@[j],
                ) by {
                    assert(self@.agents[j] == before[j]);
                }
                assert forall|j: int| i + 1 <= j < n implies #[trigger] self@.agents[j] == old_agents[j] by {
                    assert(self@.agents[j] == before[j]);
                }
            }
            i = i + 1;
        }
        Ok(out)
    }

    /// The run's result: the measurements and the completed trips of all its
    /// agents, or `None` where either sum does not fit in 64 bits.
    pub fn totals(&self) -> (r: Option<AgentRunnerResult>)
        ensures
            r is Some <==> imu_total(self@.agents) <= u64::MAX && trip_total(self@.agents) <= u64::MAX,
            r matches Some(res) ==> res.imu_measurements_count == imu_total(self@.agents)
                && res.total_trips == trip_total(self@.agents),
    {
        let ghost agents = self@.agents;
        let n = self.agents.len();
        let mut imu: u64 = 0;
        let mut trips: u64 = 0;
        let mut imu_fits = true;
        let mut trips_fit = true;
        let mut i: usize = 0;
        assert(agents.take(0) =~= Seq::<AgentView>::empty());
        while i < n
            invariant
                n == self.agents.len(),
                n == agents.len(),
                agents == self@.agents,
                i <= n,
                imu_fits ==> imu == imu_total(agents.take(i as int)),
                !imu_fits ==> imu_total(agents.take(i as int)) > u64::MAX,
                trips_fit ==> trips == trip_total(agents.take(i as int)),
                !trips_fit ==> trip_total(agents.take(i as int)) > u64::MAX,
            decreases n - i,
        {
            let a = &self.agents[i];
            assert(agents[i as int] == self.agents@[i as int]@);
            assert(agents.take(i + 1).drop_last() =~= agents.take(i as int));
            assert(agents.take(i + 1).last() == agents[i as int]);
            if imu_fits {
                match imu.checked_add(a.imu_state.measurements_count) {
                    Some(s) => imu = s,
                    None => imu_fits = false,
                }
            }
            if trips_fit {
                match trips.checked_add(a.trip_count) {
                    Some(s) => trips = s,
                    None => trips_fit = false,
                }
            }
            i = i + 1;
        }
        assert(agents.take(n as int) =~= agents);
        if imu_fits && trips_fit {
            Some(AgentRunnerResult { imu_measurements_count: imu, total_trips: trips })
        } else {
            None
        }
    }
}

/// How many tasks a run is laid out over: fewer agents than requested tasks
/// make one task; otherwise there are as many tasks as requested.
pub open spec fn runner_count(num_agents: u64, num_green_threads: u64) -> u64 {
    if num_agents < num_green_threads {
        1
    } else {
        num_green_threads
    }
}

/// The number of tasks and the equal share of agents per task for a run of
/// `num_agents` agents over `num_green_threads` requested tasks; the agents
/// left over go one each to the first tasks (`runner_share`).
pub fn runner_layout(num_agents: u64, num_green_threads: u64) -> (layout: (u64, u64))
    requires
        num_green_threads > 0,
    ensures
        layout.0 == runner_count(num_agents, num_green_threads),
        layout.1 == num_agents / layout.0,
        num_agents < num_green_threads ==> layout.0 == 1 && layout.1 == num_agents,
        num_agents >= num_green_threads ==> layout.0 == num_green_threads,
{
    let runners = if num_agents < num_green_threads {
        1
    } else {
        num_green_threads
    };
    (runners, num_agents / runners)
}

/// The agents that task `index` of `runners` runs out of `num_agents`: the
/// equal share, and one more for each of the first `num_agents % runners`
/// tasks.
pub open spec fn share_of(num_agents: u64, runners: u64, index: int) -> int {
    num_agents / runners + if index < num_agents % runners {
        1int
    } else {
        0int
    }
}

/// The agents that task `index` of `runners` runs, out of `num_agents`.
pub fn runner_share(num_agents: u64, runners: u64, index: u64) -> (share: u64)
    requires
        runners > 0,
        index < runners,
    ensures
        share == share_of(num_agents, runners, index as int),
{
    let base = num_agents / runners;
    let extra = num_agents % runners;
    if index < extra {
        proof {
            vstd::arithmetic::div_mod::lemma_fundamental_div_mod(num_agents as int, runners as int);
            let n = num_agents as int;
            let r = runners as int;
            let b = base as int;
            let m = extra as int;
            assert(b + 1 <= n) by (nonlinear_arith)
                requires
                    n == r * b + m,
                    m >= 1,
                    r >= 1,
                    b >= 0,
            ;
        }
        base + 1
    } else {
        base
    }
}

} // verus!
