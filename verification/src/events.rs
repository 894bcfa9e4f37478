//! The events that agents emit.

use vstd::prelude::*;

verus! {

#[verifier::external_type_specification]
#[verifier::external_body]
#[verifier::reject_recursive_types(K)]
#[verifier::reject_recursive_types(V)]
pub struct ExJsonMap<K, V>(serde_json::Map<K, V>);

#[verifier::external_type_specification]
#[verifier::external_body]
pub struct ExJsonValue(serde_json::Value);

/// Free-form metadata attached to every event: a JSON object.
pub type Meta = serde_json::Map<String, serde_json::Value>;

/// The metadata by key: the text of each value that is a JSON string, `None`
/// for a value of another kind.
pub type MetaView = Map<Seq<char>, Option<Seq<char>>>;

/// What a JSON object holds, key by key: the text of a string value, `None`
/// for a value of another kind.
pub uninterp spec fn meta_entries(meta: serde_json::Map<String, serde_json::Value>) -> Map<Seq<char>, Option<Seq<char>>>;

/// Calls `serde_json::Map::new`: an empty object.
#[verifier::external_body]
fn json_object_new() -> (meta: Meta)
    ensures
        meta_entries(meta) == MetaView::empty(),
{
    serde_json::Map::new()
}

/// Calls `serde_json::Map::insert` with `serde_json::Value::from(value)`, a
/// JSON string: the key now holds that string, whatever it held before, and
/// the other keys keep theirs.
#[verifier::external_body]
fn json_object_insert_text(meta: &mut Meta, key: String, value: String)
    ensures
        meta_entries(*final(meta)) == meta_entries(*old(meta)).insert(key@, Some(value@)),
{
    meta.insert(key, serde_json::Value::from(value));
}

/// A trip boundary, as published on the trips topic.
#[derive(Debug)]
pub enum Trip {
    Start { trip_id: u128, driver_id: u128, occurred_at_ms: u64, meta: Meta },
    End { trip_id: u128, driver_id: u128, occurred_at_ms: u64, meta: Meta },
}

/// Anything an agent publishes: a trip boundary or an IMU measurement. The
/// measurement's sensor readings are floating-point values drawn when the
/// event is published, so the library's event carries the rest.
#[derive(Debug)]
pub enum Event {
    Trip(Trip),
    IMUMeasurement { driver_id: u128, occurred_at_ms: u64, meta: Meta },
}

pub enum TripView {
    Start { trip_id: u128, driver_id: u128, occurred_at_ms: u64, meta: MetaView },
    End { trip_id: u128, driver_id: u128, occurred_at_ms: u64, meta: MetaView },
}

pub enum EventView {
    Trip(TripView),
    IMUMeasurement { driver_id: u128, occurred_at_ms: u64, meta: MetaView },
}

impl View for Trip {
    type V = TripView;

    open spec fn view(&self) -> TripView {
        match self {
            Trip::Start { trip_id, driver_id, occurred_at_ms, meta } => TripView::Start {
                trip_id: *trip_id,
                driver_id: *driver_id,
                occurred_at_ms: *occurred_at_ms,
                meta: meta_entries(*meta),
            },
            Trip::End { trip_id, driver_id, occurred_at_ms, meta } => TripView::End {
                trip_id: *trip_id,
                driver_id: *driver_id,
                occurred_at_ms: *occurred_at_ms,
                meta: meta_entries(*meta),
            },
        }
    }
}

impl View for Event {
    type V = EventView;

    open spec fn view(&self) -> EventView {
        match self {
            Event::Trip(t) => EventView::Trip(t@),
            Event::IMUMeasurement { driver_id, occurred_at_ms, meta } => EventView::IMUMeasurement {
                driver_id: *driver_id,
                occurred_at_ms: *occurred_at_ms,
                meta: meta_entries(*meta),
            },
        }
    }
}

impl EventView {
    /// The agent that emitted the event.
    pub open spec fn driver(self) -> u128 {
        match self {
            EventView::Trip(TripView::Start { driver_id, .. }) => driver_id,
            EventView::Trip(TripView::End { driver_id, .. }) => driver_id,
            EventView::IMUMeasurement { driver_id, .. } => driver_id,
        }
    }

    /// The wall-clock time stamp of the event.
    pub open spec fn occurred_at(self) -> u64 {
        match self {
            EventView::Trip(TripView::Start { occurred_at_ms, .. }) => occurred_at_ms,
            EventView::Trip(TripView::End { occurred_at_ms, .. }) => occurred_at_ms,
            EventView::IMUMeasurement { occurred_at_ms, .. } => occurred_at_ms,
        }
    }
}

/// The view of an optional event.
pub open spec fn opt_event_view(e: Option<Event>) -> Option<EventView> {
    match e {
        Some(e) => Some(e@),
        None => None,
    }
}

/// The key of the padding entry.
pub open spec fn junk_key() -> Seq<char> {
    "nonsense"@
}

/// `n` repetitions of the padding character `M`.
pub open spec fn junk_text(n: nat) -> Seq<char> {
    Seq::new(n, |i: int| 'M')
}

/// The metadata that every event carries: one entry, `nonsense`, padded with
/// `n` characters so that messages reach a target size.
pub open spec fn junk_meta(n: nat) -> MetaView {
    Map::<Seq<char>, Option<Seq<char>>>::empty().insert(junk_key(), Some(junk_text(n)))
}

/// Builds the padding metadata for a payload of `junk_data_size` characters.
pub fn junk_meta_of_size(junk_data_size: usize) -> (meta: Meta)
    ensures
        meta_entries(meta) == junk_meta(junk_data_size as nat),
{
    let mut data = String::new();
    let mut i: usize = 0;
    proof {
        reveal_strlit("M");
    }
    while i < junk_data_size
        invariant
            i <= junk_data_size,
            data@ == junk_text(i as nat),
            "M"@ == seq!['M'],
        decreases junk_data_size - i,
    {
        data.append("M");
        i = i + 1;
        assert(data@ =~= junk_text(i as nat));
    }
    let key = String::from_str("nonsense");
    let mut meta = json_object_new();
    json_object_insert_text(&mut meta, key, data);
    meta
}

} // verus!
