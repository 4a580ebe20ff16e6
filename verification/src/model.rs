//! The feed's records, and the mathematical view of each.
//!
//! Text is viewed as a sequence of characters. Coordinates, bearing and speed
//! are kept as the bit patterns of the single-precision numbers that the feed
//! carries, so that no value is rounded on its way through the library.

use vstd::prelude::*;

verus! {

/// Traffic condition that a vehicle reports.
#[derive(Clone, Copy, Debug, PartialEq, Eq, Structural)]
pub enum CongestionLevel {
    UnknownCongestionLevel,
    RunningSmoothly,
    StopAndGo,
    Congestion,
    SevereCongestion,
}

/// The trip that a vehicle is serving.
#[derive(Clone, Debug, PartialEq, Eq)]
pub struct TripDescriptor {
    /// Start time of the trip, `HH:MM:SS`.
    pub start_time: Option<String>,
    /// Start date of the trip, `YYYYMMDD`.
    pub start_date: Option<String>,
    /// Identifier of the route.
    pub route_id: Option<String>,
}

/// View of a [`TripDescriptor`].
pub struct TripView {
    pub start_time: Option<Seq<char>>,
    pub start_date: Option<Seq<char>>,
    pub route_id: Option<Seq<char>>,
}

/// Where a vehicle is, as single-precision bit patterns.
#[derive(Clone, Copy, Debug, PartialEq, Eq)]
pub struct Position {
    /// Degrees north.
    pub latitude: u32,
    /// Degrees east.
    pub longitude: u32,
    /// Degrees clockwise from true north.
    pub bearing: Option<u32>,
    /// Speed, in the unit the feed reports.
    pub speed: Option<u32>,
}

/// One vehicle's report.
#[derive(Clone, Debug, PartialEq, Eq)]
pub struct VehiclePosition {
    pub trip: Option<TripDescriptor>,
    pub position: Option<Position>,
    pub congestion_level: Option<CongestionLevel>,
}

/// View of a [`VehiclePosition`].
pub struct VehicleView {
    pub trip: Option<TripView>,
    pub position: Option<Position>,
    pub congestion_level: Option<CongestionLevel>,
}

/// One entity of a feed.
#[derive(Clone, Debug, PartialEq, Eq)]
pub struct FeedEntity {
    pub id: String,
    pub vehicle: Option<VehiclePosition>,
}

/// View of a [`FeedEntity`].
pub struct EntityView {
    pub id: Seq<char>,
    pub vehicle: Option<VehicleView>,
}

/// A decoded feed: its entities, in the order of the buffer.
#[derive(Clone, Debug, PartialEq, Eq)]
pub struct FeedMessage {
    pub entity: Vec<FeedEntity>,
}

/// View of a [`FeedMessage`].
pub struct FeedView {
    pub entity: Seq<EntityView>,
}

/// View of an optional text.
pub open spec fn text_view(text: Option<String>) -> Option<Seq<char>> {
    match text {
        Some(t) => Some(t@),
        None => None,
    }
}

/// Views of a sequence of entities, one by one.
pub open spec fn entity_views(entities: Seq<FeedEntity>) -> Seq<EntityView> {
    entities.map_values(|e: FeedEntity| e@)
}

impl View for TripDescriptor {
    type V = TripView;

    open spec fn view(&self) -> TripView {
        TripView {
            start_time: text_view(self.start_time),
            start_date: text_view(self.start_date),
            route_id: text_view(self.route_id),
        }
    }
}

impl View for VehiclePosition {
    type V = VehicleView;

    open spec fn view(&self) -> VehicleView {
        VehicleView {
            trip: match self.trip {
                Some(t) => Some(t@),
                None => None,
            },
            position: self.position,
            congestion_level: self.congestion_level,
        }
    }
}

impl View for FeedEntity {
    type V = EntityView;

    open spec fn view(&self) -> EntityView {
        EntityView {
            id: self.id@,
            vehicle: match self.vehicle {
                Some(v) => Some(v@),
                None => None,
            },
        }
    }
}

impl View for FeedMessage {
    type V = FeedView;

    open spec fn view(&self) -> FeedView {
        FeedView { entity: entity_views(self.entity@) }
    }
}

/// A trip with no field set.
pub open spec fn empty_trip() -> TripView {
    TripView { start_time: None, start_date: None, route_id: None }
}

/// A position at the origin, with neither bearing nor speed.
pub open spec fn empty_position() -> Position {
    Position { latitude: 0, longitude: 0, bearing: None, speed: None }
}

/// A vehicle report with no field set.
pub open spec fn empty_vehicle() -> VehicleView {
    VehicleView { trip: None, position: None, congestion_level: None }
}

/// An entity with an empty identifier and no vehicle.
pub open spec fn empty_entity() -> EntityView {
    EntityView { id: Seq::empty(), vehicle: None }
}

} // verus!
