//! The fixed-schema live telemetry snapshot.

use vstd::prelude::*;

verus! {

/// One complete telemetry snapshot, as an external display reads it.
///
/// Only `time`, `power`, `heartrate`, `cadence`, `distance`, `height`, `speed`
/// and `slope` are ever filled from a sample; the other fields are reserved
/// and keep their defaults: `"--"` for text, zero for numbers.
#[derive(Clone, Debug)]
#[allow(non_snake_case)]
pub struct Focus {
    pub name: String,
    pub country: String,
    pub team: String,
    pub teamCode: String,
    pub power: u32,
    pub avgPower: u32,
    pub nrmPower: u32,
    pub maxPower: u32,
    pub cadence: u32,
    pub avgCadence: u32,
    pub maxCadence: u32,
    pub heartrate: u32,
    pub avgHeartrate: u32,
    pub maxHeartrate: u32,
    pub time: u32,
    pub distance: u32,
    pub height: u32,
    pub speed: u32,
    pub tss: u32,
    pub calories: u32,
    pub draft: u32,
    pub windSpeed: u32,
    pub windAngle: u32,
    pub slope: i32,
    pub eventLapsTotal: u32,
    pub eventLapsDone: i32,
    pub eventDistanceTotal: u32,
    pub eventDistanceDone: u32,
    pub eventDistanceToNextLocation: u32,
    pub eventNextLocation: u32,
    pub eventPosition: u32,
}

/// The text a reserved identity field holds.
pub open spec fn placeholder() -> Seq<char> {
    seq!['-', '-']
}

impl Focus {
    /// Every reserved field holds its default.
    pub open spec fn reserved_blank(&self) -> bool {
        &&& self.name@ == placeholder()
        &&& self.country@ == placeholder()
        &&& self.team@ == placeholder()
        &&& self.teamCode@ == placeholder()
        &&& self.avgPower == 0
        &&& self.nrmPower == 0
        &&& self.maxPower == 0
        &&& self.avgCadence == 0
        &&& self.maxCadence == 0
        &&& self.avgHeartrate == 0
        &&& self.maxHeartrate == 0
        &&& self.tss == 0
        &&& self.calories == 0
        &&& self.draft == 0
        &&& self.windSpeed == 0
        &&& self.windAngle == 0
        &&& self.eventLapsTotal == 0
        &&& self.eventLapsDone == 0
        &&& self.eventDistanceTotal == 0
        &&& self.eventDistanceDone == 0
        &&& self.eventDistanceToNextLocation == 0
        &&& self.eventNextLocation == 0
        &&& self.eventPosition == 0
    }

    /// Every field holds its default.
    pub open spec fn is_blank(&self) -> bool {
        &&& self.reserved_blank()
        &&& self.power == 0
        &&& self.cadence == 0
        &&& self.heartrate == 0
        &&& self.time == 0
        &&& self.distance == 0
        &&& self.height == 0
        &&& self.speed == 0
        &&& self.slope == 0
    }

    /// A snapshot with every field at its default.
    pub fn new() -> (r: Focus)
        ensures
            r.is_blank(),
    {
        let r = Focus {
            name: "--".to_owned(),
            country: "--".to_owned(),
            team: "--".to_owned(),
            teamCode: "--".to_owned(),
            power: 0,
            avgPower: 0,
            nrmPower: 0,
            maxPower: 0,
            cadence: 0,
            avgCadence: 0,
            maxCadence: 0,
            heartrate: 0,
            avgHeartrate: 0,
            maxHeartrate: 0,
            time: 0,
            distance: 0,
            height: 0,
            speed: 0,
            tss: 0,
            calories: 0,
            draft: 0,
            windSpeed: 0,
            windAngle: 0,
            slope: 0,
            eventLapsTotal: 0,
            eventLapsDone: 0,
            eventDistanceTotal: 0,
            eventDistanceDone: 0,
            eventDistanceToNextLocation: 0,
            eventNextLocation: 0,
            eventPosition: 0,
        };
        proof {
            reveal_strlit("--");
            assert(r.name@ =~= placeholder());
            assert(r.country@ =~= placeholder());
            assert(r.team@ =~= placeholder());
            assert(r.teamCode@ =~= placeholder());
        }
        r
    }
}

} // verus!
