//! The host interface: the full set of engine-provided functions callable
//! from robot code. This is the sandbox boundary: robot bytecode can only
//! interact with the engine through the functions enumerated here.
use vstd::prelude::*;
use crate::text::{chars_of, chars_eq_str};

verus! {

/// Number of engine-provided functions.
pub const HOST_FN_COUNT: u16 = 43;

/// Engine-provided functions. `index()` is the bytecode-level number.
#[derive(Clone, Copy, Debug, PartialEq, Eq, Structural)]
pub enum HostFn {
    // Blocking motion (VM suspends until complete).
    Ahead,
    Back,
    TurnBody,
    TurnGun,
    TurnRadar,
    AwaitTick,
    // Immediate intent setters (persist until changed).
    SetVelocity,
    SetBodyRate,
    SetGunRate,
    SetRadarRate,
    // Actions.
    Fire,
    Log,
    // State getters.
    X,
    Y,
    Velocity,
    Energy,
    BodyHeading,
    GunHeading,
    RadarHeading,
    GunHeat,
    Time,
    ArenaW,
    ArenaH,
    // Event queue.
    PopEvent,
    EventX,
    EventY,
    EventHeading,
    EventVelocity,
    EventEnergy,
    EventBearing,
    EventDist,
    EventPower,
    EventName,
    // Math helpers.
    Sin,
    Cos,
    Abs,
    Min,
    Max,
    Sqrt,
    NormDeg,
    BearingTo,
    Atan2,
    // Aimed fire, at the end of the tick.
    FireAt,
}

/// Bytecode-level number of each host function (its place in the table).
pub open spec fn host_index(f: HostFn) -> nat {
    match f {
        HostFn::Ahead => 0,
        HostFn::Back => 1,
        HostFn::TurnBody => 2,
        HostFn::TurnGun => 3,
        HostFn::TurnRadar => 4,
        HostFn::AwaitTick => 5,
        HostFn::SetVelocity => 6,
        HostFn::SetBodyRate => 7,
        HostFn::SetGunRate => 8,
        HostFn::SetRadarRate => 9,
        HostFn::Fire => 10,
        HostFn::Log => 11,
        HostFn::X => 12,
        HostFn::Y => 13,
        HostFn::Velocity => 14,
        HostFn::Energy => 15,
        HostFn::BodyHeading => 16,
        HostFn::GunHeading => 17,
        HostFn::RadarHeading => 18,
        HostFn::GunHeat => 19,
        HostFn::Time => 20,
        HostFn::ArenaW => 21,
        HostFn::ArenaH => 22,
        HostFn::PopEvent => 23,
        HostFn::EventX => 24,
        HostFn::EventY => 25,
        HostFn::EventHeading => 26,
        HostFn::EventVelocity => 27,
        HostFn::EventEnergy => 28,
        HostFn::EventBearing => 29,
        HostFn::EventDist => 30,
        HostFn::EventPower => 31,
        HostFn::EventName => 32,
        HostFn::Sin => 33,
        HostFn::Cos => 34,
        HostFn::Abs => 35,
        HostFn::Min => 36,
        HostFn::Max => 37,
        HostFn::Sqrt => 38,
        HostFn::NormDeg => 39,
        HostFn::BearingTo => 40,
        HostFn::Atan2 => 41,
        HostFn::FireAt => 42,
    }
}

/// The source-level name of each host function.
pub open spec fn host_name(f: HostFn) -> Seq<char> {
    match f {
        HostFn::Ahead => "ahead"@,
        HostFn::Back => "back"@,
        HostFn::TurnBody => "turn_body"@,
        HostFn::TurnGun => "turn_gun"@,
        HostFn::TurnRadar => "turn_radar"@,
        HostFn::AwaitTick => "await_tick"@,
        HostFn::SetVelocity => "set_velocity"@,
        HostFn::SetBodyRate => "set_body_rate"@,
        HostFn::SetGunRate => "set_gun_rate"@,
        HostFn::SetRadarRate => "set_radar_rate"@,
        HostFn::Fire => "fire"@,
        HostFn::Log => "log"@,
        HostFn::X => "x"@,
        HostFn::Y => "y"@,
        HostFn::Velocity => "velocity"@,
        HostFn::Energy => "energy"@,
        HostFn::BodyHeading => "body_heading"@,
        HostFn::GunHeading => "gun_heading"@,
        HostFn::RadarHeading => "radar_heading"@,
        HostFn::GunHeat => "gun_heat"@,
        HostFn::Time => "time"@,
        HostFn::ArenaW => "arena_w"@,
        HostFn::ArenaH => "arena_h"@,
        HostFn::PopEvent => "pop_event"@,
        HostFn::EventX => "event_x"@,
        HostFn::EventY => "event_y"@,
        HostFn::EventHeading => "event_heading"@,
        HostFn::EventVelocity => "event_velocity"@,
        HostFn::EventEnergy => "event_energy"@,
        HostFn::EventBearing => "event_bearing"@,
        HostFn::EventDist => "event_dist"@,
        HostFn::EventPower => "event_power"@,
        HostFn::EventName => "event_name"@,
        HostFn::Sin => "sin"@,
        HostFn::Cos => "cos"@,
        HostFn::Abs => "abs"@,
        HostFn::Min => "min"@,
        HostFn::Max => "max"@,
        HostFn::Sqrt => "sqrt"@,
        HostFn::NormDeg => "norm_deg"@,
        HostFn::BearingTo => "bearing_to"@,
        HostFn::Atan2 => "atan2"@,
        HostFn::FireAt => "fire_at"@,
    }
}

/// Number of arguments each host function takes.
pub open spec fn host_arity(f: HostFn) -> u8 {
    match f {
        HostFn::Ahead => 1,
        HostFn::Back => 1,
        HostFn::TurnBody => 1,
        HostFn::TurnGun => 1,
        HostFn::TurnRadar => 1,
        HostFn::AwaitTick => 0,
        HostFn::SetVelocity => 1,
        HostFn::SetBodyRate => 1,
        HostFn::SetGunRate => 1,
        HostFn::SetRadarRate => 1,
        HostFn::Fire => 1,
        HostFn::Log => 1,
        HostFn::X => 0,
        HostFn::Y => 0,
        HostFn::Velocity => 0,
        HostFn::Energy => 0,
        HostFn::BodyHeading => 0,
        HostFn::GunHeading => 0,
        HostFn::RadarHeading => 0,
        HostFn::GunHeat => 0,
        HostFn::Time => 0,
        HostFn::ArenaW => 0,
        HostFn::ArenaH => 0,
        HostFn::PopEvent => 0,
        HostFn::EventX => 0,
        HostFn::EventY => 0,
        HostFn::EventHeading => 0,
        HostFn::EventVelocity => 0,
        HostFn::EventEnergy => 0,
        HostFn::EventBearing => 0,
        HostFn::EventDist => 0,
        HostFn::EventPower => 0,
        HostFn::EventName => 0,
        HostFn::Sin => 1,
        HostFn::Cos => 1,
        HostFn::Abs => 1,
        HostFn::Min => 2,
        HostFn::Max => 2,
        HostFn::Sqrt => 1,
        HostFn::NormDeg => 1,
        HostFn::BearingTo => 2,
        HostFn::Atan2 => 2,
        HostFn::FireAt => 2,
    }
}

/// The host function with bytecode number `i`, if any.
pub open spec fn host_fn_at(i: int) -> Option<HostFn> {
    if i == 0 {
        Some(HostFn::Ahead)
    }     else if i == 1 {
        Some(HostFn::Back)
    }     else if i == 2 {
        Some(HostFn::TurnBody)
    }     else if i == 3 {
        Some(HostFn::TurnGun)
    }     else if i == 4 {
        Some(HostFn::TurnRadar)
    }     else if i == 5 {
        Some(HostFn::AwaitTick)
    }     else if i == 6 {
        Some(HostFn::SetVelocity)
    }     else if i == 7 {
        Some(HostFn::SetBodyRate)
    }     else if i == 8 {
        Some(HostFn::SetGunRate)
    }     else if i == 9 {
        Some(HostFn::SetRadarRate)
    }     else if i == 10 {
        Some(HostFn::Fire)
    }     else if i == 11 {
        Some(HostFn::Log)
    }     else if i == 12 {
        Some(HostFn::X)
    }     else if i == 13 {
        Some(HostFn::Y)
    }     else if i == 14 {
        Some(HostFn::Velocity)
    }     else if i == 15 {
        Some(HostFn::Energy)
    }     else if i == 16 {
        Some(HostFn::BodyHeading)
    }     else if i == 17 {
        Some(HostFn::GunHeading)
    }     else if i == 18 {
        Some(HostFn::RadarHeading)
    }     else if i == 19 {
        Some(HostFn::GunHeat)
    }     else if i == 20 {
        Some(HostFn::Time)
    }     else if i == 21 {
        Some(HostFn::ArenaW)
    }     else if i == 22 {
        Some(HostFn::ArenaH)
    }     else if i == 23 {
        Some(HostFn::PopEvent)
    }     else if i == 24 {
        Some(HostFn::EventX)
    }     else if i == 25 {
        Some(HostFn::EventY)
    }     else if i == 26 {
        Some(HostFn::EventHeading)
    }     else if i == 27 {
        Some(HostFn::EventVelocity)
    }     else if i == 28 {
        Some(HostFn::EventEnergy)
    }     else if i == 29 {
        Some(HostFn::EventBearing)
    }     else if i == 30 {
        Some(HostFn::EventDist)
    }     else if i == 31 {
        Some(HostFn::EventPower)
    }     else if i == 32 {
        Some(HostFn::EventName)
    }     else if i == 33 {
        Some(HostFn::Sin)
    }     else if i == 34 {
        Some(HostFn::Cos)
    }     else if i == 35 {
        Some(HostFn::Abs)
    }     else if i == 36 {
        Some(HostFn::Min)
    }     else if i == 37 {
        Some(HostFn::Max)
    }     else if i == 38 {
        Some(HostFn::Sqrt)
    }     else if i == 39 {
        Some(HostFn::NormDeg)
    }     else if i == 40 {
        Some(HostFn::BearingTo)
    }     else if i == 41 {
        Some(HostFn::Atan2)
    }     else if i == 42 {
        Some(HostFn::FireAt)
    } else {
        None
    }
}

impl HostFn {
    /// The function with bytecode number `index`, or `None` past the table.
    pub fn from_index(index: u16) -> (r: Option<HostFn>)
        ensures
            r == host_fn_at(index as int),
    {
        match index {
            0 => Some(HostFn::Ahead),
            1 => Some(HostFn::Back),
            2 => Some(HostFn::TurnBody),
            3 => Some(HostFn::TurnGun),
            4 => Some(HostFn::TurnRadar),
            5 => Some(HostFn::AwaitTick),
            6 => Some(HostFn::SetVelocity),
            7 => Some(HostFn::SetBodyRate),
            8 => Some(HostFn::SetGunRate),
            9 => Some(HostFn::SetRadarRate),
            10 => Some(HostFn::Fire),
            11 => Some(HostFn::Log),
            12 => Some(HostFn::X),
            13 => Some(HostFn::Y),
            14 => Some(HostFn::Velocity),
            15 => Some(HostFn::Energy),
            16 => Some(HostFn::BodyHeading),
            17 => Some(HostFn::GunHeading),
            18 => Some(HostFn::RadarHeading),
            19 => Some(HostFn::GunHeat),
            20 => Some(HostFn::Time),
            21 => Some(HostFn::ArenaW),
            22 => Some(HostFn::ArenaH),
            23 => Some(HostFn::PopEvent),
            24 => Some(HostFn::EventX),
            25 => Some(HostFn::EventY),
            26 => Some(HostFn::EventHeading),
            27 => Some(HostFn::EventVelocity),
            28 => Some(HostFn::EventEnergy),
            29 => Some(HostFn::EventBearing),
            30 => Some(HostFn::EventDist),
            31 => Some(HostFn::EventPower),
            32 => Some(HostFn::EventName),
            33 => Some(HostFn::Sin),
            34 => Some(HostFn::Cos),
            35 => Some(HostFn::Abs),
            36 => Some(HostFn::Min),
            37 => Some(HostFn::Max),
            38 => Some(HostFn::Sqrt),
            39 => Some(HostFn::NormDeg),
            40 => Some(HostFn::BearingTo),
            41 => Some(HostFn::Atan2),
            42 => Some(HostFn::FireAt),
            _ => None,
        }
    }

    /// Bytecode-level number of this function.
    pub fn index(self) -> (r: u16)
        ensures
            r == host_index(self),
    {
        match self {
            HostFn::Ahead => 0,
            HostFn::Back => 1,
            HostFn::TurnBody => 2,
            HostFn::TurnGun => 3,
            HostFn::TurnRadar => 4,
            HostFn::AwaitTick => 5,
            HostFn::SetVelocity => 6,
            HostFn::SetBodyRate => 7,
            HostFn::SetGunRate => 8,
            HostFn::SetRadarRate => 9,
            HostFn::Fire => 10,
            HostFn::Log => 11,
            HostFn::X => 12,
            HostFn::Y => 13,
            HostFn::Velocity => 14,
            HostFn::Energy => 15,
            HostFn::BodyHeading => 16,
            HostFn::GunHeading => 17,
            HostFn::RadarHeading => 18,
            HostFn::GunHeat => 19,
            HostFn::Time => 20,
            HostFn::ArenaW => 21,
            HostFn::ArenaH => 22,
            HostFn::PopEvent => 23,
            HostFn::EventX => 24,
            HostFn::EventY => 25,
            HostFn::EventHeading => 26,
            HostFn::EventVelocity => 27,
            HostFn::EventEnergy => 28,
            HostFn::EventBearing => 29,
            HostFn::EventDist => 30,
            HostFn::EventPower => 31,
            HostFn::EventName => 32,
            HostFn::Sin => 33,
            HostFn::Cos => 34,
            HostFn::Abs => 35,
            HostFn::Min => 36,
            HostFn::Max => 37,
            HostFn::Sqrt => 38,
            HostFn::NormDeg => 39,
            HostFn::BearingTo => 40,
            HostFn::Atan2 => 41,
            HostFn::FireAt => 42,
        }
    }

    /// Source-level name of this function.
    pub fn name(self) -> (r: &'static str)
        ensures
            r@ == host_name(self),
    {
        match self {
            HostFn::Ahead => "ahead",
            HostFn::Back => "back",
            HostFn::TurnBody => "turn_body",
            HostFn::TurnGun => "turn_gun",
            HostFn::TurnRadar => "turn_radar",
            HostFn::AwaitTick => "await_tick",
            HostFn::SetVelocity => "set_velocity",
            HostFn::SetBodyRate => "set_body_rate",
            HostFn::SetGunRate => "set_gun_rate",
            HostFn::SetRadarRate => "set_radar_rate",
            HostFn::Fire => "fire",
            HostFn::Log => "log",
            HostFn::X => "x",
            HostFn::Y => "y",
            HostFn::Velocity => "velocity",
            HostFn::Energy => "energy",
            HostFn::BodyHeading => "body_heading",
            HostFn::GunHeading => "gun_heading",
            HostFn::RadarHeading => "radar_heading",
            HostFn::GunHeat => "gun_heat",
            HostFn::Time => "time",
            HostFn::ArenaW => "arena_w",
            HostFn::ArenaH => "arena_h",
            HostFn::PopEvent => "pop_event",
            HostFn::EventX => "event_x",
            HostFn::EventY => "event_y",
            HostFn::EventHeading => "event_heading",
            HostFn::EventVelocity => "event_velocity",
            HostFn::EventEnergy => "event_energy",
            HostFn::EventBearing => "event_bearing",
            HostFn::EventDist => "event_dist",
            HostFn::EventPower => "event_power",
            HostFn::EventName => "event_name",
            HostFn::Sin => "sin",
            HostFn::Cos => "cos",
            HostFn::Abs => "abs",
            HostFn::Min => "min",
            HostFn::Max => "max",
            HostFn::Sqrt => "sqrt",
            HostFn::NormDeg => "norm_deg",
            HostFn::BearingTo => "bearing_to",
            HostFn::Atan2 => "atan2",
            HostFn::FireAt => "fire_at",
        }
    }

    /// Number of arguments this function takes.
    pub fn arity(self) -> (r: u8)
        ensures
            r == host_arity(self),
    {
        match self {
            HostFn::Ahead => 1,
            HostFn::Back => 1,
            HostFn::TurnBody => 1,
            HostFn::TurnGun => 1,
            HostFn::TurnRadar => 1,
            HostFn::AwaitTick => 0,
            HostFn::SetVelocity => 1,
            HostFn::SetBodyRate => 1,
            HostFn::SetGunRate => 1,
            HostFn::SetRadarRate => 1,
            HostFn::Fire => 1,
            HostFn::Log => 1,
            HostFn::X => 0,
            HostFn::Y => 0,
            HostFn::Velocity => 0,
            HostFn::Energy => 0,
            HostFn::BodyHeading => 0,
            HostFn::GunHeading => 0,
            HostFn::RadarHeading => 0,
            HostFn::GunHeat => 0,
            HostFn::Time => 0,
            HostFn::ArenaW => 0,
            HostFn::ArenaH => 0,
            HostFn::PopEvent => 0,
            HostFn::EventX => 0,
            HostFn::EventY => 0,
            HostFn::EventHeading => 0,
            HostFn::EventVelocity => 0,
            HostFn::EventEnergy => 0,
            HostFn::EventBearing => 0,
            HostFn::EventDist => 0,
            HostFn::EventPower => 0,
            HostFn::EventName => 0,
            HostFn::Sin => 1,
            HostFn::Cos => 1,
            HostFn::Abs => 1,
            HostFn::Min => 2,
            HostFn::Max => 2,
            HostFn::Sqrt => 1,
            HostFn::NormDeg => 1,
            HostFn::BearingTo => 2,
            HostFn::Atan2 => 2,
            HostFn::FireAt => 2,
        }
    }
}

/// The table is a bijection between `0..HOST_FN_COUNT` and the functions.
pub proof fn lemma_index_roundtrip(f: HostFn)
    ensures
        host_index(f) < HOST_FN_COUNT,
        host_fn_at(host_index(f) as int) == Some(f),
{
}

/// Every number below `HOST_FN_COUNT` names a function, and numbers it
/// back; none above does.
pub proof fn lemma_fn_at_roundtrip(i: int)
    ensures
        0 <= i < HOST_FN_COUNT ==> (host_fn_at(i) matches Some(f) && host_index(f) == i),
        !(0 <= i < HOST_FN_COUNT) ==> host_fn_at(i) is None,
{
}

/// Distinct host functions have distinct names.
#[verifier::rlimit(50)]
pub proof fn lemma_names_distinct(f: HostFn, g: HostFn)
    requires
        f != g,
    ensures
        host_name(f) != host_name(g),
{
    reveal_strlit("ahead");
    reveal_strlit("back");
    reveal_strlit("turn_body");
    reveal_strlit("turn_gun");
    reveal_strlit("turn_radar");
    reveal_strlit("await_tick");
    reveal_strlit("set_velocity");
    reveal_strlit("set_body_rate");
    reveal_strlit("set_gun_rate");
    reveal_strlit("set_radar_rate");
    reveal_strlit("fire");
    reveal_strlit("log");
    reveal_strlit("x");
    reveal_strlit("y");
    reveal_strlit("velocity");
    reveal_strlit("energy");
    reveal_strlit("body_heading");
    reveal_strlit("gun_heading");
    reveal_strlit("radar_heading");
    reveal_strlit("gun_heat");
    reveal_strlit("time");
    reveal_strlit("arena_w");
    reveal_strlit("arena_h");
    reveal_strlit("pop_event");
    reveal_strlit("event_x");
    reveal_strlit("event_y");
    reveal_strlit("event_heading");
    reveal_strlit("event_velocity");
    reveal_strlit("event_energy");
    reveal_strlit("event_bearing");
    reveal_strlit("event_dist");
    reveal_strlit("event_power");
    reveal_strlit("event_name");
    reveal_strlit("sin");
    reveal_strlit("cos");
    reveal_strlit("abs");
    reveal_strlit("min");
    reveal_strlit("max");
    reveal_strlit("sqrt");
    reveal_strlit("norm_deg");
    reveal_strlit("bearing_to");
    reveal_strlit("atan2");
    reveal_strlit("fire_at");
    if host_name(f) == host_name(g) {
        match f {
            HostFn::Ahead => {
                assert(host_name(g).len() == 5);
                assert(host_name(g)[0] == 'a');
                assert(host_name(g)[1] == 'h');
                assert(host_name(g)[2] == 'e');
                assert(host_name(g)[3] == 'a');
                assert(host_name(g)[4] == 'd');
            }
            HostFn::Back => {
                assert(host_name(g).len() == 4);
                assert(host_name(g)[0] == 'b');
                assert(host_name(g)[1] == 'a');
                assert(host_name(g)[2] == 'c');
                assert(host_name(g)[3] == 'k');
            }
            HostFn::TurnBody => {
                assert(host_name(g).len() == 9);
                assert(host_name(g)[0] == 't');
                assert(host_name(g)[1] == 'u');
                assert(host_name(g)[2] == 'r');
                assert(host_name(g)[3] == 'n');
                assert(host_name(g)[4] == '_');
                assert(host_name(g)[5] == 'b');
                assert(host_name(g)[6] == 'o');
                assert(host_name(g)[7] == 'd');
                assert(host_name(g)[8] == 'y');
            }
            HostFn::TurnGun => {
                assert(host_name(g).len() == 8);
                assert(host_name(g)[0] == 't');
                assert(host_name(g)[1] == 'u');
                assert(host_name(g)[2] == 'r');
                assert(host_name(g)[3] == 'n');
                assert(host_name(g)[4] == '_');
                assert(host_name(g)[5] == 'g');
                assert(host_name(g)[6] == 'u');
                assert(host_name(g)[7] == 'n');
            }
            HostFn::TurnRadar => {
                assert(host_name(g).len() == 10);
                assert(host_name(g)[0] == 't');
                assert(host_name(g)[1] == 'u');
                assert(host_name(g)[2] == 'r');
                assert(host_name(g)[3] == 'n');
                assert(host_name(g)[4] == '_');
                assert(host_name(g)[5] == 'r');
                assert(host_name(g)[6] == 'a');
                assert(host_name(g)[7] == 'd');
                assert(host_name(g)[8] == 'a');
                assert(host_name(g)[9] == 'r');
            }
            HostFn::AwaitTick => {
                assert(host_name(g).len() == 10);
                assert(host_name(g)[0] == 'a');
                assert(host_name(g)[1] == 'w');
                assert(host_name(g)[2] == 'a');
                assert(host_name(g)[3] == 'i');
                assert(host_name(g)[4] == 't');
                assert(host_name(g)[5] == '_');
                assert(host_name(g)[6] == 't');
                assert(host_name(g)[7] == 'i');
                assert(host_name(g)[8] == 'c');
                assert(host_name(g)[9] == 'k');
            }
            HostFn::SetVelocity => {
                assert(host_name(g).len() == 12);
                assert(host_name(g)[0] == 's');
                assert(host_name(g)[1] == 'e');
                assert(host_name(g)[2] == 't');
                assert(host_name(g)[3] == '_');
                assert(host_name(g)[4] == 'v');
                assert(host_name(g)[5] == 'e');
                assert(host_name(g)[6] == 'l');
                assert(host_name(g)[7] == 'o');
                assert(host_name(g)[8] == 'c');
                assert(host_name(g)[9] == 'i');
                assert(host_name(g)[10] == 't');
                assert(host_name(g)[11] == 'y');
            }
            HostFn::SetBodyRate => {
                assert(host_name(g).len() == 13);
                assert(host_name(g)[0] == 's');
                assert(host_name(g)[1] == 'e');
                assert(host_name(g)[2] == 't');
                assert(host_name(g)[3] == '_');
                assert(host_name(g)[4] == 'b');
                assert(host_name(g)[5] == 'o');
                assert(host_name(g)[6] == 'd');
                assert(host_name(g)[7] == 'y');
                assert(host_name(g)[8] == '_');
                assert(host_name(g)[9] == 'r');
                assert(host_name(g)[10] == 'a');
                assert(host_name(g)[11] == 't');
                assert(host_name(g)[12] == 'e');
            }
            HostFn::SetGunRate => {
                assert(host_name(g).len() == 12);
                assert(host_name(g)[0] == 's');
                assert(host_name(g)[1] == 'e');
                assert(host_name(g)[2] == 't');
                assert(host_name(g)[3] == '_');
                assert(host_name(g)[4] == 'g');
                assert(host_name(g)[5] == 'u');
                assert(host_name(g)[6] == 'n');
                assert(host_name(g)[7] == '_');
                assert(host_name(g)[8] == 'r');
                assert(host_name(g)[9] == 'a');
                assert(host_name(g)[10] == 't');
                assert(host_name(g)[11] == 'e');
            }
            HostFn::SetRadarRate => {
                assert(host_name(g).len() == 14);
                assert(host_name(g)[0] == 's');
                assert(host_name(g)[1] == 'e');
                assert(host_name(g)[2] == 't');
                assert(host_name(g)[3] == '_');
                assert(host_name(g)[4] == 'r');
                assert(host_name(g)[5] == 'a');
                assert(host_name(g)[6] == 'd');
                assert(host_name(g)[7] == 'a');
                assert(host_name(g)[8] == 'r');
                assert(host_name(g)[9] == '_');
                assert(host_name(g)[10] == 'r');
                assert(host_name(g)[11] == 'a');
                assert(host_name(g)[12] == 't');
                assert(host_name(g)[13] == 'e');
            }
            HostFn::Fire => {
                assert(host_name(g).len() == 4);
                assert(host_name(g)[0] == 'f');
                assert(host_name(g)[1] == 'i');
                assert(host_name(g)[2] == 'r');
                assert(host_name(g)[3] == 'e');
            }
            HostFn::Log => {
                assert(host_name(g).len() == 3);
                assert(host_name(g)[0] == 'l');
                assert(host_name(g)[1] == 'o');
                assert(host_name(g)[2] == 'g');
            }
            HostFn::X => {
                assert(host_name(g).len() == 1);
                assert(host_name(g)[0] == 'x');
            }
            HostFn::Y => {
                assert(host_name(g).len() == 1);
                assert(host_name(g)[0] == 'y');
            }
            HostFn::Velocity => {
                assert(host_name(g).len() == 8);
                assert(host_name(g)[0] == 'v');
                assert(host_name(g)[1] == 'e');
                assert(host_name(g)[2] == 'l');
                assert(host_name(g)[3] == 'o');
                assert(host_name(g)[4] == 'c');
                assert(host_name(g)[5] == 'i');
                assert(host_name(g)[6] == 't');
                assert(host_name(g)[7] == 'y');
            }
            HostFn::Energy => {
                assert(host_name(g).len() == 6);
                assert(host_name(g)[0] == 'e');
                assert(host_name(g)[1] == 'n');
                assert(host_name(g)[2] == 'e');
                assert(host_name(g)[3] == 'r');
                assert(host_name(g)[4] == 'g');
                assert(host_name(g)[5] == 'y');
            }
            HostFn::BodyHeading => {
                assert(host_name(g).len() == 12);
                assert(host_name(g)[0] == 'b');
                assert(host_name(g)[1] == 'o');
                assert(host_name(g)[2] == 'd');
                assert(host_name(g)[3] == 'y');
                assert(host_name(g)[4] == '_');
                assert(host_name(g)[5] == 'h');
                assert(host_name(g)[6] == 'e');
                assert(host_name(g)[7] == 'a');
                assert(host_name(g)[8] == 'd');
                assert(host_name(g)[9] == 'i');
                assert(host_name(g)[10] == 'n');
                assert(host_name(g)[11] == 'g');
            }
            HostFn::GunHeading => {
                assert(host_name(g).len() == 11);
                assert(host_name(g)[0] == 'g');
                assert(host_name(g)[1] == 'u');
                assert(host_name(g)[2] == 'n');
                assert(host_name(g)[3] == '_');
                assert(host_name(g)[4] == 'h');
                assert(host_name(g)[5] == 'e');
                assert(host_name(g)[6] == 'a');
                assert(host_name(g)[7] == 'd');
                assert(host_name(g)[8] == 'i');
                assert(host_name(g)[9] == 'n');
                assert(host_name(g)[10] == 'g');
            }
            HostFn::RadarHeading => {
                assert(host_name(g).len() == 13);
                assert(host_name(g)[0] == 'r');
                assert(host_name(g)[1] == 'a');
                assert(host_name(g)[2] == 'd');
                assert(host_name(g)[3] == 'a');
                assert(host_name(g)[4] == 'r');
                assert(host_name(g)[5] == '_');
                assert(host_name(g)[6] == 'h');
                assert(host_name(g)[7] == 'e');
                assert(host_name(g)[8] == 'a');
                assert(host_name(g)[9] == 'd');
                assert(host_name(g)[10] == 'i');
                assert(host_name(g)[11] == 'n');
                assert(host_name(g)[12] == 'g');
            }
            HostFn::GunHeat => {
                assert(host_name(g).len() == 8);
                assert(host_name(g)[0] == 'g');
                assert(host_name(g)[1] == 'u');
                assert(host_name(g)[2] == 'n');
                assert(host_name(g)[3] == '_');
                assert(host_name(g)[4] == 'h');
                assert(host_name(g)[5] == 'e');
                assert(host_name(g)[6] == 'a');
                assert(host_name(g)[7] == 't');
            }
            HostFn::Time => {
                assert(host_name(g).len() == 4);
                assert(host_name(g)[0] == 't');
                assert(host_name(g)[1] == 'i');
                assert(host_name(g)[2] == 'm');
                assert(host_name(g)[3] == 'e');
            }
            HostFn::ArenaW => {
                assert(host_name(g).len() == 7);
                assert(host_name(g)[0] == 'a');
                assert(host_name(g)[1] == 'r');
                assert(host_name(g)[2] == 'e');
                assert(host_name(g)[3] == 'n');
                assert(host_name(g)[4] == 'a');
                assert(host_name(g)[5] == '_');
                assert(host_name(g)[6] == 'w');
            }
            HostFn::ArenaH => {
                assert(host_name(g).len() == 7);
                assert(host_name(g)[0] == 'a');
                assert(host_name(g)[1] == 'r');
                assert(host_name(g)[2] == 'e');
                assert(host_name(g)[3] == 'n');
                assert(host_name(g)[4] == 'a');
                assert(host_name(g)[5] == '_');
                assert(host_name(g)[6] == 'h');
            }
            HostFn::PopEvent => {
                assert(host_name(g).len() == 9);
                assert(host_name(g)[0] == 'p');
                assert(host_name(g)[1] == 'o');
                assert(host_name(g)[2] == 'p');
                assert(host_name(g)[3] == '_');
                assert(host_name(g)[4] == 'e');
                assert(host_name(g)[5] == 'v');
                assert(host_name(g)[6] == 'e');
                assert(host_name(g)[7] == 'n');
                assert(host_name(g)[8] == 't');
            }
            HostFn::EventX => {
                assert(host_name(g).len() == 7);
                assert(host_name(g)[0] == 'e');
                assert(host_name(g)[1] == 'v');
                assert(host_name(g)[2] == 'e');
                assert(host_name(g)[3] == 'n');
                assert(host_name(g)[4] == 't');
                assert(host_name(g)[5] == '_');
                assert(host_name(g)[6] == 'x');
            }
            HostFn::EventY => {
                assert(host_name(g).len() == 7);
                assert(host_name(g)[0] == 'e');
                assert(host_name(g)[1] == 'v');
                assert(host_name(g)[2] == 'e');
                assert(host_name(g)[3] == 'n');
                assert(host_name(g)[4] == 't');
                assert(host_name(g)[5] == '_');
                assert(host_name(g)[6] == 'y');
            }
            HostFn::EventHeading => {
                assert(host_name(g).len() == 13);
                assert(host_name(g)[0] == 'e');
                assert(host_name(g)[1] == 'v');
                assert(host_name(g)[2] == 'e');
                assert(host_name(g)[3] == 'n');
                assert(host_name(g)[4] == 't');
                assert(host_name(g)[5] == '_');
                assert(host_name(g)[6] == 'h');
                assert(host_name(g)[7] == 'e');
                assert(host_name(g)[8] == 'a');
                assert(host_name(g)[9] == 'd');
                assert(host_name(g)[10] == 'i');
                assert(host_name(g)[11] == 'n');
                assert(host_name(g)[12] == 'g');
            }
            HostFn::EventVelocity => {
                assert(host_name(g).len() == 14);
                assert(host_name(g)[0] == 'e');
                assert(host_name(g)[1] == 'v');
                assert(host_name(g)[2] == 'e');
                assert(host_name(g)[3] == 'n');
                assert(host_name(g)[4] == 't');
                assert(host_name(g)[5] == '_');
                assert(host_name(g)[6] == 'v');
                assert(host_name(g)[7] == 'e');
                assert(host_name(g)[8] == 'l');
                assert(host_name(g)[9] == 'o');
                assert(host_name(g)[10] == 'c');
                assert(host_name(g)[11] == 'i');
                assert(host_name(g)[12] == 't');
                assert(host_name(g)[13] == 'y');
            }
            HostFn::EventEnergy => {
                assert(host_name(g).len() == 12);
                assert(host_name(g)[0] == 'e');
                assert(host_name(g)[1] == 'v');
                assert(host_name(g)[2] == 'e');
                assert(host_name(g)[3] == 'n');
                assert(host_name(g)[4] == 't');
                assert(host_name(g)[5] == '_');
                assert(host_name(g)[6] == 'e');
                assert(host_name(g)[7] == 'n');
                assert(host_name(g)[8] == 'e');
                assert(host_name(g)[9] == 'r');
                assert(host_name(g)[10] == 'g');
                assert(host_name(g)[11] == 'y');
            }
            HostFn::EventBearing => {
                assert(host_name(g).len() == 13);
                assert(host_name(g)[0] == 'e');
                assert(host_name(g)[1] == 'v');
                assert(host_name(g)[2] == 'e');
                assert(host_name(g)[3] == 'n');
                assert(host_name(g)[4] == 't');
                assert(host_name(g)[5] == '_');
                assert(host_name(g)[6] == 'b');
                assert(host_name(g)[7] == 'e');
                assert(host_name(g)[8] == 'a');
                assert(host_name(g)[9] == 'r');
                assert(host_name(g)[10] == 'i');
                assert(host_name(g)[11] == 'n');
                assert(host_name(g)[12] == 'g');
            }
            HostFn::EventDist => {
                assert(host_name(g).len() == 10);
                assert(host_name(g)[0] == 'e');
                assert(host_name(g)[1] == 'v');
                assert(host_name(g)[2] == 'e');
                assert(host_name(g)[3] == 'n');
                assert(host_name(g)[4] == 't');
                assert(host_name(g)[5] == '_');
                assert(host_name(g)[6] == 'd');
                assert(host_name(g)[7] == 'i');
                assert(host_name(g)[8] == 's');
                assert(host_name(g)[9] == 't');
            }
            HostFn::EventPower => {
                assert(host_name(g).len() == 11);
                assert(host_name(g)[0] == 'e');
                assert(host_name(g)[1] == 'v');
                assert(host_name(g)[2] == 'e');
                assert(host_name(g)[3] == 'n');
                assert(host_name(g)[4] == 't');
                assert(host_name(g)[5] == '_');
                assert(host_name(g)[6] == 'p');
                assert(host_name(g)[7] == 'o');
                assert(host_name(g)[8] == 'w');
                assert(host_name(g)[9] == 'e');
                assert(host_name(g)[10] == 'r');
            }
            HostFn::EventName => {
                assert(host_name(g).len() == 10);
                assert(host_name(g)[0] == 'e');
                assert(host_name(g)[1] == 'v');
                assert(host_name(g)[2] == 'e');
                assert(host_name(g)[3] == 'n');
                assert(host_name(g)[4] == 't');
                assert(host_name(g)[5] == '_');
                assert(host_name(g)[6] == 'n');
                assert(host_name(g)[7] == 'a');
                assert(host_name(g)[8] == 'm');
                assert(host_name(g)[9] == 'e');
            }
            HostFn::Sin => {
                assert(host_name(g).len() == 3);
                assert(host_name(g)[0] == 's');
                assert(host_name(g)[1] == 'i');
                assert(host_name(g)[2] == 'n');
            }
            HostFn::Cos => {
                assert(host_name(g).len() == 3);
                assert(host_name(g)[0] == 'c');
                assert(host_name(g)[1] == 'o');
                assert(host_name(g)[2] == 's');
            }
            HostFn::Abs => {
                assert(host_name(g).len() == 3);
                assert(host_name(g)[0] == 'a');
                assert(host_name(g)[1] == 'b');
                assert(host_name(g)[2] == 's');
            }
            HostFn::Min => {
                assert(host_name(g).len() == 3);
                assert(host_name(g)[0] == 'm');
                assert(host_name(g)[1] == 'i');
                assert(host_name(g)[2] == 'n');
            }
            HostFn::Max => {
                assert(host_name(g).len() == 3);
                assert(host_name(g)[0] == 'm');
                assert(host_name(g)[1] == 'a');
                assert(host_name(g)[2] == 'x');
            }
            HostFn::Sqrt => {
                assert(host_name(g).len() == 4);
                assert(host_name(g)[0] == 's');
                assert(host_name(g)[1] == 'q');
                assert(host_name(g)[2] == 'r');
                assert(host_name(g)[3] == 't');
            }
            HostFn::NormDeg => {
                assert(host_name(g).len() == 8);
                assert(host_name(g)[0] == 'n');
                assert(host_name(g)[1] == 'o');
                assert(host_name(g)[2] == 'r');
                assert(host_name(g)[3] == 'm');
                assert(host_name(g)[4] == '_');
                assert(host_name(g)[5] == 'd');
                assert(host_name(g)[6] == 'e');
                assert(host_name(g)[7] == 'g');
            }
            HostFn::BearingTo => {
                assert(host_name(g).len() == 10);
                assert(host_name(g)[0] == 'b');
                assert(host_name(g)[1] == 'e');
                assert(host_name(g)[2] == 'a');
                assert(host_name(g)[3] == 'r');
                assert(host_name(g)[4] == 'i');
                assert(host_name(g)[5] == 'n');
                assert(host_name(g)[6] == 'g');
                assert(host_name(g)[7] == '_');
                assert(host_name(g)[8] == 't');
                assert(host_name(g)[9] == 'o');
            }
            HostFn::Atan2 => {
                assert(host_name(g).len() == 5);
                assert(host_name(g)[0] == 'a');
                assert(host_name(g)[1] == 't');
                assert(host_name(g)[2] == 'a');
                assert(host_name(g)[3] == 'n');
                assert(host_name(g)[4] == '2');
            }
            HostFn::FireAt => {
                assert(host_name(g).len() == 7);
                assert(host_name(g)[0] == 'f');
                assert(host_name(g)[1] == 'i');
                assert(host_name(g)[2] == 'r');
                assert(host_name(g)[3] == 'e');
                assert(host_name(g)[4] == '_');
                assert(host_name(g)[5] == 'a');
                assert(host_name(g)[6] == 't');
            }
        }
    }
}

/// Look up a host function by its source-level name: the function and its
/// arity, or `None` when no host function has that name.
pub fn host_lookup(name: &str) -> (r: Option<(HostFn, u8)>)
    ensures
        match r {
            Some((f, a)) => host_name(f) == name@ && a == host_arity(f),
            None => forall|f: HostFn| #[trigger] host_name(f) != name@,
        },
{
    let want = chars_of(name);
    let mut i: u16 = 0;
    while i < HOST_FN_COUNT
        invariant
            i <= HOST_FN_COUNT,
            want@ == name@,
            forall|f: HostFn| host_index(f) < i ==> host_name(f) != name@,
        decreases HOST_FN_COUNT - i,
    {
        proof {
            lemma_fn_at_roundtrip(i as int);
        }
        let f = HostFn::from_index(i).unwrap();
        let candidate = f.name();
        if chars_eq_str(&want, candidate) {
            return Some((f, f.arity()));
        }
        proof {
            assert forall|g: HostFn| host_index(g) < i + 1 implies host_name(g) != name@ by {
                if host_index(g) == i {
                    lemma_index_roundtrip(g);
                }
            }
        }
        i = i + 1;
    }
    proof {
        assert forall|f: HostFn| host_name(f) != name@ by {
            lemma_index_roundtrip(f);
        }
    }
    None
}

/// Source-level name of the host function with bytecode number `index`.
pub fn host_fn_name(index: u16) -> (r: Option<&'static str>)
    ensures
        match host_fn_at(index as int) {
            Some(f) => (r matches Some(s) && s@ == host_name(f)),
            None => r is None,
        },
{
    match HostFn::from_index(index) {
        Some(f) => Some(f.name()),
        None => None,
    }
}

/// Looking a function up by its own name finds it, with its arity.
pub proof fn lemma_lookup_own_name(f: HostFn, r: Option<(HostFn, u8)>)
    requires
        match r {
            Some((g, a)) => host_name(g) == host_name(f) && a == host_arity(g),
            None => forall|g: HostFn| #[trigger] host_name(g) != host_name(f),
        },
    ensures
        r == Some((f, host_arity(f))),
{
    match r {
        Some((g, a)) => {
            if g != f {
                lemma_names_distinct(f, g);
            }
            assert(g == f);
            assert(a == host_arity(f));
        }
        None => {
            assert(host_name(f) == host_name(f));
        }
    }
}

} // verus!
